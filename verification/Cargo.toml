[package]
name = "gtd"
version = "0.1.0"
edition = "2021"
publish = false

[dependencies]
anyhow = "1"
async-stream = "0.3"
async-trait = "0.1"
axum = "0.8"
chrono = { version = "0.4", features = ["serde"] }
clap = { version = "4", features = ["derive", "env"] }
crossterm = "0.29"
diesel = { version = "2", features = ["sqlite", "r2d2", "chrono"] }
futures-core = "0.3"
libsqlite3-sys = { version = "*", features = ["bundled"] }
ratatui = "0.30"
reqwest = { version = "0.12", default-features = false, features = ["blocking", "json"] }
serde = { version = "1", features = ["derive"] }
serde_json = "1"
thiserror = "2"
tokio = { version = "1", features = ["full"] }
unicode-width = "0.2"
uuid = { version = "1", features = ["v7", "serde"] }
