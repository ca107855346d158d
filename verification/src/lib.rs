//! The rules of a Getting Things Done task manager over an append-only event
//! log: what a task is, which changes it may undergo, how the log grows and is
//! compacted, how a watcher follows it, and how the command line, the terminal
//! screens and the HTTP surface decide what to do next.

pub mod api;
pub mod client;
pub mod clock;
pub mod commands;
pub mod compaction;
pub mod domain;
pub mod errors;
pub mod history;
pub mod ids;
pub mod labels;
pub mod laws;
pub mod listing;
pub mod log_laws;
pub mod numbers;
pub mod replay;
pub mod repository;
pub mod roundtrip;
pub mod rows;
pub mod rules;
pub mod screens;
pub mod sequences;
pub mod session_laws;
pub mod sessions;
pub mod surface_laws;
pub mod text;
pub mod text_laws;
pub mod watch;
