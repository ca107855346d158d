//! What can go wrong with a request, and what is said of it.

use vstd::prelude::*;
use vstd::string::*;
use crate::domain::TaskId;
use crate::ids::{hyphenated, uuid_text};
use crate::numbers::{decimal, signed_text};

verus! {

broadcast use vstd::string::group_string_axioms;

/// Why the store refused a request.
#[derive(Debug, PartialEq, Eq)]
pub enum StoreError {
    NotFound(TaskId),
    Validation(String),
    Conflict(String),
    RevisionConflict { task_id: TaskId, expected_revision: i64, current_revision: i64 },
    Compacted { requested: i64, compacted_revision: i64 },
    FutureRevision { requested: i64, current_revision: i64 },
    Database(String),
}

/// What a refusal is.
#[verifier::ext_equal]
pub enum Fault {
    NotFound(TaskId),
    Validation(Seq<char>),
    Conflict(Seq<char>),
    RevisionConflict { task_id: TaskId, expected_revision: i64, current_revision: i64 },
    Compacted { requested: i64, compacted_revision: i64 },
    FutureRevision { requested: i64, current_revision: i64 },
    Database(Seq<char>),
}

impl View for StoreError {
    type V = Fault;

    open spec fn view(&self) -> Fault {
        match *self {
            StoreError::NotFound(id) => Fault::NotFound(id),
            StoreError::Validation(m) => Fault::Validation(m@),
            StoreError::Conflict(m) => Fault::Conflict(m@),
            StoreError::RevisionConflict { task_id, expected_revision, current_revision } =>
                Fault::RevisionConflict { task_id, expected_revision, current_revision },
            StoreError::Compacted { requested, compacted_revision } => Fault::Compacted {
                requested,
                compacted_revision,
            },
            StoreError::FutureRevision { requested, current_revision } => Fault::FutureRevision {
                requested,
                current_revision,
            },
            StoreError::Database(m) => Fault::Database(m@),
        }
    }
}

impl Fault {
    /// The text of the refusal.
    pub open spec fn message(self) -> Seq<char> {
        match self {
            Fault::NotFound(id) => "task "@ + hyphenated(id) + " was not found"@,
            Fault::Validation(m) => "invalid request: "@ + m,
            Fault::Conflict(m) => "task state change conflict: "@ + m,
            Fault::RevisionConflict { task_id, expected_revision, current_revision } => "task "@
                + hyphenated(task_id) + " revision conflict: expected revision "@ + decimal(
                expected_revision as int,
            ) + ", current revision "@ + decimal(current_revision as int),
            Fault::Compacted { requested, compacted_revision } => "revision "@ + decimal(
                requested as int,
            ) + " has been compacted at revision "@ + decimal(compacted_revision as int),
            Fault::FutureRevision { requested, current_revision } => "revision "@ + decimal(
                requested as int,
            ) + " is ahead of current revision "@ + decimal(current_revision as int),
            Fault::Database(m) => "database error: "@ + m,
        }
    }

    /// The HTTP status that answers the refusal.
    pub open spec fn status(self) -> u16 {
        match self {
            Fault::NotFound(_) => 404,
            Fault::Validation(_) => 400,
            Fault::FutureRevision { .. } => 400,
            Fault::Conflict(_) => 409,
            Fault::RevisionConflict { .. } => 409,
            Fault::Compacted { .. } => 410,
            Fault::Database(_) => 500,
        }
    }
}

impl StoreError {
    /// The text of the refusal.
    pub fn to_string(&self) -> (r: String)
        ensures
            r@ == self@.message(),
    {
        match self {
            StoreError::NotFound(id) => {
                let mut out: String = "task ".to_owned();
                out.append(uuid_text(*id).as_str());
                out.append(" was not found");
                out
            },
            StoreError::Validation(m) => "invalid request: ".to_owned().concat(m.as_str()),
            StoreError::Conflict(m) => "task state change conflict: ".to_owned().concat(m.as_str()),
            StoreError::RevisionConflict { task_id, expected_revision, current_revision } => {
                let mut out: String = "task ".to_owned();
                out.append(uuid_text(*task_id).as_str());
                out.append(" revision conflict: expected revision ");
                out.append(signed_text(*expected_revision).as_str());
                out.append(", current revision ");
                out.append(signed_text(*current_revision).as_str());
                out
            },
            StoreError::Compacted { requested, compacted_revision } => {
                let mut out: String = "revision ".to_owned();
                out.append(signed_text(*requested).as_str());
                out.append(" has been compacted at revision ");
                out.append(signed_text(*compacted_revision).as_str());
                out
            },
            StoreError::FutureRevision { requested, current_revision } => {
                let mut out: String = "revision ".to_owned();
                out.append(signed_text(*requested).as_str());
                out.append(" is ahead of current revision ");
                out.append(signed_text(*current_revision).as_str());
                out
            },
            StoreError::Database(m) => "database error: ".to_owned().concat(m.as_str()),
        }
    }

    /// The HTTP status that answers the refusal.
    pub fn status(&self) -> (r: u16)
        ensures
            r == self@.status(),
    {
        match self {
            StoreError::NotFound(_) => 404,
            StoreError::Validation(_) => 400,
            StoreError::FutureRevision { .. } => 400,
            StoreError::Conflict(_) => 409,
            StoreError::RevisionConflict { .. } => 409,
            StoreError::Compacted { .. } => 410,
            StoreError::Database(_) => 500,
        }
    }
}

} // verus!
