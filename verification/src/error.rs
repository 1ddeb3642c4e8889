//! The errors of the tool, the exit code each maps to and the message it shows.

use vstd::prelude::*;

verus! {

#[verifier::external_type_specification]
#[verifier::external_body]
pub struct ExIoError(std::io::Error);

#[verifier::external_type_specification]
#[verifier::external_body]
pub struct ExJsonError(serde_json::Error);

/// Everything that can stop a command.
#[derive(Debug)]
pub enum ShipflowError {
    /// No task matched the query.
    TaskNotFound(String),
    /// More than one task matched; `matches` lists them, one per line.
    AmbiguousMatch { query: String, matches: String },
    /// The task file could not be used.
    Storage { path: String, message: String },
    /// git failed in a way the command cannot continue from.
    Git(String),
    /// A commit named by the user does not exist or could not be read.
    InvalidCommit(String),
    /// Reading or writing a file or a terminal failed.
    Io(std::io::Error),
    /// The task file is not valid JSON for the schema.
    Serde(serde_json::Error),
}

pub type Result<T> = std::result::Result<T, ShipflowError>;

/// The process exit code for an error: 1 for problems with the request, 3 for
/// problems with storage.
pub open spec fn exit_code_of(e: ShipflowError) -> i32 {
    match e {
        ShipflowError::TaskNotFound(_) => 1,
        ShipflowError::AmbiguousMatch { .. } => 1,
        ShipflowError::InvalidCommit(_) => 1,
        ShipflowError::Storage { .. } => 3,
        ShipflowError::Io(_) => 3,
        ShipflowError::Serde(_) => 3,
        ShipflowError::Git(_) => 1,
    }
}

impl ShipflowError {
    pub fn exit_code(&self) -> (r: i32)
        ensures
            r == exit_code_of(*self),
    {
        match self {
            ShipflowError::TaskNotFound(_) | ShipflowError::AmbiguousMatch { .. }
            | ShipflowError::InvalidCommit(_) => 1,
            ShipflowError::Storage { .. } | ShipflowError::Io(_) | ShipflowError::Serde(_) => 3,
            ShipflowError::Git(_) => 1,
        }
    }

    /// The text shown to the user for the error.
    pub fn message(&self) -> (r: String)
        ensures
            self matches ShipflowError::TaskNotFound(q) ==> r@ == "task not found: "@ + q@,
            self matches ShipflowError::AmbiguousMatch { query, matches } ==> r@
                == "ambiguous match — multiple tasks match '"@ + query@ + "':\n"@ + matches@,
            self matches ShipflowError::Storage { path, message } ==> r@ == "storage error at "@
                + path@ + ": "@ + message@,
            self matches ShipflowError::Git(m) ==> r@ == "git error: "@ + m@,
            self matches ShipflowError::InvalidCommit(m) ==> r@ == "invalid commit: "@ + m@,
            *self is Io ==> vstd::string::to_string_from_display_ensures(&self->Io_0, r),
            *self is Serde ==> vstd::string::to_string_from_display_ensures(&self->Serde_0, r),
    {
        match self {
            ShipflowError::TaskNotFound(q) => {
                let mut s = String::from_str("task not found: ");
                s.append(q.as_str());
                s
            },
            ShipflowError::AmbiguousMatch { query, matches } => {
                let mut s = String::from_str("ambiguous match — multiple tasks match '");
                s.append(query.as_str());
                s.append("':\n");
                s.append(matches.as_str());
                s
            },
            ShipflowError::Storage { path, message } => {
                let mut s = String::from_str("storage error at ");
                s.append(path.as_str());
                s.append(": ");
                s.append(message.as_str());
                s
            },
            ShipflowError::Git(m) => {
                let mut s = String::from_str("git error: ");
                s.append(m.as_str());
                s
            },
            ShipflowError::InvalidCommit(m) => {
                let mut s = String::from_str("invalid commit: ");
                s.append(m.as_str());
                s
            },
            ShipflowError::Io(e) => e.to_string(),
            ShipflowError::Serde(e) => e.to_string(),
        }
    }
}

} // verus!
