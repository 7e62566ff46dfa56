//! The crate's error type.
//!
//! Failures from the surrounding I/O (file reads, process spawns) arrive
//! here as plain message strings; the variants mirror what each layer of
//! the tool can report.

use vstd::prelude::*;

verus! {

/// Everything that can go wrong while loading configuration or running a
/// command.
#[derive(Debug, Clone, PartialEq, Eq)]
pub enum MmemoError {
    /// A configuration value could not be understood.
    Parse { message: String },
    /// A file operation failed; the message describes the underlying error.
    Io { message: String },
    /// The configuration as a whole is unusable.
    Config { message: String },
    /// A memo search came up empty.
    MemoNotFound { query: String },
}

/// The usual result type of the crate.
pub type MmemoResult<T> = Result<T, MmemoError>;

impl MmemoError {
    /// The display text of the error: a variant-specific prefix followed by
    /// the carried message.
    pub fn message(&self) -> (s: String)
        ensures
            match self {
                MmemoError::Parse { message } => s@ == "Parse error: "@ + message@,
                MmemoError::Io { message } => s@ == "File operation failed: "@ + message@,
                MmemoError::Config { message } => s@ == "Configuration error: "@ + message@,
                MmemoError::MemoNotFound { query } => s@ == "Memo search not found: "@ + query@,
            },
    {
        match self {
            MmemoError::Parse { message } => {
                let mut s = "Parse error: ".to_owned();
                s.append(message.as_str());
                s
            },
            MmemoError::Io { message } => {
                let mut s = "File operation failed: ".to_owned();
                s.append(message.as_str());
                s
            },
            MmemoError::Config { message } => {
                let mut s = "Configuration error: ".to_owned();
                s.append(message.as_str());
                s
            },
            MmemoError::MemoNotFound { query } => {
                let mut s = "Memo search not found: ".to_owned();
                s.append(query.as_str());
                s
            },
        }
    }
}

} // verus!
