//! The error taxonomy of the store and graph layers.

use vstd::prelude::*;

verus! {

/// Every way a store or graph operation can fail.
#[derive(Debug)]
pub enum Error {
    /// No issue with the given id exists.
    NotFound(String),
    /// An issue with the given id already exists.
    AlreadyExists(String),
    /// The given string is not a valid issue id.
    InvalidId(String),
    /// A dependency edge would close a cycle.
    CycleDetected(String),
    /// No store has been initialized here.
    NotInitialized,
    /// A store is already initialized at the given path.
    AlreadyInitialized(String),
    /// An underlying I/O failure, by message.
    Io(String),
    /// A serialization failure, by message.
    Json(String),
    /// The given string names no status.
    InvalidStatus(String),
    /// The given string names no issue type.
    InvalidType(String),
    /// A companion-service failure, by message.
    Service(String),
    /// Any other failure, by message.
    Other(String),
}

impl Error {
    /// A human-readable description of the error.
    pub fn message(&self) -> (r: String)
        ensures
            r@.len() > 0,
    {
        let m = match self {
            Error::NotFound(id) => String::from_str("Issue not found: ").concat(id.as_str()),
            Error::AlreadyExists(id) => String::from_str("Issue already exists: ").concat(
                id.as_str(),
            ),
            Error::InvalidId(id) => String::from_str("Invalid issue ID: ").concat(id.as_str()),
            Error::CycleDetected(id) => String::from_str("Dependency cycle detected: ").concat(
                id.as_str(),
            ),
            Error::NotInitialized => String::from_str(
                "Store not initialized. Run 'trx init' first.",
            ),
            Error::AlreadyInitialized(p) => String::from_str("Store already initialized at ")
                .concat(p.as_str()),
            Error::Io(m) => String::from_str("IO error: ").concat(m.as_str()),
            Error::Json(m) => String::from_str("JSON error: ").concat(m.as_str()),
            Error::InvalidStatus(s) => String::from_str("Invalid status: ").concat(s.as_str()),
            Error::InvalidType(s) => String::from_str("Invalid issue type: ").concat(s.as_str()),
            Error::Service(m) => String::from_str("Service error: ").concat(m.as_str()),
            Error::Other(m) => {
                let out = String::from_str("error: ").concat(m.as_str());
                out
            },
        };
        proof {
            reveal_strlit("Issue not found: ");
            reveal_strlit("Issue already exists: ");
            reveal_strlit("Invalid issue ID: ");
            reveal_strlit("Dependency cycle detected: ");
            reveal_strlit("Store not initialized. Run 'trx init' first.");
            reveal_strlit("Store already initialized at ");
            reveal_strlit("IO error: ");
            reveal_strlit("JSON error: ");
            reveal_strlit("Invalid status: ");
            reveal_strlit("Invalid issue type: ");
            reveal_strlit("Service error: ");
            reveal_strlit("error: ");
        }
        m
    }
}

} // verus!
