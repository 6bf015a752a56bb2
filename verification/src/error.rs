//! The error kinds a run can end with.

use vstd::prelude::*;

verus! {

/// Why an invocation failed.
///
/// Every failure is fatal: there are no retries, and a failure on one source
/// aborts the remaining batch.
#[derive(Debug, Clone, PartialEq, Eq)]
pub enum EveError {
    /// The default or specified environment file was missing or unreadable.
    EnvironmentLoad { path: String },
    /// A directory path was given without the recursive flag.
    InvalidArgument { path: String },
    /// A placeholder referenced a name absent from the environment store.
    UnresolvedVariable { name: String },
    /// A read or write failed on a source or backup path.
    Io { path: String },
}

impl EveError {
    /// A human-readable description, naming the failing path or variable.
    pub fn message(&self) -> (r: String)
        ensures
            self matches EveError::EnvironmentLoad { path }
                ==> r@ == "cannot load environment file: "@ + path@,
            self matches EveError::InvalidArgument { path }
                ==> r@ == "directory provided without the recursive flag: "@ + path@,
            self matches EveError::UnresolvedVariable { name }
                ==> r@ == "unresolved variable: "@ + name@,
            self matches EveError::Io { path } ==> r@ == "cannot read or write: "@ + path@,
    {
        match self {
            EveError::EnvironmentLoad { path } => {
                let mut r = String::from_str("cannot load environment file: ");
                r.append(path.as_str());
                r
            },
            EveError::InvalidArgument { path } => {
                let mut r = String::from_str("directory provided without the recursive flag: ");
                r.append(path.as_str());
                r
            },
            EveError::UnresolvedVariable { name } => {
                let mut r = String::from_str("unresolved variable: ");
                r.append(name.as_str());
                r
            },
            EveError::Io { path } => {
                let mut r = String::from_str("cannot read or write: ");
                r.append(path.as_str());
                r
            },
        }
    }
}

} // verus!
