//! The storage capability: an injected lookup from a typed credential request
//! to an optional resolved identity.

use vstd::prelude::*;

verus! {

/// A failure of the lookup backend itself (unreachable, timed out): it
/// propagates as a request-processing failure, never as an authentication
/// verdict.
#[derive(Debug, PartialEq, Eq)]
pub struct StorageError {
    pub message: String,
}

/// A storage provider. Implementors pick a concrete `Request` type,
/// representing the credential sent by a corresponding scheme.
///
/// `Ok(None)` means the credentials are well-formed but not valid (wrong
/// password, unknown token) and is never a hard error; `Err` means the lookup
/// mechanism itself failed. Implementations must compare secrets with a
/// constant-time-safe method.
pub trait Storage<User, Request> {
    /// Resolve a credential request to an identity, if the backend knows one.
    /// The default implementation recognizes no credential and never errs.
    fn get_user(&self, _request: Request) -> (r: Result<Option<User>, StorageError>)
        default_ensures
            r == Ok::<Option<User>, StorageError>(None),
    {
        Ok(None)
    }
}

} // verus!
