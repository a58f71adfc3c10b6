//! The closed, three-way classification of failure causes used by every
//! fallible operation in the crate.

use vstd::prelude::*;

verus! {

/// The three failure kinds.  No other failure channel exists: every fallible
/// operation either succeeds or returns exactly one of these.
///
/// * `APIError` — the caller violated a documented precondition (bad arity,
///   invalid scope depth, duplicate names, model unavailable).  State is
///   unaffected; the remedy is to fix the call.
/// * `UnsupportedError` — the operation is well-formed but the backend does
///   not implement it.
/// * `InternalError` — the backend itself failed; generally unrecoverable.
///
/// Each variant carries a diagnostic message.
#[derive(Debug, Clone, PartialEq, Eq)]
pub enum SMTError {
    APIError(String),
    UnsupportedError(String),
    InternalError(String),
}

impl SMTError {
    /// The diagnostic message attached to the error.
    pub fn message(&self) -> (r: &String)
        ensures
            *r == self.message_spec(),
    {
        match self {
            SMTError::APIError(m) => m,
            SMTError::UnsupportedError(m) => m,
            SMTError::InternalError(m) => m,
        }
    }

    pub open spec fn message_spec(&self) -> String {
        match self {
            SMTError::APIError(m) => *m,
            SMTError::UnsupportedError(m) => *m,
            SMTError::InternalError(m) => *m,
        }
    }
}

/// Convenience constructor for an `APIError` with the given message.
pub fn api_error(msg: &str) -> (r: SMTError)
    ensures
        r is APIError,
{
    SMTError::APIError(msg.to_owned())
}

/// Convenience constructor for an `UnsupportedError` with the given message.
pub fn unsupported_error(msg: &str) -> (r: SMTError)
    ensures
        r is UnsupportedError,
{
    SMTError::UnsupportedError(msg.to_owned())
}

/// Convenience constructor for an `InternalError` with the given message.
pub fn internal_error(msg: &str) -> (r: SMTError)
    ensures
        r is InternalError,
{
    SMTError::InternalError(msg.to_owned())
}

} // verus!
