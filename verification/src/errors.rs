//! The errors the index operations surface.

use vstd::prelude::*;

verus! {

/// Why an index operation failed. `StoreUnavailable` and `CorruptIndex`
/// arise only with a remote store behind the index primitives (the store
/// cannot be reached, or a stored record does not deserialize); the
/// in-memory tables never produce them. `NotFound` reports a lifecycle
/// operation on a document that is not indexed.
#[derive(Debug, Clone, Copy, PartialEq, Eq)]
pub enum SearchError {
    StoreUnavailable,
    CorruptIndex,
    NotFound,
}

impl SearchError {
    /// A short description of the error.
    pub fn describe(&self) -> (r: &'static str)
        ensures
            self is NotFound ==> r@ == "token frequency not found"@,
            self is StoreUnavailable ==> r@ == "index store unavailable"@,
            self is CorruptIndex ==> r@ == "stored record failed to decode"@,
    {
        match self {
            SearchError::StoreUnavailable => "index store unavailable",
            SearchError::CorruptIndex => "stored record failed to decode",
            SearchError::NotFound => "token frequency not found",
        }
    }
}

/// A transport-level error payload: a status code, its reason, and an
/// optional detail message.
#[derive(Debug)]
pub struct ErrorMessage {
    pub code: u16,
    pub error: String,
    pub message: Option<String>,
}

} // verus!
