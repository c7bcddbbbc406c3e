//! Error taxonomy of the library: opening failures, absent keys, engine
//! read/write failures, and source read failures during a migration.

use vstd::prelude::*;

verus! {

/// An error surfaced by the key-value store façade.
#[derive(Debug)]
pub enum StoreError {
    /// A point read targeted a key that is absent from the store.
    NotFound,
    /// The store could not be opened at the given path; carries the engine's
    /// message.
    Open(String),
    /// An engine read or write failed; carries the engine's message.
    Io(String),
}

/// An error that aborts a migration run.
#[derive(Debug)]
pub enum MigrationError {
    /// The source yielded an unreadable record.
    SourceRead,
    /// A write to the destination store failed.
    Store(StoreError),
}

impl StoreError {
    /// True exactly on the absent-key outcome, so that callers can tell a
    /// normal miss from a fault.
    pub fn is_not_found(&self) -> (r: bool)
        ensures
            r == (self is NotFound),
    {
        match self {
            StoreError::NotFound => true,
            _ => false,
        }
    }
}

} // verus!
