use vstd::prelude::*;

verus! {

/// The failures this storage layer reports to its callers.
///
/// A missing row on a point lookup is not an error: lookups return an absent
/// result instead.  Errors are reserved for re-initialization of the path
/// registry and for failures surfaced by the database engine.
#[derive(Debug)]
pub enum StoreError {
    /// The base path was already set; it is written exactly once.
    AlreadyInitialized,
    /// The database engine reported a failure: the file could not be opened,
    /// or a statement could not be executed.
    Database(rusqlite::Error),
}

impl StoreError {
    /// Whether this error is the rejection of a second initialization.
    pub fn is_already_initialized(&self) -> (r: bool)
        ensures
            r == (self is AlreadyInitialized),
    {
        match self {
            StoreError::AlreadyInitialized => true,
            StoreError::Database(_) => false,
        }
    }
}

} // verus!
