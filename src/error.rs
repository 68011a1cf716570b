//! The errors of the record store and of the query surface.
use vstd::prelude::*;

verus! {

/// What a store or an index can fail with.
#[derive(Debug, Clone, Copy, PartialEq, Eq, Structural)]
pub enum StorageError {
    /// The data handed in cannot make a well-formed index or store.
    CreationImpossible,
    /// A stored value could not be decoded.
    AnotherError,
    /// The medium under the store could not be read or written.
    Io,
}

pub type StorageResult<T> = Result<T, StorageError>;

/// What a query can fail with.
#[derive(Debug, Clone, Copy, PartialEq, Eq, Structural)]
pub enum EntryDomainError {
    /// The key is absent from its index, or no record stands at a code.
    NotFoundError,
    /// A record chosen for an aggregate lacks one of the averaged values.
    MissingValueError,
    /// The store failed underneath.
    Storage { source: StorageError },
}

pub type EntryDomainResult<T> = Result<T, EntryDomainError>;

impl From<StorageError> for EntryDomainError {
    fn from(source: StorageError) -> (r: EntryDomainError)
        ensures
            r == (EntryDomainError::Storage { source }),
    {
        EntryDomainError::Storage { source }
    }
}

impl vstd::std_specs::convert::FromSpecImpl<StorageError> for EntryDomainError {
    open spec fn obeys_from_spec() -> bool {
        true
    }

    open spec fn from_spec(source: StorageError) -> EntryDomainError {
        EntryDomainError::Storage { source }
    }
}

} // verus!
