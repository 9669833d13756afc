//! The error taxonomy of the persistence core.

use vstd::prelude::*;

verus! {

/// Everything a repository or service operation can fail with. Each
/// operation's contract says exactly which variants it returns, and when.
#[derive(Clone, Copy, PartialEq, Eq, Structural, Debug)]
pub enum DynamoRepositoryError {
    /// A conditional create found the primary key already occupied.
    ConflictError,
    /// A `get` found no item at the key.
    NotFoundError,
    /// A record could not be mapped into stored attributes.
    SerializationError,
    /// A stored item could not be mapped back into a record.
    DeserializationError,
    /// The store could not be reached, or throttled the request.
    TransportError,
}

impl DynamoRepositoryError {
    /// A short description of the error.
    pub fn describe(&self) -> (r: &'static str)
        ensures
            r@ == self.spec_describe(),
    {
        match self {
            DynamoRepositoryError::ConflictError => "an item already occupies this primary key",
            DynamoRepositoryError::NotFoundError => "the item was not found",
            DynamoRepositoryError::SerializationError => "the record could not be serialized",
            DynamoRepositoryError::DeserializationError => {
                "the stored item could not be deserialized"
            },
            DynamoRepositoryError::TransportError => "the store could not be reached",
        }
    }

    /// The description text of each variant.
    pub open spec fn spec_describe(&self) -> Seq<char> {
        match self {
            DynamoRepositoryError::ConflictError => "an item already occupies this primary key"@,
            DynamoRepositoryError::NotFoundError => "the item was not found"@,
            DynamoRepositoryError::SerializationError => "the record could not be serialized"@,
            DynamoRepositoryError::DeserializationError => {
                "the stored item could not be deserialized"@
            },
            DynamoRepositoryError::TransportError => "the store could not be reached"@,
        }
    }
}

/// What a composed service operation can fail with.
#[derive(Clone, Copy, PartialEq, Eq, Structural, Debug)]
pub enum NotesServiceError {
    /// The underlying store operation failed.
    Repository(DynamoRepositoryError),
    /// The base record was persisted, but its enrichment was not: the
    /// record remains valid and queryable in its un-enriched form, and
    /// the caller may re-trigger enrichment later.
    PartialEnrichmentError,
}

} // verus!
