//! Query configuration, ownership, borrow, and cache diagnostics.
use vstd::prelude::*;

use crate::entity::{entity_debug_text, EntityId};
use crate::text::{cat2, cat3};

verus! {

/// Failure while resolving, traversing, caching, or mutating through a query.
#[non_exhaustive]
#[derive(Clone, Debug, Eq, PartialEq)]
pub enum QueryError {
    /// Query referenced a component type that is not registered in the world schema.
    UnregisteredComponent { name: String },
    /// Query traversal expected a different storage kind for the named component.
    WrongStorageKind { name: String },
    /// Query spec combined incompatible structural or temporal filters.
    ConflictingFilters { detail: String },
    /// Mutable traversal requested the same component type more than once.
    DuplicateMutableComponent { name: String },
    /// Query handle or cursor belongs to a different world owner.
    WrongOwner,
    /// Membership or result cache handle is stale for its slot and generation.
    StaleCache,
    /// Cursor, cache, event, or plan does not match the active query configuration.
    WrongQuery { detail: String },
    /// Result-cache policy cannot serve added/changed moving windows.
    MovingChangeWindow,
    /// Prepared-query materialization policy is incompatible with the resolved plan.
    UnsupportedCachePolicy { detail: String },
    /// Exact-id order conflicts with a result cache that reorders matches.
    ExactIdOrderConflict,
    /// Exact-id list contains the same entity more than once.
    DuplicateExactId { entity: EntityId },
    /// Exact-id policy requires every listed entity to be available.
    MissingExactId { entity: EntityId },
    /// Query traversal cannot borrow world state for the requested operation.
    BorrowConflict { detail: String },
    /// Deferred command or bundle write was rejected before enqueue.
    CommandRejected { detail: String },
    /// Cache handle owner token does not match the active world.
    OwnerMismatch,
    /// Mutable traversal stopped early because a callback returned an error.
    TraversalAborted { entity: EntityId, detail: String },
}

/// Human-readable description of a query failure.
pub open spec fn query_error_message(e: QueryError) -> Seq<char> {
    match e {
        QueryError::UnregisteredComponent { name } => "unregistered component '"@ + name@ + "'"@,
        QueryError::WrongStorageKind { name } => "wrong storage kind for '"@ + name@ + "'"@,
        QueryError::ConflictingFilters { detail } => "conflicting filters: "@ + detail@,
        QueryError::DuplicateMutableComponent { name } => "duplicate mutable component '"@ + name@ + "'"@,
        QueryError::WrongOwner => "query handle belongs to another world"@,
        QueryError::StaleCache => "stale query cache handle"@,
        QueryError::WrongQuery { detail } => "wrong query cursor: "@ + detail@,
        QueryError::MovingChangeWindow => "added/changed filters require a traversal or membership policy, not Result"@,
        QueryError::UnsupportedCachePolicy { detail } => "unsupported cache policy: "@ + detail@,
        QueryError::ExactIdOrderConflict => "exact-id order conflicts with result cache"@,
        QueryError::DuplicateExactId { entity } => "exact-id query contains duplicate entity "@ + entity_debug_text(
            entity,
        ),
        QueryError::MissingExactId { entity } => "exact-id query missing unavailable entity "@ + entity_debug_text(
            entity,
        ),
        QueryError::BorrowConflict { detail } => "query borrow conflict: "@ + detail@,
        QueryError::CommandRejected { detail } => "query command rejected: "@ + detail@,
        QueryError::OwnerMismatch => "query handle owner mismatch"@,
        QueryError::TraversalAborted { entity, detail } => "query traversal aborted at "@ + entity_debug_text(entity)
            + ": "@ + detail@,
    }
}

impl QueryError {
    /// Human-readable description of the failure.
    pub fn to_string(&self) -> (r: String)
        ensures
            r@ == query_error_message(*self),
    {
        match self {
            QueryError::UnregisteredComponent { name } => cat3("unregistered component '", name.as_str(), "'"),
            QueryError::WrongStorageKind { name } => cat3("wrong storage kind for '", name.as_str(), "'"),
            QueryError::ConflictingFilters { detail } => cat2("conflicting filters: ", detail.as_str()),
            QueryError::DuplicateMutableComponent { name } => cat3("duplicate mutable component '", name.as_str(), "'"),
            QueryError::WrongOwner => "query handle belongs to another world".to_owned(),
            QueryError::StaleCache => "stale query cache handle".to_owned(),
            QueryError::WrongQuery { detail } => cat2("wrong query cursor: ", detail.as_str()),
            QueryError::MovingChangeWindow => "added/changed filters require a traversal or membership policy, not Result".to_owned(),
            QueryError::UnsupportedCachePolicy { detail } => cat2("unsupported cache policy: ", detail.as_str()),
            QueryError::ExactIdOrderConflict => "exact-id order conflicts with result cache".to_owned(),
            QueryError::DuplicateExactId { entity } => {
                let text = entity.debug_text();
                cat2("exact-id query contains duplicate entity ", text.as_str())
            },
            QueryError::MissingExactId { entity } => {
                let text = entity.debug_text();
                cat2("exact-id query missing unavailable entity ", text.as_str())
            },
            QueryError::BorrowConflict { detail } => cat2("query borrow conflict: ", detail.as_str()),
            QueryError::CommandRejected { detail } => cat2("query command rejected: ", detail.as_str()),
            QueryError::OwnerMismatch => "query handle owner mismatch".to_owned(),
            QueryError::TraversalAborted { entity, detail } => {
                let text = entity.debug_text();
                let head = cat3("query traversal aborted at ", text.as_str(), ": ");
                cat2(head.as_str(), detail.as_str())
            },
        }
    }
}

} // verus!
