//! Gating and error mapping for deferred structural changes made during traversal.
use vstd::prelude::*;

use crate::entity::{entity_debug_text, AllocatorError, EntityId};
use crate::text::cat2;
use crate::operation::StageOperation;
use crate::query::error::QueryError;
use crate::world::RunGuard;

verus! {

/// Whether traversal callbacks may queue structural commands under `guard`: only while an
/// Update operation runs.
pub fn command_access(guard: RunGuard) -> (r: Result<(), QueryError>)
    ensures
        guard == RunGuard::Running(StageOperation::Update) ==> r is Ok,
        guard == RunGuard::Running(StageOperation::Render) ==> (r matches Err(QueryError::BorrowConflict { detail })
            && detail@ == "structural commands are unavailable during Render"@),
        guard == RunGuard::Idle ==> (r matches Err(QueryError::BorrowConflict { detail })
            && detail@ == "structural commands require an active Update operation context"@),
{
    match guard {
        RunGuard::Running(StageOperation::Update) => Ok(()),
        RunGuard::Running(StageOperation::Render) => Err(
            QueryError::BorrowConflict { detail: "structural commands are unavailable during Render".to_owned() },
        ),
        RunGuard::Idle => Err(
            QueryError::BorrowConflict {
                detail: "structural commands require an active Update operation context".to_owned(),
            },
        ),
    }
}

/// Detail text for an allocator rejection.
pub open spec fn allocator_detail(error: AllocatorError) -> Seq<char> {
    match error {
        AllocatorError::GenerationOverflow => "allocator generation overflow"@,
        AllocatorError::SlotRetired => "allocator slot retired"@,
        _ => "allocator rejected entity"@,
    }
}

/// An allocator rejection as a rejected command.
pub fn map_allocator_error_query(error: AllocatorError) -> (r: QueryError)
    ensures
        r matches QueryError::CommandRejected { detail } && detail@ == allocator_detail(error),
{
    let detail = match error {
        AllocatorError::GenerationOverflow => "allocator generation overflow".to_owned(),
        AllocatorError::SlotRetired => "allocator slot retired".to_owned(),
        AllocatorError::StaleEntity => "allocator rejected entity".to_owned(),
        AllocatorError::DoubleFree => "allocator rejected entity".to_owned(),
        AllocatorError::NotLive => "allocator rejected entity".to_owned(),
    };
    QueryError::CommandRejected { detail }
}

/// Whether a traversal command may target `entity`: it must be alive or reserved by an
/// earlier command (`alive` and `reserved` are the allocator's answers); otherwise the
/// command is rejected as stale.
pub fn ensure_target(entity: EntityId, alive: bool, reserved: bool) -> (r: Result<(), QueryError>)
    ensures
        alive || reserved ==> r is Ok,
        !(alive || reserved) ==> (r matches Err(QueryError::CommandRejected { detail }) && detail@ == "stale command target "@
            + entity_debug_text(entity)),
{
    if alive || reserved {
        Ok(())
    } else {
        let text = entity.debug_text();
        Err(QueryError::CommandRejected { detail: cat2("stale command target ", text.as_str()) })
    }
}

} // verus!
