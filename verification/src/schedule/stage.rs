//! Built-in stage labels and compiled stage handles.
use vstd::prelude::*;

use crate::operation::StageOperation;
use crate::schedule::error::ScheduleError;
use crate::schedule::owner::ScheduleOwner;
use crate::schedule::system::FlushMode;

verus! {

/// Built-in stage label for one-shot initialization systems.
pub const STARTUP: &'static str = "Startup";
/// Built-in stage label for fixed-timestep simulation systems.
pub const FIXED_UPDATE: &'static str = "FixedUpdate";
/// Built-in stage label for variable-timestep simulation systems.
pub const UPDATE: &'static str = "Update";
/// Built-in stage label for presentation systems.
pub const RENDER: &'static str = "Render";

/// Opaque compiled stage handle.
#[derive(Clone)]
pub struct StageId {
    owner: ScheduleOwner,
    index: u32,
}

impl StageId {
    /// Position of the stage in its schedule.
    pub closed spec fn spec_index(&self) -> u32 {
        self.index
    }

    /// Handle for stage `index` of the schedule `owner`.
    pub fn new(owner: ScheduleOwner, index: u32) -> (r: StageId)
        ensures
            r.spec_index() == index,
    {
        StageId { owner, index }
    }

    /// Position of the stage in its schedule.
    pub fn index(&self) -> (r: usize)
        ensures
            r == self.spec_index(),
    {
        self.index as usize
    }

    /// Whether the handle was issued by the schedule `owner`. Identity is the allocation
    /// address, so nothing is stated about the answer.
    pub fn same_owner(&self, owner: &ScheduleOwner) -> (r: bool) {
        self.owner.same(owner)
    }

    /// `Ok` when this handle was issued by `owner`, else `OwnerMismatch`. Which owner issued a
    /// handle is allocation identity, which is not modelled: the result is
    /// [`check_stage_owner`] for the answer of the owner comparison, whichever it was.
    pub fn validate_owner(&self, owner: &ScheduleOwner) -> (r: Result<(), ScheduleError>)
        ensures
            exists|owner_matches: bool| r == #[trigger] stage_owner_result(owner_matches),
            r is Err ==> r == Err::<(), ScheduleError>(ScheduleError::OwnerMismatch),
    {
        let owner_matches = self.owner.same(owner);
        let r = check_stage_owner(owner_matches);
        proof {
            assert(r == stage_owner_result(owner_matches));
        }
        r
    }
}

/// What checking a stage handle gives when the owner comparison answered `owner_matches`.
pub open spec fn stage_owner_result(owner_matches: bool) -> Result<(), ScheduleError> {
    if owner_matches {
        Ok(())
    } else {
        Err(ScheduleError::OwnerMismatch)
    }
}

/// Checks a stage handle, given whether its owner is the schedule it is used with.
pub fn check_stage_owner(owner_matches: bool) -> (r: Result<(), ScheduleError>)
    ensures
        r == stage_owner_result(owner_matches),
{
    if owner_matches {
        Ok(())
    } else {
        Err(ScheduleError::OwnerMismatch)
    }
}

/// Authoring-time description of one stage.
#[derive(Clone, Debug, Eq, PartialEq)]
pub struct StageDescriptor {
    pub label: String,
    pub operation: StageOperation,
    pub flush_mode: FlushMode,
}

} // verus!
