//! Validated compiled schedules, their handles, and update plans.
use vstd::prelude::*;

use core::any::TypeId;

use crate::operation::StageOperation;
use crate::schedule::builder::EventAccess;
use crate::schedule::condition::Condition;
use crate::schedule::error::ScheduleError;
use crate::schedule::owner::ScheduleOwner;
use crate::schedule::stage::{StageDescriptor, StageId, STARTUP};
use crate::schedule::system::{FlushMode, SystemId};
use crate::text::same_text;
use crate::time::{FixedAccumulator, FixedConfig};

verus! {

/// One stage of a compiled schedule and the order its systems run in.
pub struct CompiledStage {
    pub descriptor: StageDescriptor,
    pub system_order: Vec<usize>,
}

/// One system of a compiled schedule.
pub struct CompiledSystem<B> {
    pub name: String,
    pub stage_index: usize,
    pub body: B,
    pub enabled: bool,
    pub flush_mode: FlushMode,
    pub conditions: Vec<Condition>,
    pub in_set_index: Option<usize>,
    pub id: SystemId,
    pub event_access: EventAccess,
}

/// A validated schedule: stages in order with their run orders, systems, set conditions,
/// and the fixed-step configuration.
pub struct CompiledSchedule<B> {
    pub owner: ScheduleOwner,
    pub generation: u32,
    pub stages: Vec<CompiledStage>,
    pub systems: Vec<CompiledSystem<B>>,
    pub update_stage_order: Vec<usize>,
    pub render_stage_order: Vec<usize>,
    pub fixed_config: Option<FixedConfig>,
    pub fixed_accumulator: FixedAccumulator,
    pub startup_complete: bool,
    pub system_enabled: Vec<bool>,
    pub set_conditions: Vec<Condition>,
    pub required_resources: Vec<TypeId>,
}

impl<B> CompiledSchedule<B> {
    /// Stage indices run by `operation`, in schedule order.
    pub fn operation_stages(&self, operation: StageOperation) -> (r: &[usize])
        ensures
            r@ == match operation {
                StageOperation::Update => self.update_stage_order@,
                StageOperation::Render => self.render_stage_order@,
            },
    {
        match operation {
            StageOperation::Update => self.update_stage_order.as_slice(),
            StageOperation::Render => self.render_stage_order.as_slice(),
        }
    }

    /// Label of stage `stage_index`.
    pub fn stage_label(&self, stage_index: usize) -> (r: &str)
        requires
            stage_index < self.stages.len(),
        ensures
            r@ == self.stages@[stage_index as int].descriptor.label@,
    {
        self.stages[stage_index].descriptor.label.as_str()
    }

    /// Operation of stage `stage_index`.
    pub fn stage_operation(&self, stage_index: usize) -> (r: StageOperation)
        requires
            stage_index < self.stages.len(),
        ensures
            r == self.stages@[stage_index as int].descriptor.operation,
    {
        self.stages[stage_index].descriptor.operation
    }

    /// Flush mode of stage `stage_index`.
    pub fn stage_flush_mode(&self, stage_index: usize) -> (r: FlushMode)
        requires
            stage_index < self.stages.len(),
        ensures
            r == self.stages@[stage_index as int].descriptor.flush_mode,
    {
        self.stages[stage_index].descriptor.flush_mode
    }

    /// Label of system `system_index`.
    pub fn system_name(&self, system_index: usize) -> (r: &str)
        requires
            system_index < self.systems.len(),
        ensures
            r@ == self.systems@[system_index as int].name@,
    {
        self.systems[system_index].name.as_str()
    }

    /// `after` is this schedule with system `index` enabled or disabled as `enabled` says,
    /// and nothing else changed.
    pub open spec fn enabled_set(&self, after: CompiledSchedule<B>, index: int, enabled: bool) -> bool {
        &&& 0 <= index < self.systems@.len()
        &&& after.system_enabled@ == self.system_enabled@.update(index, enabled)
        &&& after.systems@ == self.systems@.update(index, CompiledSystem { enabled, ..self.systems@[index] })
        &&& after.owner == self.owner
        &&& after.generation == self.generation
        &&& after.stages@ == self.stages@
        &&& after.update_stage_order@ == self.update_stage_order@
        &&& after.render_stage_order@ == self.render_stage_order@
        &&& after.fixed_config == self.fixed_config
        &&& after.fixed_accumulator == self.fixed_accumulator
        &&& after.startup_complete == self.startup_complete
        &&& after.set_conditions@ == self.set_conditions@
        &&& after.required_resources@ == self.required_resources@
    }

    /// Enables or disables the system `id` names. The handle must come from this schedule
    /// (`OwnerMismatch`) and its generation (`StaleHandle`), and name an existing system
    /// (`StaleHandle`).
    pub fn set_system_enabled(&mut self, id: &SystemId, enabled: bool) -> (r: Result<(), ScheduleError>)
        requires
            old(self).system_enabled.len() == old(self).systems.len(),
        ensures
            final(self).system_enabled.len() == final(self).systems.len(),
            r is Ok ==> {
                &&& id.spec_generation() == old(self).generation
                &&& id.spec_index() < old(self).systems.len()
                &&& old(self).enabled_set(*final(self), id.spec_index() as int, enabled)
            },
            r matches Err(e) ==> *final(self) == *old(self) && (e == ScheduleError::OwnerMismatch || (e
                == ScheduleError::StaleHandle && (id.spec_generation() != old(self).generation || id.spec_index()
                >= old(self).systems.len()))),
            id.spec_generation() == old(self).generation && id.spec_index() >= old(self).systems.len() ==> r is Err,
    {
        match id.validate_owner(&self.owner, self.generation) {
            Ok(()) => {},
            Err(e) => {
                return Err(e);
            },
        }
        let index = id.index();
        if index >= self.system_enabled.len() {
            return Err(ScheduleError::StaleHandle);
        }
        self.system_enabled.set(index, enabled);
        let ghost before = old(self).systems@;
        let mut system = self.systems.remove(index);
        system.enabled = enabled;
        self.systems.insert(index, system);
        proof {
            assert(self.systems@ =~= before.update(index as int, CompiledSystem { enabled, ..before[index as int] }));
        }
        Ok(())
    }
}

/// Validated subset of Update stages to run, in schedule order of selection.
#[derive(Clone, Debug)]
pub struct UpdatePlan {
    stages: Vec<usize>,
}

impl UpdatePlan {
    /// Selected stage indices, in the order given.
    pub closed spec fn spec_stages(&self) -> Seq<usize> {
        self.stages@
    }

    /// Selected stage indices, in the order given.
    pub fn stages(&self) -> (r: &[usize])
        ensures
            r@ == self.spec_stages(),
    {
        self.stages.as_slice()
    }
}

/// The entries of `order` that `selected` holds, in the order of `order`.
pub open spec fn planned_stages(order: Seq<usize>, selected: Seq<usize>) -> Seq<usize>
    decreases order.len(),
{
    if order.len() == 0 {
        Seq::empty()
    } else {
        let rest = planned_stages(order.drop_last(), selected);
        if selected.contains(order.last()) {
            rest.push(order.last())
        } else {
            rest
        }
    }
}

/// The stage positions the handles name.
pub open spec fn stage_indices(stages: Seq<StageId>) -> Seq<u32> {
    stages.map_values(|s: StageId| s.spec_index())
}

/// The stage positions `indices` as plan entries.
pub open spec fn plan_stage_seq(indices: Seq<u32>) -> Seq<usize> {
    indices.map_values(|x: u32| x as usize)
}

/// Why handle `i` of a plan naming stage positions `indices` of `compiled` is refused, with
/// `owners[i]` telling whether it comes from this schedule: another schedule, a missing
/// stage, a stage that is not Update, Startup, or a stage named earlier.
pub open spec fn plan_entry_error(compiled: Seq<CompiledStage>, indices: Seq<u32>, owners: Seq<bool>, i: int) -> Option<
    ScheduleError,
> {
    let idx = indices[i];
    if !owners[i] {
        Some(ScheduleError::OwnerMismatch)
    } else if idx >= compiled.len() {
        Some(ScheduleError::StaleHandle)
    } else if compiled[idx as int].descriptor.operation != StageOperation::Update {
        Some(ScheduleError::NonUpdateStageInPlan)
    } else if compiled[idx as int].descriptor.label@ == STARTUP@ {
        Some(ScheduleError::StartupStageInPlan)
    } else if indices.take(i).contains(idx) {
        Some(ScheduleError::DuplicateStageInPlan)
    } else {
        None
    }
}

/// The refusal of the first of the first `n` handles that is refused, if any.
pub open spec fn first_plan_error(compiled: Seq<CompiledStage>, indices: Seq<u32>, owners: Seq<bool>, n: int) -> Option<
    ScheduleError,
>
    decreases n,
{
    if n <= 0 {
        None
    } else {
        match first_plan_error(compiled, indices, owners, n - 1) {
            Some(e) => Some(e),
            None => plan_entry_error(compiled, indices, owners, n - 1),
        }
    }
}

/// `r` is the plan of the handles naming `indices` of `compiled`, with `owners` the answers
/// of their owner comparisons: the first refusal, or every named stage in the order given.
pub open spec fn plan_outcome(
    r: Result<UpdatePlan, ScheduleError>,
    compiled: Seq<CompiledStage>,
    indices: Seq<u32>,
    owners: Seq<bool>,
) -> bool {
    match first_plan_error(compiled, indices, owners, indices.len() as int) {
        Some(e) => r == Err::<UpdatePlan, ScheduleError>(e),
        None => r matches Ok(plan) && plan.spec_stages() == plan_stage_seq(indices),
    }
}

/// Once a refusal is found among the first `n` handles, it stays the first refusal.
pub proof fn lemma_first_plan_error_stays(compiled: Seq<CompiledStage>, indices: Seq<u32>, owners: Seq<bool>, n: int, m: int)
    requires
        0 <= n <= m,
        first_plan_error(compiled, indices, owners, n) is Some,
    ensures
        first_plan_error(compiled, indices, owners, m) == first_plan_error(compiled, indices, owners, n),
    decreases m - n,
{
    if m > n {
        lemma_first_plan_error_stays(compiled, indices, owners, n, m - 1);
    }
}

/// A plan runs its stages in the schedule's order, whatever order they were named in: two
/// selections holding the same stages run the same stages in the same order.
pub proof fn law_plan_follows_compiled_order(order: Seq<usize>, a: Seq<usize>, b: Seq<usize>)
    requires
        forall|s: usize| a.contains(s) <==> b.contains(s),
    ensures
        planned_stages(order, a) == planned_stages(order, b),
    decreases order.len(),
{
    if order.len() > 0 {
        law_plan_follows_compiled_order(order.drop_last(), a, b);
        assert(a.contains(order.last()) == b.contains(order.last()));
    }
}

/// A plan runs exactly the stages it names that the schedule runs, and no other: a stage is
/// in the plan's order exactly when both the schedule's order and the selection hold it. The
/// plan's order is no longer than the schedule's, and increasing when the schedule's is.
pub proof fn law_plan_runs_only_named_stages(order: Seq<usize>, selected: Seq<usize>)
    ensures
        forall|x: usize| #[trigger] planned_stages(order, selected).contains(x) <==> (order.contains(x) && selected.contains(x)),
        planned_stages(order, selected).len() <= order.len(),
        (forall|i: int, j: int| 0 <= i < j < order.len() ==> order[i] < order[j]) ==> forall|i: int, j: int|
            0 <= i < j < planned_stages(order, selected).len() ==> planned_stages(order, selected)[i] < planned_stages(
                order,
                selected,
            )[j],
    decreases order.len(),
{
    if order.len() > 0 {
        let init = order.drop_last();
        law_plan_runs_only_named_stages(init, selected);
        let rest = planned_stages(init, selected);
        let out = planned_stages(order, selected);
        assert forall|x: usize| out.contains(x) <==> (order.contains(x) && selected.contains(x)) by {
            if order.contains(x) {
                let k = choose|k: int| 0 <= k < order.len() && order[k] == x;
                if k < order.len() - 1 {
                    assert(init[k] == x);
                }
            }
            if init.contains(x) {
                let k = choose|k: int| 0 <= k < init.len() && init[k] == x;
                assert(order[k] == x);
            }
            if selected.contains(order.last()) {
                assert(out == rest.push(order.last()));
                if out.contains(x) {
                    let k = choose|k: int| 0 <= k < out.len() && out[k] == x;
                    if k < rest.len() {
                        assert(rest[k] == x);
                    }
                }
                if rest.contains(x) {
                    let k = choose|k: int| 0 <= k < rest.len() && rest[k] == x;
                    assert(out[k] == x);
                }
                assert(out[rest.len() as int] == order.last());
            }
        }
        if forall|i: int, j: int| 0 <= i < j < order.len() ==> order[i] < order[j] {
            assert forall|i: int, j: int| 0 <= i < j < init.len() implies init[i] < init[j] by {
                assert(init[i] == order[i] && init[j] == order[j]);
            }
            if selected.contains(order.last()) {
                assert forall|i: int, j: int| 0 <= i < j < out.len() implies out[i] < out[j] by {
                    if j == rest.len() {
                        assert(rest.contains(rest[i]));
                        let k = choose|k: int| 0 <= k < init.len() && init[k] == rest[i];
                        assert(order[k] < order[order.len() - 1]);
                    } else {
                        assert(out[i] == rest[i] && out[j] == rest[j]);
                    }
                }
            }
        }
    }
}

/// Validated compiled schedule.
pub struct Schedule<B> {
    pub compiled: CompiledSchedule<B>,
}

impl<B> Schedule<B> {
    /// Handle of the system labelled `name`, if there is one: the first such system.
    pub fn system_id(&self, name: &str) -> (r: Option<SystemId>)
        ensures
            r is Some <==> exists|i: int| 0 <= i < self.compiled.systems@.len() && (#[trigger] self.compiled.systems@[i]).name@ == name@,
            r matches Some(id) ==> exists|i: int|
                0 <= i < self.compiled.systems@.len() && (#[trigger] self.compiled.systems@[i]).name@ == name@
                    && id.spec_index() == self.compiled.systems@[i].id.spec_index() && id.spec_generation()
                    == self.compiled.systems@[i].id.spec_generation() && forall|j: int|
                    0 <= j < i ==> (#[trigger] self.compiled.systems@[j]).name@ != name@,
    {
        let mut i: usize = 0;
        while i < self.compiled.systems.len()
            invariant
                i <= self.compiled.systems@.len(),
                forall|j: int| 0 <= j < i ==> (#[trigger] self.compiled.systems@[j]).name@ != name@,
            decreases self.compiled.systems@.len() - i,
        {
            if same_text(self.compiled.systems[i].name.as_str(), name) {
                return Some(self.compiled.systems[i].id.duplicate());
            }
            i = i + 1;
        }
        None
    }

    /// Handle of the first stage labelled `label`, if there is one within `u32` range.
    pub fn stage_id(&self, label: &str) -> (r: Option<StageId>)
        ensures
            r matches Some(id) ==> id.spec_index() < self.compiled.stages@.len() && self.compiled.stages@[id.spec_index() as int].descriptor.label@
                == label@ && forall|j: int| 0 <= j < id.spec_index() ==> (#[trigger] self.compiled.stages@[j]).descriptor.label@ != label@,
            r is None ==> forall|j: int| 0 <= j < self.compiled.stages@.len() && j <= u32::MAX ==> (#[trigger] self.compiled.stages@[j]).descriptor.label@
                != label@ || (exists|k: int| 0 <= k < j && self.compiled.stages@[k].descriptor.label@ == label@),
    {
        let mut i: usize = 0;
        while i < self.compiled.stages.len()
            invariant
                i <= self.compiled.stages@.len(),
                forall|j: int| 0 <= j < i ==> (#[trigger] self.compiled.stages@[j]).descriptor.label@ != label@,
            decreases self.compiled.stages@.len() - i,
        {
            if same_text(self.compiled.stages[i].descriptor.label.as_str(), label) {
                if i > u32::MAX as usize {
                    return None;
                }
                return Some(StageId::new(self.compiled.owner.clone(), i as u32));
            }
            i = i + 1;
        }
        None
    }

    /// Label of the stage `id` names. The handle must come from this schedule
    /// (`OwnerMismatch`) and name an existing stage (`StaleHandle`).
    pub fn stage_label(&self, id: &StageId) -> (r: Result<&str, ScheduleError>)
        ensures
            r matches Ok(l) ==> id.spec_index() < self.compiled.stages@.len() && l@ == self.compiled.stages@[id.spec_index() as int].descriptor.label@,
            r matches Err(e) ==> e == ScheduleError::OwnerMismatch || (e == ScheduleError::StaleHandle && id.spec_index()
                >= self.compiled.stages@.len()),
    {
        match id.validate_owner(&self.compiled.owner) {
            Ok(()) => {},
            Err(e) => {
                return Err(e);
            },
        }
        let index = id.index();
        if index < self.compiled.stages.len() {
            Ok(self.compiled.stages[index].descriptor.label.as_str())
        } else {
            Err(ScheduleError::StaleHandle)
        }
    }

    /// Enables or disables the system `id` names; see [`CompiledSchedule::set_system_enabled`].
    pub fn set_system_enabled(&mut self, id: &SystemId, enabled: bool) -> (r: Result<(), ScheduleError>)
        requires
            old(self).compiled.system_enabled.len() == old(self).compiled.systems.len(),
        ensures
            final(self).compiled.system_enabled.len() == final(self).compiled.systems.len(),
            r is Ok ==> {
                &&& id.spec_generation() == old(self).compiled.generation
                &&& id.spec_index() < old(self).compiled.systems.len()
                &&& old(self).compiled.enabled_set(final(self).compiled, id.spec_index() as int, enabled)
            },
            r matches Err(e) ==> final(self).compiled == old(self).compiled && (e == ScheduleError::OwnerMismatch || (e
                == ScheduleError::StaleHandle && (id.spec_generation() != old(self).compiled.generation
                || id.spec_index() >= old(self).compiled.systems.len()))),
            id.spec_generation() == old(self).compiled.generation && id.spec_index() >= old(self).compiled.systems.len()
                ==> r is Err,
    {
        self.compiled.set_system_enabled(id, enabled)
    }

    /// A plan that runs only the given Update stages, in the order given. Each handle must
    /// come from this schedule (`OwnerMismatch`) and name an existing stage (`StaleHandle`)
    /// that is an Update stage (`NonUpdateStageInPlan`) other than Startup
    /// (`StartupStageInPlan`), named once (`DuplicateStageInPlan`); the first handle that
    /// fails decides the error. Which schedule issued a handle is allocation identity, which
    /// is not modelled: the result is [`Schedule::plan_from_checked`]'s for the answers of
    /// the owner comparisons, whichever they were.
    pub fn update_plan(&self, stages: Vec<StageId>) -> (r: Result<UpdatePlan, ScheduleError>)
        ensures
            exists|owners: Seq<bool>|
                owners.len() == stages@.len() && #[trigger] plan_outcome(
                    r,
                    self.compiled.stages@,
                    stage_indices(stages@),
                    owners,
                ),
            r matches Ok(plan) ==> {
                &&& plan.spec_stages().len() == stages@.len()
                &&& plan.spec_stages().no_duplicates()
                &&& forall|i: int|
                    0 <= i < stages@.len() ==> {
                        let s = #[trigger] plan.spec_stages()[i];
                        &&& s == stages@[i].spec_index()
                        &&& s < self.compiled.stages@.len()
                        &&& self.compiled.stages@[s as int].descriptor.operation == StageOperation::Update
                        &&& self.compiled.stages@[s as int].descriptor.label@ != STARTUP@
                    }
            },
            r matches Err(e) ==> e == ScheduleError::OwnerMismatch || e == ScheduleError::StaleHandle
                || e == ScheduleError::NonUpdateStageInPlan || e == ScheduleError::StartupStageInPlan
                || e == ScheduleError::DuplicateStageInPlan,
    {
        let mut owners: Vec<bool> = Vec::new();
        let mut i: usize = 0;
        while i < stages.len()
            invariant
                i <= stages@.len(),
                owners@.len() == i,
            decreases stages@.len() - i,
        {
            owners.push(stages[i].same_owner(&self.compiled.owner));
            i = i + 1;
        }
        let r = self.plan_from_checked(&stages, &owners);
        proof {
            assert(plan_outcome(r, self.compiled.stages@, stage_indices(stages@), owners@));
        }
        r
    }

    /// The plan of `stages` when the owner comparison for `stages[i]` answered `owners[i]`:
    /// see [`plan_outcome`].
    pub fn plan_from_checked(&self, stages: &Vec<StageId>, owners: &Vec<bool>) -> (r: Result<UpdatePlan, ScheduleError>)
        requires
            owners@.len() == stages@.len(),
        ensures
            plan_outcome(r, self.compiled.stages@, stage_indices(stages@), owners@),
            r matches Ok(plan) ==> {
                &&& plan.spec_stages().len() == stages@.len()
                &&& plan.spec_stages().no_duplicates()
                &&& forall|i: int|
                    0 <= i < stages@.len() ==> {
                        let s = #[trigger] plan.spec_stages()[i];
                        &&& s == stages@[i].spec_index()
                        &&& s < self.compiled.stages@.len()
                        &&& self.compiled.stages@[s as int].descriptor.operation == StageOperation::Update
                        &&& self.compiled.stages@[s as int].descriptor.label@ != STARTUP@
                    }
            },
            r matches Err(e) ==> e == ScheduleError::OwnerMismatch || e == ScheduleError::StaleHandle
                || e == ScheduleError::NonUpdateStageInPlan || e == ScheduleError::StartupStageInPlan
                || e == ScheduleError::DuplicateStageInPlan,
    {
        let ghost compiled = self.compiled.stages@;
        let ghost indices = stage_indices(stages@);
        let mut selected: Vec<usize> = Vec::new();
        let mut i: usize = 0;
        while i < stages.len()
            invariant
                i <= stages@.len(),
                owners@.len() == stages@.len(),
                compiled == self.compiled.stages@,
                indices == stage_indices(stages@),
                first_plan_error(compiled, indices, owners@, i as int) is None,
                selected@.len() == i,
                selected@.no_duplicates(),
                forall|j: int|
                    0 <= j < i ==> {
                        let s = #[trigger] selected@[j];
                        &&& s == stages@[j].spec_index()
                        &&& s < self.compiled.stages@.len()
                        &&& self.compiled.stages@[s as int].descriptor.operation == StageOperation::Update
                        &&& self.compiled.stages@[s as int].descriptor.label@ != STARTUP@
                    },
            decreases stages@.len() - i,
        {
            let id = &stages[i];
            let index = id.index();
            proof {
                assert(indices[i as int] == stages@[i as int].spec_index());
            }
            if !owners[i] {
                proof {
                    assert(first_plan_error(compiled, indices, owners@, i + 1) == Some(ScheduleError::OwnerMismatch));
                    lemma_first_plan_error_stays(compiled, indices, owners@, i + 1, stages@.len() as int);
                }
                return Err(ScheduleError::OwnerMismatch);
            }
            if index >= self.compiled.stages.len() {
                proof {
                    assert(first_plan_error(compiled, indices, owners@, i + 1) == Some(ScheduleError::StaleHandle));
                    lemma_first_plan_error_stays(compiled, indices, owners@, i + 1, stages@.len() as int);
                }
                return Err(ScheduleError::StaleHandle);
            }
            let stage = &self.compiled.stages[index];
            if stage.descriptor.operation != StageOperation::Update {
                proof {
                    assert(first_plan_error(compiled, indices, owners@, i + 1) == Some(ScheduleError::NonUpdateStageInPlan));
                    lemma_first_plan_error_stays(compiled, indices, owners@, i + 1, stages@.len() as int);
                }
                return Err(ScheduleError::NonUpdateStageInPlan);
            }
            if same_text(stage.descriptor.label.as_str(), STARTUP) {
                proof {
                    assert(first_plan_error(compiled, indices, owners@, i + 1) == Some(ScheduleError::StartupStageInPlan));
                    lemma_first_plan_error_stays(compiled, indices, owners@, i + 1, stages@.len() as int);
                }
                return Err(ScheduleError::StartupStageInPlan);
            }
            let mut k: usize = 0;
            while k < selected.len()
                invariant
                    k <= selected@.len(),
                    forall|j: int| 0 <= j < k ==> selected@[j] != index,
                    selected@.len() == i,
                    i < stages@.len(),
                    index == stages@[i as int].spec_index(),
                    indices == stage_indices(stages@),
                    forall|j: int| 0 <= j < i ==> #[trigger] selected@[j] == stages@[j].spec_index(),
                    owners@.len() == stages@.len(),
                    owners@[i as int],
                    compiled == self.compiled.stages@,
                    first_plan_error(compiled, indices, owners@, i as int) is None,
                    index < compiled.len(),
                    compiled[index as int].descriptor.operation == StageOperation::Update,
                    compiled[index as int].descriptor.label@ != STARTUP@,
                decreases selected@.len() - k,
            {
                if selected[k] == index {
                    proof {
                        assert(selected@[k as int] == stages@[k as int].spec_index());
                        assert(indices.take(i as int)[k as int] == indices[i as int]);
                        assert(indices.take(i as int).contains(indices[i as int]));
                        assert(first_plan_error(compiled, indices, owners@, i + 1) == Some(
                            ScheduleError::DuplicateStageInPlan,
                        ));
                        lemma_first_plan_error_stays(compiled, indices, owners@, i + 1, stages@.len() as int);
                    }
                    return Err(ScheduleError::DuplicateStageInPlan);
                }
                k = k + 1;
            }
            proof {
                assert(!indices.take(i as int).contains(indices[i as int])) by {
                    if indices.take(i as int).contains(indices[i as int]) {
                        let j = choose|j: int| 0 <= j < i && indices.take(i as int)[j] == indices[i as int];
                        assert(selected@[j] == stages@[j].spec_index());
                    }
                }
                assert(first_plan_error(compiled, indices, owners@, i + 1) is None);
            }
            let ghost before = selected@;
            selected.push(index);
            proof {
                assert forall|a: int, b: int| 0 <= a < selected@.len() && 0 <= b < selected@.len() && a != b implies selected@[a]
                    != selected@[b] by {
                    if a < before.len() && b < before.len() {
                        assert(before[a] != before[b]);
                    }
                }
            }
            i = i + 1;
        }
        let plan = UpdatePlan { stages: selected };
        proof {
            assert(plan.spec_stages() =~= plan_stage_seq(indices));
        }
        Ok(plan)
    }

    /// Whether `plan` runs stage `stage_index`.
    pub fn plan_contains_stage(&self, plan: &UpdatePlan, stage_index: usize) -> (r: bool)
        ensures
            r == plan.spec_stages().contains(stage_index),
    {
        let mut i: usize = 0;
        while i < plan.stages.len()
            invariant
                i <= plan.stages@.len(),
                forall|j: int| 0 <= j < i ==> plan.stages@[j] != stage_index,
            decreases plan.stages@.len() - i,
        {
            if plan.stages[i] == stage_index {
                proof {
                    assert(plan.spec_stages()[i as int] == stage_index);
                }
                return true;
            }
            i = i + 1;
        }
        false
    }

    /// The Update stages `plan` runs, in the schedule's Update order.
    pub fn plan_stage_order(&self, plan: &UpdatePlan) -> (r: Vec<usize>)
        ensures
            r@ == planned_stages(self.compiled.update_stage_order@, plan.spec_stages()),
    {
        let order = &self.compiled.update_stage_order;
        let mut out: Vec<usize> = Vec::new();
        let mut i: usize = 0;
        while i < order.len()
            invariant
                i <= order@.len(),
                out@ == planned_stages(order@.take(i as int), plan.spec_stages()),
            decreases order@.len() - i,
        {
            proof {
                assert(order@.take(i + 1).drop_last() =~= order@.take(i as int));
            }
            if self.plan_contains_stage(plan, order[i]) {
                out.push(order[i]);
            }
            i = i + 1;
        }
        proof {
            assert(order@.take(order@.len() as int) =~= order@);
        }
        out
    }

    /// Number of registered system sets.
    pub fn set_count(&self) -> (r: usize)
        ensures
            r == self.compiled.set_conditions.len(),
    {
        self.compiled.set_conditions.len()
    }

    /// Update stage indices, in schedule order.
    pub fn update_stage_indices(&self) -> (r: &[usize])
        ensures
            r@ == self.compiled.update_stage_order@,
    {
        self.compiled.update_stage_order.as_slice()
    }

    /// Fixed-step configuration, if any.
    pub fn fixed_config(&self) -> (r: Option<&FixedConfig>)
        ensures
            r == match self.compiled.fixed_config {
                Some(c) => Some(&c),
                None => None::<&FixedConfig>,
            },
    {
        self.compiled.fixed_config.as_ref()
    }

    /// Position of the first stage labelled `label`, if any.
    pub fn stage_index(&self, label: &str) -> (r: Option<usize>)
        ensures
            match r {
                Some(i) => i < self.compiled.stages@.len() && self.compiled.stages@[i as int].descriptor.label@ == label@
                    && forall|j: int| 0 <= j < i ==> (#[trigger] self.compiled.stages@[j]).descriptor.label@ != label@,
                None => forall|j: int| 0 <= j < self.compiled.stages@.len() ==> (#[trigger] self.compiled.stages@[j]).descriptor.label@ != label@,
            },
    {
        let mut i: usize = 0;
        while i < self.compiled.stages.len()
            invariant
                i <= self.compiled.stages@.len(),
                forall|j: int| 0 <= j < i ==> (#[trigger] self.compiled.stages@[j]).descriptor.label@ != label@,
            decreases self.compiled.stages@.len() - i,
        {
            if same_text(self.compiled.stages[i].descriptor.label.as_str(), label) {
                return Some(i);
            }
            i = i + 1;
        }
        None
    }

    /// Flush mode of the first stage labelled `label`, if any.
    pub fn stage_flush_mode_for_test(&self, label: &str) -> (r: Option<FlushMode>)
        ensures
            match r {
                Some(m) => exists|i: int|
                    0 <= i < self.compiled.stages@.len() && (#[trigger] self.compiled.stages@[i]).descriptor.label@ == label@
                        && m == self.compiled.stages@[i].descriptor.flush_mode && forall|j: int|
                        0 <= j < i ==> (#[trigger] self.compiled.stages@[j]).descriptor.label@ != label@,
                None => forall|j: int| 0 <= j < self.compiled.stages@.len() ==> (#[trigger] self.compiled.stages@[j]).descriptor.label@ != label@,
            },
    {
        match self.stage_index(label) {
            Some(i) => Some(self.compiled.stage_flush_mode(i)),
            None => None,
        }
    }

    /// Label of stage `stage_index`.
    pub fn stage_label_at(&self, stage_index: usize) -> (r: &str)
        requires
            stage_index < self.compiled.stages.len(),
        ensures
            r@ == self.compiled.stages@[stage_index as int].descriptor.label@,
    {
        self.compiled.stage_label(stage_index)
    }
}

} // verus!
