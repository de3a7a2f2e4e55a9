//! Stage passes: which system runs next, when deferred commands are flushed, and how a
//! fault is reported. The caller performs the world work each action asks for and reports
//! back; every decision is made here.
use vstd::prelude::*;

use core::any::TypeId;

use crate::operation::StageOperation;
use crate::resource::store::ResourceStore;
use crate::schedule::compiled::CompiledSchedule;
use crate::schedule::condition::{added_of, advanced, changed_of, transition_of, Condition, CursorKind, ResourceValue};
use crate::schedule::context::RunContext;
use crate::schedule::stage::STARTUP;
use crate::schedule::system::FlushMode;
use crate::text::same_text;
use crate::time::ChangeTick;

verus! {

/// Where a stage pass stopped: the stage, the system (or `<stage>` for the end-of-stage
/// flush), and the detail of the fault.
#[derive(Clone, Debug, Eq, PartialEq)]
pub struct RunOutcome {
    pub fault_stage: Option<String>,
    pub fault_system: Option<String>,
    pub fault_detail: Option<String>,
}

/// Cached gate answer of set `k`, if any.
pub open spec fn gate_at(gates: Seq<Option<bool>>, k: usize) -> Option<bool> {
    if k < gates.len() {
        gates[k as int]
    } else {
        None
    }
}

/// `gates` with set `k`'s answer recorded as `v`, grown with empty slots to reach `k`.
pub open spec fn gates_with(gates: Seq<Option<bool>>, k: usize, v: bool) -> Seq<Option<bool>> {
    Seq::new(
        (if k < gates.len() {
            gates.len() as int
        } else {
            k + 1
        }) as nat,
        |i: int|
            if i == k {
                Some(v)
            } else if i < gates.len() {
                gates[i]
            } else {
                None
            },
    )
}

/// Every condition of `conds` holds for system `i`.
pub open spec fn conditions_hold<V: ResourceValue>(conds: Seq<Condition>, store: ResourceStore<V>, i: usize, context: RunContext) -> bool {
    forall|k: int| 0 <= k < conds.len() ==> #[trigger] conds[k].holds_for_system(store, i, context)
}

/// Whether set `k`'s condition holds now; a set the schedule has no condition for is open.
pub open spec fn fresh_gate<B, V: ResourceValue>(c: CompiledSchedule<B>, k: usize, store: ResourceStore<V>, context: RunContext) -> bool {
    if k < c.set_conditions@.len() {
        c.set_conditions@[k as int].holds_for_set(store, k, context)
    } else {
        true
    }
}

/// Whether set `k` is open in this stage pass: the value recorded earlier in the pass, if
/// any, else whether its condition holds now.
pub open spec fn set_gate_value<B, V: ResourceValue>(c: CompiledSchedule<B>, k: usize, store: ResourceStore<V>, context: RunContext) -> bool {
    match gate_at(context.gates(), k) {
        Some(v) => v,
        None => fresh_gate(c, k, store, context),
    }
}

/// System `i` may run: its set's gate is open (when it belongs to one) and every one of its
/// conditions holds.
pub open spec fn system_allowed<B, V: ResourceValue>(c: CompiledSchedule<B>, i: usize, store: ResourceStore<V>, context: RunContext) -> bool {
    &&& (c.systems@[i as int].in_set_index matches Some(k) ==> set_gate_value(c, k, store, context))
    &&& conditions_hold(c.systems@[i as int].conditions@, store, i, context)
}

/// The set-gate cache after system `i`'s gate was consulted: a fresh answer is recorded.
pub open spec fn gates_after<B, V: ResourceValue>(c: CompiledSchedule<B>, i: usize, store: ResourceStore<V>, context: RunContext) -> Seq<Option<bool>> {
    match c.systems@[i as int].in_set_index {
        Some(k) => match gate_at(context.gates(), k) {
            Some(_) => context.gates(),
            None => gates_with(context.gates(), k, fresh_gate(c, k, store, context)),
        },
        None => context.gates(),
    }
}

/// Only the set-gate cache differs between `a` and `b`.
pub open spec fn same_cursors(a: RunContext, b: RunContext) -> bool {
    &&& a.wf() == b.wf()
    &&& a.fixed() == b.fixed()
    &&& forall|i: usize, id: TypeId| #[trigger] a.added_cursor(i, id) == b.added_cursor(i, id)
    &&& forall|i: usize, id: TypeId| #[trigger] a.changed_cursor(i, id) == b.changed_cursor(i, id)
    &&& forall|i: usize, id: TypeId| #[trigger] a.transition_cursor(i, id) == b.transition_cursor(i, id)
    &&& forall|i: usize, id: TypeId| #[trigger] a.set_added_cursor(i, id) == b.set_added_cursor(i, id)
    &&& forall|i: usize, id: TypeId| #[trigger] a.set_changed_cursor(i, id) == b.set_changed_cursor(i, id)
    &&& forall|i: usize, id: TypeId| #[trigger] a.set_transition_cursor(i, id) == b.set_transition_cursor(i, id)
}

/// A condition reads only the fixed step and the cursors of a context.
pub proof fn lemma_holds_same_cursors<V: ResourceValue>(c: Condition, store: ResourceStore<V>, i: usize, a: RunContext, b: RunContext)
    requires
        same_cursors(a, b),
    ensures
        c.holds_for_system(store, i, a) == c.holds_for_system(store, i, b),
{
    assert((|id: TypeId| a.added_cursor(i, id)) =~= (|id: TypeId| b.added_cursor(i, id)));
    assert((|id: TypeId| a.changed_cursor(i, id)) =~= (|id: TypeId| b.changed_cursor(i, id)));
    assert((|id: TypeId| a.transition_cursor(i, id)) =~= (|id: TypeId| b.transition_cursor(i, id)));
}

/// Whether system `system_index` may run now: its set's gate first (taken from this pass's
/// cache, or evaluated and cached), then each of its own conditions.
pub fn evaluate_system_conditions<B, V: ResourceValue>(
    schedule: &CompiledSchedule<B>,
    system_index: usize,
    store: &ResourceStore<V>,
    context: &mut RunContext,
) -> (r: bool)
    requires
        system_index < schedule.systems@.len(),
        store.wf(),
        old(context).wf(),
        schedule.systems@[system_index as int].in_set_index matches Some(k) ==> k < usize::MAX,
    ensures
        r == system_allowed(*schedule, system_index, *store, *old(context)),
        final(context).gates() == gates_after(*schedule, system_index, *store, *old(context)),
        same_cursors(*final(context), *old(context)),
{
    let ghost start = *context;
    match schedule.systems[system_index].in_set_index {
        Some(set_index) => {
            let allowed = match context.set_gate_cached(set_index) {
                Some(value) => value,
                None => {
                    let value = if set_index < schedule.set_conditions.len() {
                        schedule.set_conditions[set_index].evaluate_for_set(store, set_index, context)
                    } else {
                        true
                    };
                    context.set_gate(set_index, value);
                    proof {
                        assert(context.gates() =~= gates_with(start.gates(), set_index, value));
                    }
                    value
                },
            };
            if !allowed {
                return false;
            }
        },
        None => {},
    }
    let conditions = &schedule.systems[system_index].conditions;
    let mut k: usize = 0;
    while k < conditions.len()
        invariant
            store.wf(),
            context.wf(),
            start.wf(),
            start == *old(context),
            same_cursors(*context, start),
            context.gates() == gates_after(*schedule, system_index, *store, start),
            system_index < schedule.systems@.len(),
            conditions@ == schedule.systems@[system_index as int].conditions@,
            schedule.systems@[system_index as int].in_set_index matches Some(k) ==> set_gate_value(*schedule, k, *store, start),
            k <= conditions@.len(),
            forall|j: int| 0 <= j < k ==> #[trigger] conditions@[j].holds_for_system(*store, system_index, start),
        decreases conditions@.len() - k,
    {
        let holds = conditions[k].evaluate(store, system_index, context);
        proof {
            lemma_holds_same_cursors(conditions@[k as int], *store, system_index, *context, start);
        }
        if !holds {
            return false;
        }
        k = k + 1;
    }
    true
}


/// Set `k`'s cursors move at the end of the pass: its gate was consulted in this pass and
/// the schedule has a condition for it.
pub open spec fn set_consulted<B>(c: CompiledSchedule<B>, context: RunContext, k: usize) -> bool {
    &&& k < context.gates().len()
    &&& k < c.set_conditions@.len()
    &&& gate_at(context.gates(), k) is Some
}

/// A set cursor after the end of the pass.
pub open spec fn set_cursor_after<B, V: ResourceValue>(
    c: CompiledSchedule<B>,
    store: ResourceStore<V>,
    context: RunContext,
    which: CursorKind,
    k: usize,
    id: TypeId,
    before: u64,
) -> u64 {
    if set_consulted(c, context, k) {
        let current = match which {
            CursorKind::Added => added_of(store, id),
            CursorKind::Changed => changed_of(store, id),
            CursorKind::Transition => transition_of(store, id),
        };
        advanced(c.set_conditions@[k as int].kind(), which, id, current, before)
    } else {
        before
    }
}

/// The context after the end of a pass: the consulted sets' cursors moved, all else kept.
pub open spec fn context_after_pass<B, V: ResourceValue>(c: CompiledSchedule<B>, store: ResourceStore<V>, before: RunContext, after: RunContext) -> bool {
    &&& after.wf() == before.wf()
    &&& after.fixed() == before.fixed()
    &&& after.gates() == before.gates()
    &&& forall|i: usize, id: TypeId| #[trigger] after.added_cursor(i, id) == before.added_cursor(i, id)
    &&& forall|i: usize, id: TypeId| #[trigger] after.changed_cursor(i, id) == before.changed_cursor(i, id)
    &&& forall|i: usize, id: TypeId| #[trigger] after.transition_cursor(i, id) == before.transition_cursor(i, id)
    &&& forall|k: usize, id: TypeId| #[trigger] after.set_added_cursor(k, id) == set_cursor_after(
        c,
        store,
        before,
        CursorKind::Added,
        k,
        id,
        before.set_added_cursor(k, id),
    )
    &&& forall|k: usize, id: TypeId| #[trigger] after.set_changed_cursor(k, id) == set_cursor_after(
        c,
        store,
        before,
        CursorKind::Changed,
        k,
        id,
        before.set_changed_cursor(k, id),
    )
    &&& forall|k: usize, id: TypeId| #[trigger] after.set_transition_cursor(k, id) == set_cursor_after(
        c,
        store,
        before,
        CursorKind::Transition,
        k,
        id,
        before.set_transition_cursor(k, id),
    )
}

/// The pass is a Startup pass of an Update run.
pub open spec fn is_startup_pass<B>(c: CompiledSchedule<B>, stage_index: usize, operation: StageOperation) -> bool {
    operation == StageOperation::Update && c.stages@[stage_index as int].descriptor.label@ == STARTUP@
}

/// The schedule after the end of a pass: only the startup flag may change, and it is set by
/// a Startup pass of an Update run.
pub open spec fn schedule_after_pass<B>(before: CompiledSchedule<B>, after: CompiledSchedule<B>, stage_index: usize, operation: StageOperation) -> bool {
    after == CompiledSchedule {
        startup_complete: before.startup_complete || is_startup_pass(before, stage_index, operation),
        ..before
    }
}

/// Startup runs at most once per schedule: once an Update pass over the Startup stage has
/// ended, every later Update pass over it is skipped.
pub proof fn law_startup_runs_once<B>(before: CompiledSchedule<B>, after: CompiledSchedule<B>, stage_index: usize)
    requires
        stage_index < before.stages@.len(),
        is_startup_pass(before, stage_index, StageOperation::Update),
        schedule_after_pass(before, after, stage_index, StageOperation::Update),
    ensures
        skips_pass(after, stage_index, StageOperation::Update),
{
}

/// Ends a pass: moves the cursors of the sets consulted in it, then marks Startup as run
/// when this was its Update pass.
fn finish_pass<B, V: ResourceValue>(
    schedule: &mut CompiledSchedule<B>,
    stage_index: usize,
    operation: StageOperation,
    store: &ResourceStore<V>,
    context: &mut RunContext,
)
    requires
        stage_index < old(schedule).stages@.len(),
        store.wf(),
        old(context).wf(),
    ensures
        schedule_after_pass(*old(schedule), *final(schedule), stage_index, operation),
        context_after_pass(*old(schedule), *store, *old(context), *final(context)),
{
    let ghost start = *context;
    let capacity = context.set_gate_capacity();
    let set_count = if capacity < schedule.set_conditions.len() {
        capacity
    } else {
        schedule.set_conditions.len()
    };
    let mut k: usize = 0;
    while k < set_count
        invariant
            store.wf(),
            start.wf(),
            context.wf(),
            set_count <= start.gates().len(),
            set_count <= schedule.set_conditions@.len(),
            set_count == start.gates().len() || set_count == schedule.set_conditions@.len(),
            k <= set_count,
            context.fixed() == start.fixed(),
            context.gates() == start.gates(),
            forall|i: usize, id: TypeId| #[trigger] context.added_cursor(i, id) == start.added_cursor(i, id),
            forall|i: usize, id: TypeId| #[trigger] context.changed_cursor(i, id) == start.changed_cursor(i, id),
            forall|i: usize, id: TypeId| #[trigger] context.transition_cursor(i, id) == start.transition_cursor(i, id),
            forall|j: usize, id: TypeId| #[trigger] context.set_added_cursor(j, id) == if j < k {
                set_cursor_after(*schedule, *store, start, CursorKind::Added, j, id, start.set_added_cursor(j, id))
            } else {
                start.set_added_cursor(j, id)
            },
            forall|j: usize, id: TypeId| #[trigger] context.set_changed_cursor(j, id) == if j < k {
                set_cursor_after(*schedule, *store, start, CursorKind::Changed, j, id, start.set_changed_cursor(j, id))
            } else {
                start.set_changed_cursor(j, id)
            },
            forall|j: usize, id: TypeId| #[trigger] context.set_transition_cursor(j, id) == if j < k {
                set_cursor_after(*schedule, *store, start, CursorKind::Transition, j, id, start.set_transition_cursor(j, id))
            } else {
                start.set_transition_cursor(j, id)
            },
        decreases set_count - k,
    {
        if context.set_gate_cached(k).is_some() {
            schedule.set_conditions[k].advance_set_cursors(store, k, context);
        }
        k = k + 1;
    }
    proof {
        assert forall|j: usize, id: TypeId| #[trigger] context.set_added_cursor(j, id) == set_cursor_after(
            *schedule, *store, start, CursorKind::Added, j, id, start.set_added_cursor(j, id)) by {
            if j >= set_count {
                assert(!set_consulted(*schedule, start, j));
            }
        }
        assert forall|j: usize, id: TypeId| #[trigger] context.set_changed_cursor(j, id) == set_cursor_after(
            *schedule, *store, start, CursorKind::Changed, j, id, start.set_changed_cursor(j, id)) by {
            if j >= set_count {
                assert(!set_consulted(*schedule, start, j));
            }
        }
        assert forall|j: usize, id: TypeId| #[trigger] context.set_transition_cursor(j, id) == set_cursor_after(
            *schedule, *store, start, CursorKind::Transition, j, id, start.set_transition_cursor(j, id)) by {
            if j >= set_count {
                assert(!set_consulted(*schedule, start, j));
            }
        }
    }
    if operation == StageOperation::Update && same_text(schedule.stages[stage_index].descriptor.label.as_str(), STARTUP) {
        schedule.startup_complete = true;
    }
}


/// Where a stage pass stands.
#[derive(Clone, Copy, Debug, Eq, PartialEq, Structural)]
pub enum StagePhase {
    /// Looking at the system at the pass's position in the stage's order.
    Choosing,
    /// The given system was handed out to run.
    Running(usize),
    /// Flushing after the given system.
    SystemFlush(usize),
    /// Flushing at the end of the stage.
    StageFlush,
    /// The pass ended.
    Done,
}

/// One pass over a stage of a compiled schedule.
#[derive(Clone, Copy, Debug, Eq, PartialEq, Structural)]
pub struct StagePass {
    pub stage_index: usize,
    pub operation: StageOperation,
    pub position: usize,
    pub phase: StagePhase,
}

/// What the caller does next.
#[derive(Clone, Debug, Eq, PartialEq)]
pub enum StageAction {
    /// Ask for the next decision.
    Continue,
    /// Begin a world run for the system, call its body, end the run, and report.
    RunSystem(usize),
    /// Flush deferred commands and report.
    Flush,
    /// The pass completed.
    Finished,
    /// The pass failed.
    Fault(RunOutcome),
}

/// How a handed-out system's run went: why the world refused to begin it, whether the
/// world's mutation state is poisoned afterwards, and what the body returned.
pub struct SystemReport {
    pub begin_error: Option<String>,
    pub poisoned: bool,
    pub result: Result<(), String>,
}

/// The compiled schedule can run stage `s`: it exists, every system of its order exists and
/// has an enabled flag, and set positions stay below the machine limit.
pub open spec fn pass_ready<B>(c: CompiledSchedule<B>, s: usize) -> bool {
    &&& s < c.stages@.len()
    &&& c.system_enabled@.len() == c.systems@.len()
    &&& forall|p: int| 0 <= p < c.stages@[s as int].system_order@.len() ==> (#[trigger] c.stages@[s as int].system_order@[p]) < c.systems@.len()
    &&& forall|i: int| 0 <= i < c.systems@.len() ==> ((#[trigger] c.systems@[i]).in_set_index matches Some(k) ==> k < usize::MAX)
}

/// A Startup pass of an Update run is skipped once Startup has run.
pub open spec fn skips_pass<B>(c: CompiledSchedule<B>, s: usize, operation: StageOperation) -> bool {
    is_startup_pass(c, s, operation) && c.startup_complete
}

/// The stage flushes at its end: an Update pass of a stage that flushes per stage.
pub open spec fn flushes_at_end<B>(c: CompiledSchedule<B>, s: usize, operation: StageOperation) -> bool {
    operation == StageOperation::Update && c.stages@[s as int].descriptor.flush_mode == FlushMode::Stage
}

/// The system flushes after running: an Update pass of a system that flushes after itself.
pub open spec fn flushes_after<B>(c: CompiledSchedule<B>, i: usize, operation: StageOperation) -> bool {
    operation == StageOperation::Update && c.systems@[i as int].flush_mode == FlushMode::AfterSystem
}

/// `a` is a fault at stage `s`, naming `system` with `detail`.
pub open spec fn is_fault<B>(a: StageAction, c: CompiledSchedule<B>, s: usize, system: Seq<char>, detail: Seq<char>) -> bool {
    match a {
        StageAction::Fault(o) => {
            &&& (o.fault_stage matches Some(x) && x@ == c.stages@[s as int].descriptor.label@)
            &&& (o.fault_system matches Some(y) && y@ == system)
            &&& (o.fault_detail matches Some(z) && z@ == detail)
        },
        _ => false,
    }
}

/// Some condition of `conds` reads cursor `which` of `id`.
pub open spec fn any_mentions(conds: Seq<Condition>, which: CursorKind, id: TypeId) -> bool {
    exists|k: int| 0 <= k < conds.len() && mentions_kind(#[trigger] conds[k], which, id)
}

/// `c` reads cursor `which` of `id`.
pub open spec fn mentions_kind(c: Condition, which: CursorKind, id: TypeId) -> bool {
    crate::schedule::condition::mentions(c.kind(), which, id)
}

/// A system cursor after every condition of `conds` advanced it.
pub open spec fn cursor_after_all(conds: Seq<Condition>, which: CursorKind, id: TypeId, current: Option<ChangeTick>, before: u64) -> u64 {
    if any_mentions(conds, which, id) && current is Some {
        current->0@
    } else {
        before
    }
}

/// The context after system `i`'s conditions moved its cursors.
pub open spec fn context_after_system<V: ResourceValue>(
    conds: Seq<Condition>,
    i: usize,
    store: ResourceStore<V>,
    before: RunContext,
    after: RunContext,
) -> bool {
    &&& after.wf() == before.wf()
    &&& after.fixed() == before.fixed()
    &&& after.gates() == before.gates()
    &&& forall|id: TypeId| #[trigger] after.added_cursor(i, id) == cursor_after_all(conds, CursorKind::Added, id, added_of(store, id), before.added_cursor(i, id))
    &&& forall|id: TypeId| #[trigger] after.changed_cursor(i, id) == cursor_after_all(conds, CursorKind::Changed, id, changed_of(store, id), before.changed_cursor(i, id))
    &&& forall|id: TypeId| #[trigger] after.transition_cursor(i, id) == cursor_after_all(conds, CursorKind::Transition, id, transition_of(store, id), before.transition_cursor(i, id))
    &&& forall|j: usize, id: TypeId| j != i ==> #[trigger] after.added_cursor(j, id) == before.added_cursor(j, id)
    &&& forall|j: usize, id: TypeId| j != i ==> #[trigger] after.changed_cursor(j, id) == before.changed_cursor(j, id)
    &&& forall|j: usize, id: TypeId| j != i ==> #[trigger] after.transition_cursor(j, id) == before.transition_cursor(j, id)
    &&& forall|j: usize, id: TypeId| #[trigger] after.set_added_cursor(j, id) == before.set_added_cursor(j, id)
    &&& forall|j: usize, id: TypeId| #[trigger] after.set_changed_cursor(j, id) == before.set_changed_cursor(j, id)
    &&& forall|j: usize, id: TypeId| #[trigger] after.set_transition_cursor(j, id) == before.set_transition_cursor(j, id)
}

/// Moves system `i`'s cursors for each of its conditions, in order.
fn advance_system_cursors<V: ResourceValue>(conds: &Vec<Condition>, i: usize, store: &ResourceStore<V>, context: &mut RunContext)
    requires
        store.wf(),
        old(context).wf(),
    ensures
        context_after_system(conds@, i, *store, *old(context), *final(context)),
{
    let ghost start = *context;
    let mut k: usize = 0;
    while k < conds.len()
        invariant
            store.wf(),
            start.wf(),
            context.wf(),
            k <= conds@.len(),
            context_after_system(conds@.take(k as int), i, *store, start, *context),
        decreases conds@.len() - k,
    {
        let ghost before = *context;
        conds[k].advance_cursors(store, i, context);
        proof {
            let done = conds@.take(k + 1);
            let prev = conds@.take(k as int);
            assert forall|which: CursorKind, id: TypeId| #[trigger] any_mentions(done, which, id) <==> (any_mentions(prev, which, id)
                || mentions_kind(conds@[k as int], which, id)) by {
                if any_mentions(done, which, id) {
                    let q = choose|q: int| 0 <= q < done.len() && mentions_kind(#[trigger] done[q], which, id);
                    if q < k {
                        assert(prev[q] == done[q]);
                    }
                }
                if any_mentions(prev, which, id) {
                    let q = choose|q: int| 0 <= q < prev.len() && mentions_kind(#[trigger] prev[q], which, id);
                    assert(done[q] == prev[q]);
                }
                if mentions_kind(conds@[k as int], which, id) {
                    assert(done[k as int] == conds@[k as int]);
                }
            }
            assert(context_after_system(done, i, *store, start, *context));
        }
        k = k + 1;
    }
    proof {
        assert(conds@.take(conds@.len() as int) =~= conds@);
    }
}


impl StagePass {
    /// Starts a pass over stage `stage_index` for `operation`. A Startup pass of an Update run
    /// after Startup has run ends at once; any other pass forgets the cached set gates and
    /// starts at the first system of the stage's order.
    pub fn begin<B>(
        schedule: &CompiledSchedule<B>,
        stage_index: usize,
        operation: StageOperation,
        context: &mut RunContext,
    ) -> (r: (StagePass, StageAction))
        requires
            stage_index < schedule.stages@.len(),
        ensures
            r.0.stage_index == stage_index,
            r.0.operation == operation,
            r.0.position == 0,
            skips_pass(*schedule, stage_index, operation) ==> r.0.phase == StagePhase::Done && r.1 == StageAction::Finished
                && *final(context) == *old(context),
            !skips_pass(*schedule, stage_index, operation) ==> {
                &&& r.0.phase == StagePhase::Choosing
                &&& r.1 == StageAction::Continue
                &&& final(context).gates() == Seq::new(old(context).gates().len(), |i: int| None::<bool>)
                &&& same_cursors(*final(context), *old(context))
            },
    {
        let startup = operation == StageOperation::Update && same_text(
            schedule.stages[stage_index].descriptor.label.as_str(),
            STARTUP,
        );
        let pass = StagePass { stage_index, operation, position: 0, phase: StagePhase::Choosing };
        if startup && schedule.startup_complete {
            return (StagePass { phase: StagePhase::Done, ..pass }, StageAction::Finished);
        }
        context.clear_set_cache();
        (pass, StageAction::Continue)
    }

    /// Looks at the system at the pass's position. A disabled system, or one whose set gate
    /// or conditions refuse it, is passed over (`Continue`); otherwise it is handed out
    /// (`RunSystem`). Past the last system, an Update pass of a per-stage flushing stage asks
    /// for the end-of-stage flush; any other pass ends (`Finished`).
    pub fn choose_next<B, V: ResourceValue>(
        &mut self,
        schedule: &mut CompiledSchedule<B>,
        store: &ResourceStore<V>,
        context: &mut RunContext,
    ) -> (r: StageAction)
        requires
            old(self).phase == StagePhase::Choosing,
            pass_ready(*old(schedule), old(self).stage_index),
            store.wf(),
            old(context).wf(),
        ensures
            final(self).stage_index == old(self).stage_index,
            final(self).operation == old(self).operation,
            ({
                let c = *old(schedule);
                let s = old(self).stage_index;
                let order = c.stages@[s as int].system_order@;
                let p = old(self).position;
                if p < order.len() {
                    let i = order[p as int];
                    &&& final(self).position == p + 1
                    &&& *final(schedule) == c
                    &&& if !c.system_enabled@[i as int] {
                        &&& r == StageAction::Continue
                        &&& final(self).phase == StagePhase::Choosing
                        &&& *final(context) == *old(context)
                    } else {
                        &&& final(context).gates() == gates_after(c, i, *store, *old(context))
                        &&& same_cursors(*final(context), *old(context))
                        &&& if system_allowed(c, i, *store, *old(context)) {
                            r == StageAction::RunSystem(i) && final(self).phase == StagePhase::Running(i)
                        } else {
                            r == StageAction::Continue && final(self).phase == StagePhase::Choosing
                        }
                    }
                } else if flushes_at_end(c, s, old(self).operation) {
                    &&& final(self).position == p
                    &&& r == StageAction::Flush
                    &&& final(self).phase == StagePhase::StageFlush
                    &&& *final(schedule) == c
                    &&& *final(context) == *old(context)
                } else {
                    &&& final(self).position == p
                    &&& r == StageAction::Finished
                    &&& final(self).phase == StagePhase::Done
                    &&& schedule_after_pass(c, *final(schedule), s, old(self).operation)
                    &&& context_after_pass(c, *store, *old(context), *final(context))
                }
            }),
    {
        let stage_index = self.stage_index;
        let position = self.position;
        if position < schedule.stages[stage_index].system_order.len() {
            let system_index = schedule.stages[stage_index].system_order[position];
            self.position = position + 1;
            if !schedule.system_enabled[system_index] {
                return StageAction::Continue;
            }
            if evaluate_system_conditions(schedule, system_index, store, context) {
                self.phase = StagePhase::Running(system_index);
                StageAction::RunSystem(system_index)
            } else {
                StageAction::Continue
            }
        } else if self.operation == StageOperation::Update && schedule.stages[stage_index].descriptor.flush_mode
            == FlushMode::Stage {
            self.phase = StagePhase::StageFlush;
            StageAction::Flush
        } else {
            finish_pass(schedule, stage_index, self.operation, store, context);
            self.phase = StagePhase::Done;
            StageAction::Finished
        }
    }

    /// Takes the report of the handed-out system. A refused begin, a poisoned world, or an
    /// error from the body ends the pass with a fault naming the stage and the system, in
    /// that order of precedence. Otherwise the system's conditions move its cursors, and an
    /// Update pass of a system that flushes after itself asks for that flush.
    pub fn system_ran<B, V: ResourceValue>(
        &mut self,
        schedule: &CompiledSchedule<B>,
        store: &ResourceStore<V>,
        context: &mut RunContext,
        report: SystemReport,
    ) -> (r: StageAction)
        requires
            old(self).phase matches StagePhase::Running(i) && i < schedule.systems@.len(),
            old(self).stage_index < schedule.stages@.len(),
            store.wf(),
            old(context).wf(),
        ensures
            final(self).stage_index == old(self).stage_index,
            final(self).operation == old(self).operation,
            final(self).position == old(self).position,
            ({
                let c = *schedule;
                let s = old(self).stage_index;
                let i = old(self).phase->Running_0;
                let name = c.systems@[i as int].name@;
                match report.begin_error {
                    Some(d) => final(self).phase == StagePhase::Done && is_fault(r, c, s, name, d@) && *final(context)
                        == *old(context),
                    None => if report.poisoned {
                        &&& final(self).phase == StagePhase::Done
                        &&& is_fault(r, c, s, name, "world mutation is poisoned"@)
                        &&& *final(context) == *old(context)
                    } else {
                        match report.result {
                            Err(d) => final(self).phase == StagePhase::Done && is_fault(r, c, s, name, d@) && *final(context)
                                == *old(context),
                            Ok(()) => {
                                &&& context_after_system(c.systems@[i as int].conditions@, i, *store, *old(context), *final(context))
                                &&& if flushes_after(c, i, old(self).operation) {
                                    r == StageAction::Flush && final(self).phase == StagePhase::SystemFlush(i)
                                } else {
                                    r == StageAction::Continue && final(self).phase == StagePhase::Choosing
                                }
                            },
                        }
                    },
                }
            }),
    {
        let system_index = match self.phase {
            StagePhase::Running(i) => i,
            _ => 0,
        };
        let stage_label = schedule.stages[self.stage_index].descriptor.label.as_str();
        let system_name = schedule.systems[system_index].name.as_str();
        match report.begin_error {
            Some(detail) => {
                self.phase = StagePhase::Done;
                return StageAction::Fault(
                    RunOutcome {
                        fault_stage: Some(stage_label.to_owned()),
                        fault_system: Some(system_name.to_owned()),
                        fault_detail: Some(detail),
                    },
                );
            },
            None => {},
        }
        if report.poisoned {
            self.phase = StagePhase::Done;
            return StageAction::Fault(
                RunOutcome {
                    fault_stage: Some(stage_label.to_owned()),
                    fault_system: Some(system_name.to_owned()),
                    fault_detail: Some("world mutation is poisoned".to_owned()),
                },
            );
        }
        match report.result {
            Err(detail) => {
                self.phase = StagePhase::Done;
                return StageAction::Fault(
                    RunOutcome {
                        fault_stage: Some(stage_label.to_owned()),
                        fault_system: Some(system_name.to_owned()),
                        fault_detail: Some(detail),
                    },
                );
            },
            Ok(()) => {},
        }
        advance_system_cursors(&schedule.systems[system_index].conditions, system_index, store, context);
        if self.operation == StageOperation::Update && schedule.systems[system_index].flush_mode == FlushMode::AfterSystem {
            self.phase = StagePhase::SystemFlush(system_index);
            StageAction::Flush
        } else {
            self.phase = StagePhase::Choosing;
            StageAction::Continue
        }
    }

    /// Takes the result of the requested flush. A failed flush ends the pass with a fault
    /// naming the stage and the system it followed (`<stage>` for the end-of-stage flush).
    /// After a system's flush the pass goes on; after the end-of-stage flush it ends.
    pub fn flushed<B, V: ResourceValue>(
        &mut self,
        schedule: &mut CompiledSchedule<B>,
        store: &ResourceStore<V>,
        context: &mut RunContext,
        result: Result<(), String>,
    ) -> (r: StageAction)
        requires
            old(self).phase matches StagePhase::SystemFlush(i) && i < old(schedule).systems@.len() || old(self).phase
                == StagePhase::StageFlush,
            old(self).stage_index < old(schedule).stages@.len(),
            store.wf(),
            old(context).wf(),
        ensures
            final(self).stage_index == old(self).stage_index,
            final(self).operation == old(self).operation,
            final(self).position == old(self).position,
            ({
                let c = *old(schedule);
                let s = old(self).stage_index;
                match old(self).phase {
                    StagePhase::SystemFlush(i) => {
                        &&& *final(schedule) == c
                        &&& *final(context) == *old(context)
                        &&& match result {
                            Err(d) => final(self).phase == StagePhase::Done && is_fault(r, c, s, c.systems@[i as int].name@, d@),
                            Ok(()) => r == StageAction::Continue && final(self).phase == StagePhase::Choosing,
                        }
                    },
                    _ => match result {
                        Err(d) => {
                            &&& final(self).phase == StagePhase::Done
                            &&& is_fault(r, c, s, "<stage>"@, d@)
                            &&& *final(schedule) == c
                            &&& *final(context) == *old(context)
                        },
                        Ok(()) => {
                            &&& r == StageAction::Finished
                            &&& final(self).phase == StagePhase::Done
                            &&& schedule_after_pass(c, *final(schedule), s, old(self).operation)
                            &&& context_after_pass(c, *store, *old(context), *final(context))
                        },
                    },
                }
            }),
    {
        let stage_index = self.stage_index;
        match self.phase {
            StagePhase::SystemFlush(system_index) => match result {
                Err(detail) => {
                    self.phase = StagePhase::Done;
                    StageAction::Fault(
                        RunOutcome {
                            fault_stage: Some(schedule.stages[stage_index].descriptor.label.as_str().to_owned()),
                            fault_system: Some(schedule.systems[system_index].name.as_str().to_owned()),
                            fault_detail: Some(detail),
                        },
                    )
                },
                Ok(()) => {
                    self.phase = StagePhase::Choosing;
                    StageAction::Continue
                },
            },
            _ => match result {
                Err(detail) => {
                    self.phase = StagePhase::Done;
                    StageAction::Fault(
                        RunOutcome {
                            fault_stage: Some(schedule.stages[stage_index].descriptor.label.as_str().to_owned()),
                            fault_system: Some("<stage>".to_owned()),
                            fault_detail: Some(detail),
                        },
                    )
                },
                Ok(()) => {
                    finish_pass(schedule, stage_index, self.operation, store, context);
                    self.phase = StagePhase::Done;
                    StageAction::Finished
                },
            },
        }
    }
}

} // verus!
