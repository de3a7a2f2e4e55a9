//! Run conditions evaluated against resource ticks and fixed-step cadence before a system runs.
use vstd::prelude::*;

use core::any::TypeId;

use crate::resource::store::ResourceStore;
use crate::schedule::context::RunContext;
use crate::state::State;
use crate::text::{cat2, cat3};
use crate::time::{decimal_digits, u64_to_decimal, ChangeTick, FixedStep};

verus! {

/// Values kept as world resources, as far as run conditions read them.
pub trait ResourceValue {
    /// Tick of the last committed transition, when the value is a state resource.
    spec fn transition_tick_spec(&self) -> Option<ChangeTick>;

    /// Tick of the last committed transition, when the value is a state resource.
    fn transition_tick_of(&self) -> (r: Option<ChangeTick>)
        ensures
            r == self.transition_tick_spec(),
    ;
}

impl<S: Eq + 'static> ResourceValue for State<S> {
    open spec fn transition_tick_spec(&self) -> Option<ChangeTick> {
        self.spec_transition_tick()
    }

    fn transition_tick_of(&self) -> (r: Option<ChangeTick>) {
        self.transition_tick()
    }
}

/// A resource value as a world holds it: a plain value, or a state machine over `S`.
pub enum Resource<T, S: Eq + 'static> {
    Plain(T),
    State(State<S>),
}

impl<T, S: Eq + 'static> ResourceValue for Resource<T, S> {
    open spec fn transition_tick_spec(&self) -> Option<ChangeTick> {
        match self {
            Resource::Plain(_) => None,
            Resource::State(s) => s.spec_transition_tick(),
        }
    }

    fn transition_tick_of(&self) -> (r: Option<ChangeTick>) {
        match self {
            Resource::Plain(_) => None,
            Resource::State(s) => s.transition_tick(),
        }
    }
}

/// Invalid fixed-step cadence configuration.
#[derive(Clone, Copy, Debug, Eq, PartialEq)]
pub enum ConditionError {
    ZeroPeriod,
    PeriodNotPowerOfTwo { period: u64 },
    PhaseOutOfRange { period: u64, phase: u64 },
}

/// Human-readable description of a cadence error.
pub open spec fn condition_error_message(e: ConditionError) -> Seq<char> {
    match e {
        ConditionError::ZeroPeriod => "fixed-step cadence period must be nonzero"@,
        ConditionError::PeriodNotPowerOfTwo { period } => "fixed-step cadence period "@ + decimal_digits(
            period as nat,
        ) + " is not a power of two"@,
        ConditionError::PhaseOutOfRange { period, phase } => "fixed-step cadence phase "@ + decimal_digits(
            phase as nat,
        ) + " is outside period "@ + decimal_digits(period as nat),
    }
}

impl ConditionError {
    /// Human-readable description of the error.
    pub fn to_string(&self) -> (r: String)
        ensures
            r@ == condition_error_message(*self),
    {
        match self {
            ConditionError::ZeroPeriod => "fixed-step cadence period must be nonzero".to_owned(),
            ConditionError::PeriodNotPowerOfTwo { period } => {
                let digits = u64_to_decimal(*period);
                cat3("fixed-step cadence period ", digits.as_str(), " is not a power of two")
            },
            ConditionError::PhaseOutOfRange { period, phase } => {
                let phase_digits = u64_to_decimal(*phase);
                let period_digits = u64_to_decimal(*period);
                let head = cat3("fixed-step cadence phase ", phase_digits.as_str(), " is outside period ");
                cat2(head.as_str(), period_digits.as_str())
            },
        }
    }
}

/// The shape of a run condition.
pub enum ConditionKind {
    Always,
    Never,
    ResourceExists(TypeId),
    ResourceAdded(TypeId),
    ResourceChanged(TypeId),
    StateChanged(TypeId),
    FixedStepMod { mask: u64, phase: u64 },
    And(Box<ConditionKind>, Box<ConditionKind>),
    Or(Box<ConditionKind>, Box<ConditionKind>),
}

/// Run condition evaluated against read-only world state before a system body runs.
pub struct Condition(ConditionKind);

/// A copy of `kind`.
fn clone_kind(kind: &ConditionKind) -> (r: ConditionKind)
    ensures
        r == *kind,
    decreases kind,
{
    match kind {
        ConditionKind::Always => ConditionKind::Always,
        ConditionKind::Never => ConditionKind::Never,
        ConditionKind::ResourceExists(id) => ConditionKind::ResourceExists(*id),
        ConditionKind::ResourceAdded(id) => ConditionKind::ResourceAdded(*id),
        ConditionKind::ResourceChanged(id) => ConditionKind::ResourceChanged(*id),
        ConditionKind::StateChanged(id) => ConditionKind::StateChanged(*id),
        ConditionKind::FixedStepMod { mask, phase } => ConditionKind::FixedStepMod { mask: *mask, phase: *phase },
        ConditionKind::And(l, r) => ConditionKind::And(Box::new(clone_kind(l)), Box::new(clone_kind(r))),
        ConditionKind::Or(l, r) => ConditionKind::Or(Box::new(clone_kind(l)), Box::new(clone_kind(r))),
    }
}

impl Clone for Condition {
    /// A copy of the condition.
    fn clone(&self) -> (r: Condition)
        ensures
            r == *self,
    {
        Condition(clone_kind(&self.0))
    }
}

/// Whether `n` is `2^k` for some `k` below 64.
pub open spec fn is_power_of_two(n: u64) -> bool {
    exists|k: u64| k < 64 && n == (1u64 << k)
}

/// Which cursor table a temporal leaf reads.
pub enum CursorKind {
    Added,
    Changed,
    Transition,
}

/// Added tick of `id` in `store`.
pub open spec fn added_of<V>(store: ResourceStore<V>, id: TypeId) -> Option<ChangeTick> {
    match store.entry_of(id) {
        Some(e) => Some(e.added),
        None => None,
    }
}

/// Changed tick of `id` in `store`.
pub open spec fn changed_of<V>(store: ResourceStore<V>, id: TypeId) -> Option<ChangeTick> {
    match store.entry_of(id) {
        Some(e) => Some(e.changed),
        None => None,
    }
}

/// Transition tick of the state resource `id` in `store`.
pub open spec fn transition_of<V: ResourceValue>(store: ResourceStore<V>, id: TypeId) -> Option<ChangeTick> {
    match store.entry_of(id) {
        Some(e) => e.value.transition_tick_spec(),
        None => None,
    }
}

/// `current` is a tick strictly after the raw `cursor`.
pub open spec fn tick_advanced(current: Option<ChangeTick>, cursor: u64) -> bool {
    current matches Some(t) && t@ > cursor
}

/// Whether `kind` holds for the cursors of one system or set: `added`, `changed` and
/// `transition` give the raw last-observed ticks by type id.
pub open spec fn holds<V: ResourceValue>(
    kind: ConditionKind,
    store: ResourceStore<V>,
    fixed: Option<FixedStep>,
    added: spec_fn(TypeId) -> u64,
    changed: spec_fn(TypeId) -> u64,
    transition: spec_fn(TypeId) -> u64,
) -> bool
    decreases kind,
{
    match kind {
        ConditionKind::Always => true,
        ConditionKind::Never => false,
        ConditionKind::ResourceExists(id) => store.entry_of(id) is Some,
        ConditionKind::ResourceAdded(id) => tick_advanced(added_of(store, id), added(id)),
        ConditionKind::ResourceChanged(id) => tick_advanced(changed_of(store, id), changed(id)),
        ConditionKind::StateChanged(id) => tick_advanced(transition_of(store, id), transition(id)),
        ConditionKind::FixedStepMod { mask, phase } => fixed matches Some(step) && (step.index & mask) == phase,
        ConditionKind::And(l, r) => holds(*l, store, fixed, added, changed, transition) && holds(
            *r,
            store,
            fixed,
            added,
            changed,
            transition,
        ),
        ConditionKind::Or(l, r) => holds(*l, store, fixed, added, changed, transition) || holds(
            *r,
            store,
            fixed,
            added,
            changed,
            transition,
        ),
    }
}

/// Whether `kind` has a leaf of cursor kind `which` on `id`.
pub open spec fn mentions(kind: ConditionKind, which: CursorKind, id: TypeId) -> bool
    decreases kind,
{
    match kind {
        ConditionKind::ResourceAdded(x) => which is Added && x == id,
        ConditionKind::ResourceChanged(x) => which is Changed && x == id,
        ConditionKind::StateChanged(x) => which is Transition && x == id,
        ConditionKind::And(l, r) => mentions(*l, which, id) || mentions(*r, which, id),
        ConditionKind::Or(l, r) => mentions(*l, which, id) || mentions(*r, which, id),
        _ => false,
    }
}

/// The raw cursor after advancing: the world's tick when `kind` reads it and one is
/// recorded, otherwise the cursor as it was.
pub open spec fn advanced(kind: ConditionKind, which: CursorKind, id: TypeId, current: Option<ChangeTick>, before: u64) -> u64 {
    if mentions(kind, which, id) && current is Some {
        current->0@
    } else {
        before
    }
}

impl Condition {
    /// The condition's shape.
    pub closed spec fn kind(&self) -> ConditionKind {
        self.0
    }

    /// Whether the condition holds for system `index` in `context`.
    pub open spec fn holds_for_system<V: ResourceValue>(
        &self,
        store: ResourceStore<V>,
        index: usize,
        context: RunContext,
    ) -> bool {
        holds(
            self.kind(),
            store,
            context.fixed(),
            |id: TypeId| context.added_cursor(index, id),
            |id: TypeId| context.changed_cursor(index, id),
            |id: TypeId| context.transition_cursor(index, id),
        )
    }

    /// Whether the condition holds for set `index` in `context`.
    pub open spec fn holds_for_set<V: ResourceValue>(
        &self,
        store: ResourceStore<V>,
        index: usize,
        context: RunContext,
    ) -> bool {
        holds(
            self.kind(),
            store,
            context.fixed(),
            |id: TypeId| context.set_added_cursor(index, id),
            |id: TypeId| context.set_changed_cursor(index, id),
            |id: TypeId| context.set_transition_cursor(index, id),
        )
    }

    /// Always true.
    pub fn always() -> (r: Condition)
        ensures
            r.kind() == ConditionKind::Always,
    {
        Condition(ConditionKind::Always)
    }

    /// Always false.
    pub fn never() -> (r: Condition)
        ensures
            r.kind() == ConditionKind::Never,
    {
        Condition(ConditionKind::Never)
    }

    /// True while the resource `type_id` holds a value.
    pub fn resource_exists(type_id: TypeId) -> (r: Condition)
        ensures
            r.kind() == ConditionKind::ResourceExists(type_id),
    {
        Condition(ConditionKind::ResourceExists(type_id))
    }

    /// True when the resource `type_id` was added after the reader last advanced.
    pub fn resource_added(type_id: TypeId) -> (r: Condition)
        ensures
            r.kind() == ConditionKind::ResourceAdded(type_id),
    {
        Condition(ConditionKind::ResourceAdded(type_id))
    }

    /// True when the resource `type_id` changed after the reader last advanced.
    pub fn resource_changed(type_id: TypeId) -> (r: Condition)
        ensures
            r.kind() == ConditionKind::ResourceChanged(type_id),
    {
        Condition(ConditionKind::ResourceChanged(type_id))
    }

    /// True when the state resource `State<S>` committed a transition after the reader last
    /// advanced.
    pub fn state_changed<S: Eq + 'static>() -> (r: Condition)
        ensures
            r.kind() is StateChanged,
    {
        Self::state_changed_of(crate::typeid::type_id_of::<State<S>>())
    }

    /// True when the state resource whose identity is `state_id` committed a transition
    /// after the reader last advanced.
    pub(crate) fn state_changed_of(state_id: TypeId) -> (r: Condition)
        ensures
            r.kind() == ConditionKind::StateChanged(state_id),
    {
        Condition(ConditionKind::StateChanged(state_id))
    }

    /// Both conditions hold.
    pub fn and(self, other: Condition) -> (r: Condition)
        ensures
            r.kind() == ConditionKind::And(Box::new(self.kind()), Box::new(other.kind())),
    {
        Condition(ConditionKind::And(Box::new(self.0), Box::new(other.0)))
    }

    /// Either condition holds.
    pub fn or(self, other: Condition) -> (r: Condition)
        ensures
            r.kind() == ConditionKind::Or(Box::new(self.kind()), Box::new(other.kind())),
    {
        Condition(ConditionKind::Or(Box::new(self.0), Box::new(other.0)))
    }
}

/// Whether `period` is a power of two.
fn power_of_two(period: u64) -> (r: bool)
    ensures
        r == is_power_of_two(period),
{
    let mut k: u64 = 0;
    while k < 64
        invariant
            k <= 64,
            forall|j: u64| j < k ==> period != (1u64 << j),
        decreases 64 - k,
    {
        if period == (1u64 << k) {
            return true;
        }
        k = k + 1;
    }
    false
}

impl Condition {
    /// Runs on one phase of a power-of-two fixed-step cadence: fixed-step indices are
    /// zero-based, so `(8, 0)` includes the first fixed substep. A zero period, a period that
    /// is not a power of two, and a phase not below the period are refused, in that order.
    pub fn fixed_step_mod(period: u64, phase: u64) -> (r: Result<Condition, ConditionError>)
        ensures
            period == 0 ==> r == Err::<Condition, ConditionError>(ConditionError::ZeroPeriod),
            period != 0 && !is_power_of_two(period) ==> r == Err::<Condition, ConditionError>(
                ConditionError::PeriodNotPowerOfTwo { period },
            ),
            period != 0 && is_power_of_two(period) && phase >= period ==> r == Err::<Condition, ConditionError>(
                ConditionError::PhaseOutOfRange { period, phase },
            ),
            period != 0 && is_power_of_two(period) && phase < period ==> (r matches Ok(c) && c.kind()
                == ConditionKind::FixedStepMod { mask: (period - 1) as u64, phase }),
    {
        if period == 0 {
            return Err(ConditionError::ZeroPeriod);
        }
        if !power_of_two(period) {
            return Err(ConditionError::PeriodNotPowerOfTwo { period });
        }
        if phase >= period {
            return Err(ConditionError::PhaseOutOfRange { period, phase });
        }
        Ok(Condition(ConditionKind::FixedStepMod { mask: period - 1, phase }))
    }
}

/// `current` is strictly after `cursor`.
pub fn resource_tick_advanced(current: Option<ChangeTick>, cursor: ChangeTick) -> (r: bool)
    ensures
        r == tick_advanced(current, cursor@),
{
    match current {
        Some(tick) => tick.is_after(&cursor),
        None => false,
    }
}

/// `current` is strictly after `cursor`.
pub fn state_tick_advanced(current: Option<ChangeTick>, cursor: ChangeTick) -> (r: bool)
    ensures
        r == tick_advanced(current, cursor@),
{
    match current {
        Some(tick) => tick.is_after(&cursor),
        None => false,
    }
}


/// Evaluates `kind` for system `index`.
fn evaluate_kind<V: ResourceValue>(
    kind: &ConditionKind,
    store: &ResourceStore<V>,
    index: usize,
    context: &RunContext,
) -> (r: bool)
    requires
        store.wf(),
        context.wf(),
    ensures
        r == holds(
            *kind,
            *store,
            context.fixed(),
            |id: TypeId| context.added_cursor(index, id),
            |id: TypeId| context.changed_cursor(index, id),
            |id: TypeId| context.transition_cursor(index, id),
        ),
    decreases kind,
{
    match kind {
        ConditionKind::Always => true,
        ConditionKind::Never => false,
        ConditionKind::ResourceExists(id) => store.contains_type(*id),
        ConditionKind::ResourceAdded(id) => {
            let current = match store.entry_for(*id) {
                Some(e) => Some(e.added),
                None => None,
            };
            resource_tick_advanced(current, context.resource_added_cursor(index, *id))
        },
        ConditionKind::ResourceChanged(id) => {
            let current = match store.entry_for(*id) {
                Some(e) => Some(e.changed),
                None => None,
            };
            resource_tick_advanced(current, context.resource_changed_cursor(index, *id))
        },
        ConditionKind::StateChanged(id) => {
            let current = match store.entry_for(*id) {
                Some(e) => e.value.transition_tick_of(),
                None => None,
            };
            state_tick_advanced(current, context.state_transition_cursor(index, *id))
        },
        ConditionKind::FixedStepMod { mask, phase } => match context.fixed_step() {
            Some(step) => (step.index & *mask) == *phase,
            None => false,
        },
        ConditionKind::And(l, r) => evaluate_kind(l, store, index, context) && evaluate_kind(
            r,
            store,
            index,
            context,
        ),
        ConditionKind::Or(l, r) => evaluate_kind(l, store, index, context) || evaluate_kind(
            r,
            store,
            index,
            context,
        ),
    }
}

/// Evaluates `kind` for set `index`.
fn evaluate_kind_for_set<V: ResourceValue>(
    kind: &ConditionKind,
    store: &ResourceStore<V>,
    index: usize,
    context: &RunContext,
) -> (r: bool)
    requires
        store.wf(),
        context.wf(),
    ensures
        r == holds(
            *kind,
            *store,
            context.fixed(),
            |id: TypeId| context.set_added_cursor(index, id),
            |id: TypeId| context.set_changed_cursor(index, id),
            |id: TypeId| context.set_transition_cursor(index, id),
        ),
    decreases kind,
{
    match kind {
        ConditionKind::Always => true,
        ConditionKind::Never => false,
        ConditionKind::ResourceExists(id) => store.contains_type(*id),
        ConditionKind::ResourceAdded(id) => {
            let current = match store.entry_for(*id) {
                Some(e) => Some(e.added),
                None => None,
            };
            resource_tick_advanced(current, context.resource_added_cursor_for_set(index, *id))
        },
        ConditionKind::ResourceChanged(id) => {
            let current = match store.entry_for(*id) {
                Some(e) => Some(e.changed),
                None => None,
            };
            resource_tick_advanced(current, context.resource_changed_cursor_for_set(index, *id))
        },
        ConditionKind::StateChanged(id) => {
            let current = match store.entry_for(*id) {
                Some(e) => e.value.transition_tick_of(),
                None => None,
            };
            state_tick_advanced(current, context.state_transition_cursor_for_set(index, *id))
        },
        ConditionKind::FixedStepMod { mask, phase } => match context.fixed_step() {
            Some(step) => (step.index & *mask) == *phase,
            None => false,
        },
        ConditionKind::And(l, r) => evaluate_kind_for_set(l, store, index, context) && evaluate_kind_for_set(
            r,
            store,
            index,
            context,
        ),
        ConditionKind::Or(l, r) => evaluate_kind_for_set(l, store, index, context) || evaluate_kind_for_set(
            r,
            store,
            index,
            context,
        ),
    }
}

/// Moves the system cursors of `index` read by `kind` up to the world's current ticks.
fn advance_kind_cursors<V: ResourceValue>(
    kind: &ConditionKind,
    store: &ResourceStore<V>,
    index: usize,
    context: &mut RunContext,
)
    requires
        store.wf(),
        old(context).wf(),
    ensures
        final(context).wf(),
        final(context).fixed() == old(context).fixed(),
        final(context).gates() == old(context).gates(),
        forall|id: TypeId| #[trigger] final(context).added_cursor(index, id) == advanced(
            *kind,
            CursorKind::Added,
            id,
            added_of(*store, id),
            old(context).added_cursor(index, id),
        ),
        forall|id: TypeId| #[trigger] final(context).changed_cursor(index, id) == advanced(
            *kind,
            CursorKind::Changed,
            id,
            changed_of(*store, id),
            old(context).changed_cursor(index, id),
        ),
        forall|id: TypeId| #[trigger] final(context).transition_cursor(index, id) == advanced(
            *kind,
            CursorKind::Transition,
            id,
            transition_of(*store, id),
            old(context).transition_cursor(index, id),
        ),
        forall|i: usize, id: TypeId| i != index ==> #[trigger] final(context).added_cursor(i, id) == old(context).added_cursor(i, id),
        forall|i: usize, id: TypeId| i != index ==> #[trigger] final(context).changed_cursor(i, id) == old(context).changed_cursor(i, id),
        forall|i: usize, id: TypeId| i != index ==> #[trigger] final(context).transition_cursor(i, id) == old(context).transition_cursor(i, id),
        forall|i: usize, id: TypeId| #[trigger] final(context).set_added_cursor(i, id) == old(context).set_added_cursor(i, id),
        forall|i: usize, id: TypeId| #[trigger] final(context).set_changed_cursor(i, id) == old(context).set_changed_cursor(i, id),
        forall|i: usize, id: TypeId| #[trigger] final(context).set_transition_cursor(i, id) == old(context).set_transition_cursor(i, id),
    decreases kind,
{
    match kind {
        ConditionKind::ResourceAdded(id) => {
            if let Some(e) = store.entry_for(*id) {
                context.set_resource_added_cursor(index, *id, e.added);
            }
        },
        ConditionKind::ResourceChanged(id) => {
            if let Some(e) = store.entry_for(*id) {
                context.set_resource_changed_cursor(index, *id, e.changed);
            }
        },
        ConditionKind::StateChanged(id) => {
            let current = match store.entry_for(*id) {
                Some(e) => e.value.transition_tick_of(),
                None => None,
            };
            if let Some(tick) = current {
                context.set_state_transition_cursor(index, *id, tick);
            }
        },
        ConditionKind::And(l, r) => {
            advance_kind_cursors(l, store, index, context);
            advance_kind_cursors(r, store, index, context);
        },
        ConditionKind::Or(l, r) => {
            advance_kind_cursors(l, store, index, context);
            advance_kind_cursors(r, store, index, context);
        },
        _ => {},
    }
}

/// Moves the set cursors of `index` read by `kind` up to the world's current ticks.
fn advance_kind_set_cursors<V: ResourceValue>(
    kind: &ConditionKind,
    store: &ResourceStore<V>,
    index: usize,
    context: &mut RunContext,
)
    requires
        store.wf(),
        old(context).wf(),
    ensures
        final(context).wf(),
        final(context).fixed() == old(context).fixed(),
        final(context).gates() == old(context).gates(),
        forall|id: TypeId| #[trigger] final(context).set_added_cursor(index, id) == advanced(
            *kind,
            CursorKind::Added,
            id,
            added_of(*store, id),
            old(context).set_added_cursor(index, id),
        ),
        forall|id: TypeId| #[trigger] final(context).set_changed_cursor(index, id) == advanced(
            *kind,
            CursorKind::Changed,
            id,
            changed_of(*store, id),
            old(context).set_changed_cursor(index, id),
        ),
        forall|id: TypeId| #[trigger] final(context).set_transition_cursor(index, id) == advanced(
            *kind,
            CursorKind::Transition,
            id,
            transition_of(*store, id),
            old(context).set_transition_cursor(index, id),
        ),
        forall|i: usize, id: TypeId| i != index ==> #[trigger] final(context).set_added_cursor(i, id) == old(context).set_added_cursor(i, id),
        forall|i: usize, id: TypeId| i != index ==> #[trigger] final(context).set_changed_cursor(i, id) == old(context).set_changed_cursor(i, id),
        forall|i: usize, id: TypeId| i != index ==> #[trigger] final(context).set_transition_cursor(i, id) == old(context).set_transition_cursor(i, id),
        forall|i: usize, id: TypeId| #[trigger] final(context).added_cursor(i, id) == old(context).added_cursor(i, id),
        forall|i: usize, id: TypeId| #[trigger] final(context).changed_cursor(i, id) == old(context).changed_cursor(i, id),
        forall|i: usize, id: TypeId| #[trigger] final(context).transition_cursor(i, id) == old(context).transition_cursor(i, id),
    decreases kind,
{
    match kind {
        ConditionKind::ResourceAdded(id) => {
            if let Some(e) = store.entry_for(*id) {
                context.set_resource_added_cursor_for_set(index, *id, e.added);
            }
        },
        ConditionKind::ResourceChanged(id) => {
            if let Some(e) = store.entry_for(*id) {
                context.set_resource_changed_cursor_for_set(index, *id, e.changed);
            }
        },
        ConditionKind::StateChanged(id) => {
            let current = match store.entry_for(*id) {
                Some(e) => e.value.transition_tick_of(),
                None => None,
            };
            if let Some(tick) = current {
                context.set_state_transition_cursor_for_set(index, *id, tick);
            }
        },
        ConditionKind::And(l, r) => {
            advance_kind_set_cursors(l, store, index, context);
            advance_kind_set_cursors(r, store, index, context);
        },
        ConditionKind::Or(l, r) => {
            advance_kind_set_cursors(l, store, index, context);
            advance_kind_set_cursors(r, store, index, context);
        },
        _ => {},
    }
}

impl Condition {
    /// Whether the condition holds for system `system_index`.
    pub fn evaluate<V: ResourceValue>(&self, store: &ResourceStore<V>, system_index: usize, context: &RunContext) -> (r: bool)
        requires
            store.wf(),
            context.wf(),
        ensures
            r == self.holds_for_system(*store, system_index, *context),
    {
        evaluate_kind(&self.0, store, system_index, context)
    }

    /// Whether the condition holds for set `set_index`.
    pub fn evaluate_for_set<V: ResourceValue>(&self, store: &ResourceStore<V>, set_index: usize, context: &RunContext) -> (r: bool)
        requires
            store.wf(),
            context.wf(),
        ensures
            r == self.holds_for_set(*store, set_index, *context),
    {
        evaluate_kind_for_set(&self.0, store, set_index, context)
    }

    /// Moves the cursors of system `system_index` that this condition reads up to the
    /// world's current ticks; absent ticks leave their cursors as they are.
    pub fn advance_cursors<V: ResourceValue>(&self, store: &ResourceStore<V>, system_index: usize, context: &mut RunContext)
        requires
            store.wf(),
            old(context).wf(),
        ensures
            final(context).wf(),
            final(context).fixed() == old(context).fixed(),
            final(context).gates() == old(context).gates(),
            forall|id: TypeId| #[trigger] final(context).added_cursor(system_index, id) == advanced(
                self.kind(), CursorKind::Added, id, added_of(*store, id), old(context).added_cursor(system_index, id)),
            forall|id: TypeId| #[trigger] final(context).changed_cursor(system_index, id) == advanced(
                self.kind(), CursorKind::Changed, id, changed_of(*store, id), old(context).changed_cursor(system_index, id)),
            forall|id: TypeId| #[trigger] final(context).transition_cursor(system_index, id) == advanced(
                self.kind(), CursorKind::Transition, id, transition_of(*store, id), old(context).transition_cursor(system_index, id)),
            forall|i: usize, id: TypeId| i != system_index ==> #[trigger] final(context).added_cursor(i, id) == old(context).added_cursor(i, id),
            forall|i: usize, id: TypeId| i != system_index ==> #[trigger] final(context).changed_cursor(i, id) == old(context).changed_cursor(i, id),
            forall|i: usize, id: TypeId| i != system_index ==> #[trigger] final(context).transition_cursor(i, id) == old(context).transition_cursor(i, id),
            forall|i: usize, id: TypeId| #[trigger] final(context).set_added_cursor(i, id) == old(context).set_added_cursor(i, id),
            forall|i: usize, id: TypeId| #[trigger] final(context).set_changed_cursor(i, id) == old(context).set_changed_cursor(i, id),
            forall|i: usize, id: TypeId| #[trigger] final(context).set_transition_cursor(i, id) == old(context).set_transition_cursor(i, id),
    {
        advance_kind_cursors(&self.0, store, system_index, context)
    }

    /// Moves the cursors of set `set_index` that this condition reads up to the world's
    /// current ticks; absent ticks leave their cursors as they are.
    pub fn advance_set_cursors<V: ResourceValue>(&self, store: &ResourceStore<V>, set_index: usize, context: &mut RunContext)
        requires
            store.wf(),
            old(context).wf(),
        ensures
            final(context).wf(),
            final(context).fixed() == old(context).fixed(),
            final(context).gates() == old(context).gates(),
            forall|id: TypeId| #[trigger] final(context).set_added_cursor(set_index, id) == advanced(
                self.kind(), CursorKind::Added, id, added_of(*store, id), old(context).set_added_cursor(set_index, id)),
            forall|id: TypeId| #[trigger] final(context).set_changed_cursor(set_index, id) == advanced(
                self.kind(), CursorKind::Changed, id, changed_of(*store, id), old(context).set_changed_cursor(set_index, id)),
            forall|id: TypeId| #[trigger] final(context).set_transition_cursor(set_index, id) == advanced(
                self.kind(), CursorKind::Transition, id, transition_of(*store, id), old(context).set_transition_cursor(set_index, id)),
            forall|i: usize, id: TypeId| i != set_index ==> #[trigger] final(context).set_added_cursor(i, id) == old(context).set_added_cursor(i, id),
            forall|i: usize, id: TypeId| i != set_index ==> #[trigger] final(context).set_changed_cursor(i, id) == old(context).set_changed_cursor(i, id),
            forall|i: usize, id: TypeId| i != set_index ==> #[trigger] final(context).set_transition_cursor(i, id) == old(context).set_transition_cursor(i, id),
            forall|i: usize, id: TypeId| #[trigger] final(context).added_cursor(i, id) == old(context).added_cursor(i, id),
            forall|i: usize, id: TypeId| #[trigger] final(context).changed_cursor(i, id) == old(context).changed_cursor(i, id),
            forall|i: usize, id: TypeId| #[trigger] final(context).transition_cursor(i, id) == old(context).transition_cursor(i, id),
    {
        advance_kind_set_cursors(&self.0, store, set_index, context)
    }
}


/// A fixed-step cadence of period `2^k` and phase `phase` holds at substep `index` exactly
/// when `index` leaves remainder `phase` modulo the period.
pub proof fn law_cadence_is_remainder(k: u64, phase: u64, index: u64)
    requires
        k < 64,
        phase < (1u64 << k),
    ensures
        ((index & (((1u64 << k) - 1) as u64)) == phase) == (index % (1u64 << k) == phase),
{
    vstd::bits::lemma_u64_pow2_no_overflow(k as nat);
    vstd::bits::lemma_u64_shl_is_mul(1u64, k);
    vstd::bits::lemma_u64_low_bits_mask_is_mod(index, k as nat);
    assert((1u64 << k) == vstd::arithmetic::power2::pow2(k as nat));
}

/// The combinators behave as logic: `always().or(x)` holds and `never().and(x)` fails
/// whatever `x` is; `x.or(never())` and `x.and(always())` hold exactly when `x` does; and
/// `or` and `and` do not depend on the order of their operands.
pub proof fn law_combinators<V: ResourceValue>(
    l: ConditionKind,
    r: ConditionKind,
    store: ResourceStore<V>,
    fixed: Option<FixedStep>,
    added: spec_fn(TypeId) -> u64,
    changed: spec_fn(TypeId) -> u64,
    transition: spec_fn(TypeId) -> u64,
)
    ensures
        holds(ConditionKind::Or(Box::new(ConditionKind::Always), Box::new(r)), store, fixed, added, changed, transition),
        !holds(ConditionKind::And(Box::new(ConditionKind::Never), Box::new(r)), store, fixed, added, changed, transition),
        holds(ConditionKind::Or(Box::new(l), Box::new(ConditionKind::Never)), store, fixed, added, changed, transition)
            == holds(l, store, fixed, added, changed, transition),
        holds(ConditionKind::And(Box::new(l), Box::new(ConditionKind::Always)), store, fixed, added, changed, transition)
            == holds(l, store, fixed, added, changed, transition),
        holds(ConditionKind::Or(Box::new(l), Box::new(r)), store, fixed, added, changed, transition) == holds(
            ConditionKind::Or(Box::new(r), Box::new(l)),
            store,
            fixed,
            added,
            changed,
            transition,
        ),
        holds(ConditionKind::And(Box::new(l), Box::new(r)), store, fixed, added, changed, transition) == holds(
            ConditionKind::And(Box::new(r), Box::new(l)),
            store,
            fixed,
            added,
            changed,
            transition,
        ),
{
    reveal_with_fuel(holds, 2);
}

/// Right after a reader's cursor is advanced over a temporal leaf, the leaf reads as
/// quiet: it cannot hold again until the world records a later tick.
pub proof fn law_advance_quiets(kind: ConditionKind, which: CursorKind, id: TypeId, current: Option<ChangeTick>, before: u64)
    requires
        mentions(kind, which, id),
    ensures
        !tick_advanced(current, advanced(kind, which, id, current, before)) || (current is None && tick_advanced(
            current,
            before,
        )),
{
}

} // verus!
