//! System descriptors, handles and sets.
use vstd::prelude::*;

use core::any::TypeId;

use crate::schedule::condition::Condition;
use crate::schedule::error::ScheduleError;
use crate::text::string_views;
use crate::typeid::same_type_id;
use crate::schedule::owner::ScheduleOwner;
use crate::resource::store::ResourceStore;
use crate::world::{fails_scoped, fails_unregistered, WorldError};

verus! {

/// When deferred structural commands become visible during Update.
#[derive(Copy, Clone, Debug, Eq, PartialEq, Structural)]
pub enum FlushMode {
    Final,
    Stage,
    AfterSystem,
}

impl FlushMode {
    /// The variant's name, as `Debug` prints it.
    pub fn name(&self) -> (r: &'static str)
        ensures
            r@ == crate::schedule::error::flush_mode_name(*self),
    {
        match self {
            FlushMode::Final => "Final",
            FlushMode::Stage => "Stage",
            FlushMode::AfterSystem => "AfterSystem",
        }
    }
}

/// Opaque compiled system handle.
#[derive(Clone)]
pub struct SystemId {
    owner: ScheduleOwner,
    index: u32,
    generation: u32,
}

impl SystemId {
    /// Position of the system in its schedule.
    pub closed spec fn spec_index(&self) -> u32 {
        self.index
    }

    /// Schedule generation the handle was issued for.
    pub closed spec fn spec_generation(&self) -> u32 {
        self.generation
    }

    /// Handle for system `index` of generation `generation` of the schedule `owner`.
    pub fn new(owner: ScheduleOwner, index: u32, generation: u32) -> (r: SystemId)
        ensures
            r.spec_index() == index,
            r.spec_generation() == generation,
    {
        SystemId { owner, index, generation }
    }

    /// Position of the system in its schedule.
    pub fn index(&self) -> (r: usize)
        ensures
            r == self.spec_index(),
    {
        self.index as usize
    }

    /// Another handle for the same system of the same schedule.
    pub(crate) fn duplicate(&self) -> (r: SystemId)
        ensures
            r.spec_index() == self.spec_index(),
            r.spec_generation() == self.spec_generation(),
    {
        SystemId { owner: self.owner.clone(), index: self.index, generation: self.generation }
    }

    /// Checks that the handle was issued by `owner` (`OwnerMismatch` otherwise) and for
    /// `generation` (`StaleHandle` otherwise), the owner first. Which owner issued a handle is
    /// allocation identity, which is not modelled: the result is [`check_system_handle`]
    /// for the answer of the owner comparison, whichever it was.
    pub fn validate_owner(&self, owner: &ScheduleOwner, generation: u32) -> (r: Result<(), ScheduleError>)
        ensures
            exists|owner_matches: bool| r == #[trigger] system_handle_result(owner_matches, self.spec_generation(), generation),
            r matches Err(e) ==> (e == ScheduleError::OwnerMismatch || (e == ScheduleError::StaleHandle
                && self.spec_generation() != generation)),
            r is Ok ==> self.spec_generation() == generation,
    {
        let owner_matches = self.owner.same(owner);
        let r = check_system_handle(owner_matches, self.generation, generation);
        proof {
            assert(r == system_handle_result(owner_matches, self.spec_generation(), generation));
        }
        r
    }
}

/// What checking a system handle gives when the owner comparison answered `owner_matches`:
/// `OwnerMismatch` for another schedule, else `StaleHandle` for another generation, else
/// `Ok`.
pub open spec fn system_handle_result(owner_matches: bool, handle_generation: u32, generation: u32) -> Result<
    (),
    ScheduleError,
> {
    if !owner_matches {
        Err(ScheduleError::OwnerMismatch)
    } else if handle_generation != generation {
        Err(ScheduleError::StaleHandle)
    } else {
        Ok(())
    }
}

/// Checks a system handle of generation `handle_generation` against a schedule of
/// generation `generation`, given whether the handle's owner is that schedule.
pub fn check_system_handle(owner_matches: bool, handle_generation: u32, generation: u32) -> (r: Result<(), ScheduleError>)
    ensures
        r == system_handle_result(owner_matches, handle_generation, generation),
{
    if !owner_matches {
        return Err(ScheduleError::OwnerMismatch);
    }
    if handle_generation != generation {
        return Err(ScheduleError::StaleHandle);
    }
    Ok(())
}

/// Authoring-time system-set label.
#[derive(Clone, Debug, Eq, PartialEq)]
pub struct SystemSet {
    label: String,
}

impl SystemSet {
    /// The set's label.
    pub closed spec fn spec_label(&self) -> Seq<char> {
        self.label@
    }

    /// Set labelled `label`.
    pub fn new(label: &str) -> (r: SystemSet)
        ensures
            r.spec_label() == label@,
    {
        SystemSet { label: label.to_owned() }
    }

    /// The set's label.
    pub fn label(&self) -> (r: &str)
        ensures
            r@ == self.spec_label(),
    {
        self.label.as_str()
    }
}

/// How a system takes part in an event channel.
#[derive(Copy, Clone, Debug, Eq, PartialEq, Structural)]
pub enum EventRoleKind {
    Emits,
    Consumes,
    ConsumesOnAdd,
    ConsumesOnRemove,
}

/// A declared event role: the event type, its display name, and the role.
#[derive(Clone, Debug)]
pub struct EventRole {
    pub type_id: TypeId,
    pub event_name: String,
    pub kind: EventRoleKind,
}

/// Checked system descriptor with a required body of type `B`.
pub struct System<B> {
    name: String,
    stage_label: String,
    body: B,
    enabled: bool,
    flush_mode: FlushMode,
    before: Vec<String>,
    after: Vec<String>,
    before_sets: Vec<String>,
    after_sets: Vec<String>,
    in_set: Option<String>,
    conditions: Vec<Condition>,
    required_resources: Vec<TypeId>,
    event_roles: Vec<EventRole>,
}

/// The label of an optional set membership, as a view.
pub open spec fn label_view(label: Option<String>) -> Option<Seq<char>> {
    match label {
        Some(l) => Some(l@),
        None => None,
    }
}

impl<B> System<B> {
    /// The system's unique label.
    pub closed spec fn spec_name(&self) -> Seq<char> {
        self.name@
    }

    /// Label of the stage the system runs in.
    pub closed spec fn spec_stage(&self) -> Seq<char> {
        self.stage_label@
    }

    /// The body.
    pub closed spec fn spec_body(&self) -> B {
        self.body
    }

    /// Whether the system starts enabled.
    pub closed spec fn spec_enabled(&self) -> bool {
        self.enabled
    }

    /// Requested flush mode.
    pub closed spec fn spec_flush_mode(&self) -> FlushMode {
        self.flush_mode
    }

    /// Systems this one must run before.
    pub closed spec fn spec_before(&self) -> Seq<Seq<char>> {
        string_views(self.before@)
    }

    /// Systems this one must run after.
    pub closed spec fn spec_after(&self) -> Seq<Seq<char>> {
        string_views(self.after@)
    }

    /// Sets this one must run before.
    pub closed spec fn spec_before_sets(&self) -> Seq<Seq<char>> {
        string_views(self.before_sets@)
    }

    /// Sets this one must run after.
    pub closed spec fn spec_after_sets(&self) -> Seq<Seq<char>> {
        string_views(self.after_sets@)
    }

    /// The set the system belongs to, if any.
    pub closed spec fn spec_in_set(&self) -> Option<Seq<char>> {
        label_view(self.in_set)
    }

    /// Run conditions, all of which must hold.
    pub closed spec fn spec_conditions(&self) -> Seq<Condition> {
        self.conditions@
    }

    /// Resources that must be present when the schedule is built.
    pub closed spec fn spec_required(&self) -> Seq<TypeId> {
        self.required_resources@
    }

    /// Declared event roles.
    pub closed spec fn spec_roles(&self) -> Seq<EventRole> {
        self.event_roles@
    }

    /// Every part other than those a builder step changes is that of `other`.
    pub open spec fn same_except(
        &self,
        other: &Self,
        before: bool,
        after: bool,
        before_sets: bool,
        after_sets: bool,
        in_set: bool,
        conditions: bool,
        required: bool,
        roles: bool,
        flush: bool,
        enabled: bool,
    ) -> bool {
        &&& self.spec_name() == other.spec_name()
        &&& self.spec_stage() == other.spec_stage()
        &&& self.spec_body() == other.spec_body()
        &&& (!enabled ==> self.spec_enabled() == other.spec_enabled())
        &&& (!flush ==> self.spec_flush_mode() == other.spec_flush_mode())
        &&& (!before ==> self.spec_before() == other.spec_before())
        &&& (!after ==> self.spec_after() == other.spec_after())
        &&& (!before_sets ==> self.spec_before_sets() == other.spec_before_sets())
        &&& (!after_sets ==> self.spec_after_sets() == other.spec_after_sets())
        &&& (!in_set ==> self.spec_in_set() == other.spec_in_set())
        &&& (!conditions ==> self.spec_conditions() == other.spec_conditions())
        &&& (!required ==> self.spec_required() == other.spec_required())
        &&& (!roles ==> self.spec_roles() == other.spec_roles())
    }

    /// A system named `name` in stage `stage` running `body`: enabled, final flush, with no
    /// ordering, set, condition, resource or event declaration.
    pub fn new(name: &str, stage: &str, body: B) -> (r: System<B>)
        ensures
            r.spec_name() == name@,
            r.spec_stage() == stage@,
            r.spec_body() == body,
            r.spec_enabled(),
            r.spec_flush_mode() == FlushMode::Final,
            r.spec_before() == Seq::<Seq<char>>::empty(),
            r.spec_after() == Seq::<Seq<char>>::empty(),
            r.spec_before_sets() == Seq::<Seq<char>>::empty(),
            r.spec_after_sets() == Seq::<Seq<char>>::empty(),
            r.spec_in_set() is None,
            r.spec_conditions() == Seq::<Condition>::empty(),
            r.spec_required() == Seq::<TypeId>::empty(),
            r.spec_roles() == Seq::<EventRole>::empty(),
    {
        let r = System {
            name: name.to_owned(),
            stage_label: stage.to_owned(),
            body,
            enabled: true,
            flush_mode: FlushMode::Final,
            before: Vec::new(),
            after: Vec::new(),
            before_sets: Vec::new(),
            after_sets: Vec::new(),
            in_set: None,
            conditions: Vec::new(),
            required_resources: Vec::new(),
            event_roles: Vec::new(),
        };
        proof {
            assert(r.spec_before() =~= Seq::<Seq<char>>::empty());
            assert(r.spec_after() =~= Seq::<Seq<char>>::empty());
            assert(r.spec_before_sets() =~= Seq::<Seq<char>>::empty());
            assert(r.spec_after_sets() =~= Seq::<Seq<char>>::empty());
        }
        r
    }

    /// Orders this system before the system labelled `label`.
    pub fn before(self, label: &str) -> (r: System<B>)
        ensures
            r.spec_before() == self.spec_before().push(label@),
            r.same_except(&self, true, false, false, false, false, false, false, false, false, false),
    {
        let mut s = self;
        s.before.push(label.to_owned());
        proof {
            assert(s.spec_before() =~= self.spec_before().push(label@));
        }
        s
    }

    /// Orders this system after the system labelled `label`.
    pub fn after(self, label: &str) -> (r: System<B>)
        ensures
            r.spec_after() == self.spec_after().push(label@),
            r.same_except(&self, false, true, false, false, false, false, false, false, false, false),
    {
        let mut s = self;
        s.after.push(label.to_owned());
        proof {
            assert(s.spec_after() =~= self.spec_after().push(label@));
        }
        s
    }

    /// Orders this system before every member of `set`.
    pub fn before_set(self, set: &SystemSet) -> (r: System<B>)
        ensures
            r.spec_before_sets() == self.spec_before_sets().push(set.spec_label()),
            r.same_except(&self, false, false, true, false, false, false, false, false, false, false),
    {
        let mut s = self;
        s.before_sets.push(set.label.clone());
        proof {
            assert(s.spec_before_sets() =~= self.spec_before_sets().push(set.spec_label()));
        }
        s
    }

    /// Orders this system after every member of `set`.
    pub fn after_set(self, set: &SystemSet) -> (r: System<B>)
        ensures
            r.spec_after_sets() == self.spec_after_sets().push(set.spec_label()),
            r.same_except(&self, false, false, false, true, false, false, false, false, false, false),
    {
        let mut s = self;
        s.after_sets.push(set.label.clone());
        proof {
            assert(s.spec_after_sets() =~= self.spec_after_sets().push(set.spec_label()));
        }
        s
    }

    /// Makes this system a member of `set`, replacing an earlier membership.
    pub fn in_set(self, set: &SystemSet) -> (r: System<B>)
        ensures
            r.spec_in_set() == Some(set.spec_label()),
            r.same_except(&self, false, false, false, false, true, false, false, false, false, false),
    {
        let mut s = self;
        s.in_set = Some(set.label.clone());
        s
    }

    /// Adds a run condition; all conditions must hold for the system to run.
    pub fn run_if(self, condition: Condition) -> (r: System<B>)
        ensures
            r.spec_conditions() == self.spec_conditions().push(condition),
            r.same_except(&self, false, false, false, false, false, true, false, false, false, false),
    {
        let mut s = self;
        s.conditions.push(condition);
        s
    }

    /// Requires the resource `type_id` to be present when the schedule is built.
    pub fn requires_resource(self, type_id: TypeId) -> (r: System<B>)
        ensures
            r.spec_required() == self.spec_required().push(type_id),
            r.same_except(&self, false, false, false, false, false, false, true, false, false, false),
    {
        let mut s = self;
        s.required_resources.push(type_id);
        s
    }

    /// Whether a role of `kind` on `type_id` is already declared.
    fn has_role(&self, type_id: &TypeId, kind: EventRoleKind) -> (r: bool)
        ensures
            r == exists|i: int| 0 <= i < self.spec_roles().len() && #[trigger] self.spec_roles()[i].type_id == *type_id
                && self.spec_roles()[i].kind == kind,
    {
        let mut i: usize = 0;
        while i < self.event_roles.len()
            invariant
                i <= self.event_roles@.len(),
                forall|j: int| 0 <= j < i ==> !(self.event_roles@[j].type_id == *type_id && self.event_roles@[j].kind == kind),
            decreases self.event_roles@.len() - i,
        {
            let role = &self.event_roles[i];
            if same_type_id(&role.type_id, type_id) && role.kind == kind {
                return true;
            }
            i = i + 1;
        }
        false
    }

    /// Declares a role of `kind` on the event `type_id`, named `name`; a role already
    /// declared for the same type and kind is kept as it is.
    fn push_event_role(&mut self, type_id: TypeId, name: &str, kind: EventRoleKind)
        ensures
            final(self).same_except(&*old(self), false, false, false, false, false, false, false, true, false, false),
            (exists|i: int| 0 <= i < old(self).spec_roles().len() && #[trigger] old(self).spec_roles()[i].type_id == type_id
                && old(self).spec_roles()[i].kind == kind) ==> final(self).spec_roles() == old(self).spec_roles(),
            !(exists|i: int| 0 <= i < old(self).spec_roles().len() && #[trigger] old(self).spec_roles()[i].type_id == type_id
                && old(self).spec_roles()[i].kind == kind) ==> {
                &&& final(self).spec_roles().len() == old(self).spec_roles().len() + 1
                &&& final(self).spec_roles().drop_last() == old(self).spec_roles()
                &&& final(self).spec_roles().last().type_id == type_id
                &&& final(self).spec_roles().last().event_name@ == name@
                &&& final(self).spec_roles().last().kind == kind
            },
    {
        if self.has_role(&type_id, kind) {
            return;
        }
        self.event_roles.push(EventRole { type_id, event_name: name.to_owned(), kind });
        proof {
            assert(self.spec_roles().drop_last() =~= old(self).spec_roles());
        }
    }

    /// Declares that this system may send events of type `event`, named `name`.
    pub fn emits(self, event: TypeId, name: &str) -> (r: System<B>)
        ensures
            r.same_except(&self, false, false, false, false, false, false, false, true, false, false),
            self.role_declared(r.spec_roles(), event, name@, EventRoleKind::Emits),
    {
        let mut s = self;
        s.push_event_role(event, name, EventRoleKind::Emits);
        s
    }

    /// Declares that this system may read events of type `event`, named `name`.
    pub fn consumes(self, event: TypeId, name: &str) -> (r: System<B>)
        ensures
            r.same_except(&self, false, false, false, false, false, false, false, true, false, false),
            self.role_declared(r.spec_roles(), event, name@, EventRoleKind::Consumes),
    {
        let mut s = self;
        s.push_event_role(event, name, EventRoleKind::Consumes);
        s
    }

    /// Declares that this system consumes the added lifecycle channel of component `component`.
    pub fn consumes_on_add(self, component: TypeId, name: &str) -> (r: System<B>)
        ensures
            r.same_except(&self, false, false, false, false, false, false, false, true, false, false),
            self.role_declared(r.spec_roles(), component, name@, EventRoleKind::ConsumesOnAdd),
    {
        let mut s = self;
        s.push_event_role(component, name, EventRoleKind::ConsumesOnAdd);
        s
    }

    /// Declares that this system consumes the removed lifecycle channel of component `component`.
    pub fn consumes_on_remove(self, component: TypeId, name: &str) -> (r: System<B>)
        ensures
            r.same_except(&self, false, false, false, false, false, false, false, true, false, false),
            self.role_declared(r.spec_roles(), component, name@, EventRoleKind::ConsumesOnRemove),
    {
        let mut s = self;
        s.push_event_role(component, name, EventRoleKind::ConsumesOnRemove);
        s
    }

    /// Sets the flush mode.
    pub fn flush_mode(self, mode: FlushMode) -> (r: System<B>)
        ensures
            r.spec_flush_mode() == mode,
            r.same_except(&self, false, false, false, false, false, false, false, false, true, false),
    {
        let mut s = self;
        s.flush_mode = mode;
        s
    }

    /// Flushes deferred commands right after this system runs.
    pub fn flush_after(self) -> (r: System<B>)
        ensures
            r.spec_flush_mode() == FlushMode::AfterSystem,
            r.same_except(&self, false, false, false, false, false, false, false, false, true, false),
    {
        let mut s = self;
        s.flush_mode = FlushMode::AfterSystem;
        s
    }

    /// Starts the system disabled.
    pub fn disabled(self) -> (r: System<B>)
        ensures
            !r.spec_enabled(),
            r.same_except(&self, false, false, false, false, false, false, false, false, false, true),
    {
        let mut s = self;
        s.enabled = false;
        s
    }

    /// The system's label.
    pub fn name(&self) -> (r: &str)
        ensures
            r@ == self.spec_name(),
    {
        self.name.as_str()
    }

    /// Systems this one must run before.
    pub fn before_labels(&self) -> (r: &Vec<String>)
        ensures
            string_views(r@) == self.spec_before(),
    {
        &self.before
    }

    /// Systems this one must run after.
    pub fn after_labels(&self) -> (r: &Vec<String>)
        ensures
            string_views(r@) == self.spec_after(),
    {
        &self.after
    }

    /// Sets this one must run before.
    pub fn before_set_labels(&self) -> (r: &Vec<String>)
        ensures
            string_views(r@) == self.spec_before_sets(),
    {
        &self.before_sets
    }

    /// Sets this one must run after.
    pub fn after_set_labels(&self) -> (r: &Vec<String>)
        ensures
            string_views(r@) == self.spec_after_sets(),
    {
        &self.after_sets
    }

    /// The set the system belongs to, if any.
    pub fn in_set_label(&self) -> (r: Option<&str>)
        ensures
            match self.spec_in_set() {
                Some(l) => r matches Some(x) && x@ == l,
                None => r is None,
            },
    {
        match &self.in_set {
            Some(l) => Some(l.as_str()),
            None => None,
        }
    }

    /// Whether the system starts enabled.
    pub fn enabled(&self) -> (r: bool)
        ensures
            r == self.spec_enabled(),
    {
        self.enabled
    }

    /// Resources that must be present when the schedule is built.
    pub fn required_resources(&self) -> (r: &Vec<TypeId>)
        ensures
            r@ == self.spec_required(),
    {
        &self.required_resources
    }

    /// The body and the run conditions, moved out.
    pub fn into_parts(self) -> (r: (B, Vec<Condition>))
        ensures
            r.0 == self.spec_body(),
            r.1@ == self.spec_conditions(),
    {
        (self.body, self.conditions)
    }

    /// Declared event roles.
    pub fn roles(&self) -> (r: &Vec<EventRole>)
        ensures
            r@ == self.spec_roles(),
    {
        &self.event_roles
    }

    /// Requested flush mode.
    pub fn flush_mode_value(&self) -> (r: FlushMode)
        ensures
            r == self.spec_flush_mode(),
    {
        self.flush_mode
    }

    /// Label of the stage the system runs in.
    pub fn stage_label(&self) -> (r: &str)
        ensures
            r@ == self.spec_stage(),
    {
        self.stage_label.as_str()
    }

    /// `roles` is this system's role list after declaring a role of `kind` on `id` named
    /// `name`: unchanged when such a role (by type and kind) is declared already, else that
    /// role appended.
    pub open spec fn role_declared(&self, roles: Seq<EventRole>, id: TypeId, name: Seq<char>, kind: EventRoleKind) -> bool {
        if exists|i: int| 0 <= i < self.spec_roles().len() && #[trigger] self.spec_roles()[i].type_id == id
            && self.spec_roles()[i].kind == kind {
            roles == self.spec_roles()
        } else {
            &&& roles.len() == self.spec_roles().len() + 1
            &&& roles.drop_last() == self.spec_roles()
            &&& roles.last().type_id == id
            &&& roles.last().event_name@ == name
            &&& roles.last().kind == kind
        }
    }
}

/// Read-only access to the world's resources while a schedule builds, used by systems to
/// look at resources before their first run.
pub struct SystemInitContext<'world, V> {
    resources: &'world ResourceStore<V>,
}

impl<'world, V> SystemInitContext<'world, V> {
    /// The resource store this context reads.
    pub closed spec fn spec_resources(&self) -> ResourceStore<V> {
        *self.resources
    }

    /// A context reading `resources`.
    pub fn new(resources: &'world ResourceStore<V>) -> (r: SystemInitContext<'world, V>)
        ensures
            r.spec_resources() == *resources,
    {
        SystemInitContext { resources }
    }

    /// Whether the resource `type_id` currently holds a value.
    pub fn contains_resource(&self, type_id: TypeId) -> (r: bool)
        requires
            self.spec_resources().wf(),
        ensures
            r == self.spec_resources().entry_of(type_id) is Some,
    {
        self.resources.contains(type_id)
    }

    /// The value of the resource `type_id` (named `name` in errors), if it holds one.
    pub fn resource(&self, type_id: TypeId, name: &str) -> (r: Result<Option<&'world V>, WorldError>)
        requires
            self.spec_resources().wf(),
        ensures
            self.spec_resources().scope() == Some(type_id) ==> fails_scoped(r, name@),
            self.spec_resources().scope() != Some(type_id) && !self.spec_resources().registered(type_id)
                ==> fails_unregistered(r, name@),
            self.spec_resources().scope() != Some(type_id) && self.spec_resources().registered(type_id) ==> (r matches Ok(
                v,
            ) && match self.spec_resources().entry_of(type_id) {
                Some(e) => v matches Some(x) && *x == e.value,
                None => v is None,
            }),
    {
        self.resources.get(type_id, name)
    }
}

} // verus!
