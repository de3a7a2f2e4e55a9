//! Registered resources keyed by type identity, with change ticks, locks and one open scope.
use vstd::prelude::*;

use core::any::TypeId;

use crate::time::ChangeTick;
use crate::typeid::{same_type_id, type_id_of};
use crate::world::{fails_in_use, fails_scoped, fails_unregistered, WorldError};

verus! {

/// The name given in errors about a resource known only by its type id.
pub open spec fn unnamed_resource() -> Seq<char> {
    "<resource>"@
}

/// A stored resource value with its insertion and last-change ticks.
pub struct ResourceEntry<V> {
    pub value: V,
    pub added: ChangeTick,
    pub changed: ChangeTick,
}

/// A resource taken out of the store for a scoped access, to be handed back with
/// [`ResourceStore::restore_scope`].
pub struct ScopedResource<V> {
    value: V,
    added: ChangeTick,
    changed: ChangeTick,
}

impl<V> ScopedResource<V> {
    /// The carried value.
    pub closed spec fn spec_value(&self) -> V {
        self.value
    }

    /// Tick at which the resource was first inserted.
    pub closed spec fn spec_added(&self) -> ChangeTick {
        self.added
    }

    /// Tick of the last recorded change.
    pub closed spec fn spec_changed(&self) -> ChangeTick {
        self.changed
    }

    /// Wraps a value with its ticks.
    pub fn new(value: V, added: ChangeTick, changed: ChangeTick) -> (r: ScopedResource<V>)
        ensures
            r.spec_value() == value,
            r.spec_added() == added,
            r.spec_changed() == changed,
    {
        ScopedResource { value, added, changed }
    }

    /// Shared access to the carried value.
    pub fn get(&self) -> (r: &V)
        ensures
            *r == self.spec_value(),
    {
        &self.value
    }

    /// Exclusive access to the carried value; the ticks stay as they are.
    pub fn get_mut(&mut self) -> (r: &mut V)
        ensures
            *r == old(self).spec_value(),
            final(self).spec_value() == *final(r),
            final(self).spec_added() == old(self).spec_added(),
            final(self).spec_changed() == old(self).spec_changed(),
    {
        &mut self.value
    }
}

/// Resources of the world, one slot per registered type.
///
/// Slot `i` belongs to the `i`-th registered type id and is empty or holds an entry.
/// Type ids in `locked` cannot be removed; the id in `scoped`, when there is one, has its
/// value taken out for a scoped access and cannot be reached until it is restored.
pub struct ResourceStore<V> {
    registered: Vec<TypeId>,
    registered_names: Vec<String>,
    entries: Vec<Option<ResourceEntry<V>>>,
    locked: Vec<TypeId>,
    scoped: Option<TypeId>,
}

impl<V> ResourceStore<V> {
    /// Registered type ids, in registration order.
    pub closed spec fn ids(&self) -> Seq<TypeId> {
        self.registered@
    }

    /// Registered type names, in registration order.
    pub closed spec fn names(&self) -> Seq<Seq<char>> {
        self.registered_names@.map_values(|s: String| s@)
    }

    /// Slot contents, in registration order.
    pub closed spec fn slots(&self) -> Seq<Option<ResourceEntry<V>>> {
        self.entries@
    }

    /// Locked type ids, each once.
    pub closed spec fn locked_ids(&self) -> Seq<TypeId> {
        self.locked@
    }

    /// The type id whose value is out for a scoped access.
    pub closed spec fn scope(&self) -> Option<TypeId> {
        self.scoped
    }

    /// Ids and locks are unique and every registered id has a name and a slot.
    pub closed spec fn wf(&self) -> bool {
        &&& self.registered@.no_duplicates()
        &&& self.registered_names@.len() == self.registered@.len()
        &&& self.entries@.len() == self.registered@.len()
        &&& self.locked@.no_duplicates()
    }

    /// Whether `id` is registered.
    pub open spec fn registered(&self, id: TypeId) -> bool {
        self.ids().contains(id)
    }

    /// Slot of a registered `id`.
    pub open spec fn slot_of(&self, id: TypeId) -> int {
        self.ids().index_of(id)
    }

    /// Entry of `id`: `None` when it is unregistered or its slot is empty.
    pub open spec fn entry_of(&self, id: TypeId) -> Option<ResourceEntry<V>> {
        if self.registered(id) {
            self.slots()[self.slot_of(id)]
        } else {
            None
        }
    }

    /// Whether `id` is locked.
    pub open spec fn is_locked_spec(&self, id: TypeId) -> bool {
        self.locked_ids().contains(id)
    }

    /// The store `new` results from registering `id` under `name` in `self`, the
    /// registration landing in slot `index`.
    pub open spec fn registers(self, new: Self, id: TypeId, name: Seq<char>, index: int) -> bool {
        &&& new.wf()
        &&& new.locked_ids() == self.locked_ids()
        &&& new.scope() == self.scope()
        &&& if self.registered(id) {
            &&& index == self.slot_of(id)
            &&& new.ids() == self.ids()
            &&& new.names() == self.names()
            &&& new.slots() == self.slots()
        } else {
            &&& index == self.ids().len()
            &&& new.ids() == self.ids().push(id)
            &&& new.names() == self.names().push(name)
            &&& new.slots() == self.slots().push(None)
        }
    }

    /// In a well-formed store an id's slot is the one position that holds it.
    pub proof fn lemma_slot_of(&self, i: int)
        requires
            self.wf(),
            0 <= i < self.ids().len(),
        ensures
            self.registered(self.ids()[i]),
            self.slot_of(self.ids()[i]) == i,
            self.slots().len() == self.ids().len(),
            self.names().len() == self.ids().len(),
    {
        let id = self.ids()[i];
        assert(self.ids()[i] == id);
        let j = self.slot_of(id);
        assert(0 <= j < self.ids().len() && self.ids()[j] == id);
    }

    /// The length facts of a well-formed store.
    pub proof fn lemma_lengths(&self)
        requires
            self.wf(),
        ensures
            self.slots().len() == self.ids().len(),
            self.names().len() == self.ids().len(),
            self.ids().no_duplicates(),
            self.locked_ids().no_duplicates(),
    {
    }

    /// An empty store: nothing registered, locked or scoped.
    pub fn new() -> (r: ResourceStore<V>)
        ensures
            r.wf(),
            r.ids() == Seq::<TypeId>::empty(),
            r.slots() == Seq::<Option<ResourceEntry<V>>>::empty(),
            r.locked_ids() == Seq::<TypeId>::empty(),
            r.scope() is None,
    {
        let r = ResourceStore {
            registered: Vec::new(),
            registered_names: Vec::new(),
            entries: Vec::new(),
            locked: Vec::new(),
            scoped: None,
        };
        assert(r.names() =~= Seq::<Seq<char>>::empty());
        r
    }

    /// Position of `type_id` among the registered ids.
    fn index_of(&self, type_id: &TypeId) -> (r: Option<usize>)
        requires
            self.wf(),
        ensures
            match r {
                Some(i) => self.registered(*type_id) && i == self.slot_of(*type_id) && i < self.ids().len(),
                None => !self.registered(*type_id),
            },
    {
        let mut i: usize = 0;
        while i < self.registered.len()
            invariant
                self.wf(),
                i <= self.registered@.len(),
                forall|j: int| 0 <= j < i ==> self.registered@[j] != *type_id,
            decreases self.registered@.len() - i,
        {
            if same_type_id(&self.registered[i], type_id) {
                proof {
                    self.lemma_slot_of(i as int);
                }
                return Some(i);
            }
            i = i + 1;
        }
        None
    }

    /// Registers `type_id` under `name` and returns its slot; an id registered before
    /// keeps its slot and name.
    pub fn register(&mut self, type_id: TypeId, name: &str) -> (r: usize)
        requires
            old(self).wf(),
            old(self).ids().len() < usize::MAX,
        ensures
            old(self).registers(*final(self), type_id, name@, r as int),
    {
        match self.index_of(&type_id) {
            Some(index) => index,
            None => {
                let index = self.registered.len();
                proof {
                    self.lemma_lengths();
                }
                let ghost old_names = self.names();
                self.registered.push(type_id);
                self.registered_names.push(name.to_owned());
                self.entries.push(None);
                proof {
                    assert(self.names() =~= old_names.push(name@));
                    assert forall|i: int, j: int|
                        0 <= i < self.registered@.len() && 0 <= j < self.registered@.len() && i != j
                        implies self.registered@[i] != self.registered@[j] by {
                        if i < index && j < index {
                            assert(old(self).registered@[i] != old(self).registered@[j]);
                        } else if i < index {
                            assert(old(self).registered@[i] == self.registered@[i]);
                            assert(old(self).ids().contains(old(self).registered@[i]));
                        } else if j < index {
                            assert(old(self).registered@[j] == self.registered@[j]);
                            assert(old(self).ids().contains(old(self).registered@[j]));
                        }
                    }
                }
                index
            },
        }
    }

    /// Whether `type_id` is registered and its slot holds a value.
    pub fn contains(&self, type_id: TypeId) -> (r: bool)
        requires
            self.wf(),
        ensures
            r == self.entry_of(type_id) is Some,
    {
        self.contains_type(type_id)
    }

    /// Whether `type_id` is registered and its slot holds a value.
    pub fn contains_type(&self, type_id: TypeId) -> (r: bool)
        requires
            self.wf(),
        ensures
            r == self.entry_of(type_id) is Some,
    {
        match self.index_of(&type_id) {
            Some(index) => self.entries[index].is_some(),
            None => false,
        }
    }

    /// Fails with `ResourceScoped` when `type_id` is the scoped id.
    fn ensure_accessible(&self, type_id: &TypeId, name: &str) -> (r: Result<(), WorldError>)
        ensures
            self.scope() == Some(*type_id) ==> fails_scoped(r, name@),
            self.scope() != Some(*type_id) ==> r is Ok,
    {
        match &self.scoped {
            Some(scoped) => {
                if same_type_id(scoped, type_id) {
                    Err(WorldError::ResourceScoped { name: name.to_owned() })
                } else {
                    Ok(())
                }
            },
            None => Ok(()),
        }
    }

    /// The slot of `type_id`, or `UnregisteredResource`.
    fn require_registered(&self, type_id: &TypeId, name: &str) -> (r: Result<usize, WorldError>)
        requires
            self.wf(),
        ensures
            match r {
                Ok(i) => self.registered(*type_id) && i == self.slot_of(*type_id) && i < self.ids().len(),
                Err(e) => !self.registered(*type_id) && e.is_unregistered_resource(name@),
            },
    {
        match self.index_of(type_id) {
            Some(index) => Ok(index),
            None => Err(WorldError::UnregisteredResource { name: name.to_owned() }),
        }
    }

    /// Checks that a value of `type_id` may be inserted.
    pub fn prepare_insert(&self, type_id: TypeId, name: &str) -> (r: Result<(), WorldError>)
        requires
            self.wf(),
        ensures
            self.scope() == Some(type_id) ==> fails_scoped(r, name@),
            self.scope() != Some(type_id) && !self.registered(type_id) ==> fails_unregistered(r, name@),
            self.scope() != Some(type_id) && self.registered(type_id) ==> r is Ok,
    {
        self.ensure_accessible(&type_id, name)?;
        self.require_registered(&type_id, name)?;
        Ok(())
    }

    /// Checks that `type_id` may be reached mutably; `Ok` says whether a value is present.
    pub fn prepare_mut(&self, type_id: TypeId, name: &str) -> (r: Result<bool, WorldError>)
        requires
            self.wf(),
        ensures
            self.scope() == Some(type_id) ==> fails_scoped(r, name@),
            self.scope() != Some(type_id) && !self.registered(type_id) ==> fails_unregistered(r, name@),
            self.scope() != Some(type_id) && self.registered(type_id) ==> r == Ok::<bool, WorldError>(
                self.entry_of(type_id) is Some,
            ),
    {
        self.ensure_accessible(&type_id, name)?;
        let index = self.require_registered(&type_id, name)?;
        Ok(self.entries[index].is_some())
    }

    /// Checks that `type_id` may be taken out for a scope; `Ok` says whether a value is present.
    pub fn prepare_scope(&self, type_id: TypeId, name: &str) -> (r: Result<bool, WorldError>)
        requires
            self.wf(),
        ensures
            self.scope() is Some ==> fails_scoped(r, name@),
            self.scope() is None && !self.registered(type_id) ==> fails_unregistered(r, name@),
            self.scope() is None && self.registered(type_id) ==> r == Ok::<bool, WorldError>(
                self.entry_of(type_id) is Some,
            ),
    {
        self.ensure_accessible(&type_id, name)?;
        if self.scoped.is_some() {
            return Err(WorldError::ResourceScoped { name: name.to_owned() });
        }
        let index = self.require_registered(&type_id, name)?;
        Ok(self.entries[index].is_some())
    }

    /// Opens the scope of `type_id` and takes its value out, if there is one.
    pub fn take_for_scope(&mut self, type_id: TypeId, name: &str) -> (r: Result<
        Option<ScopedResource<V>>,
        WorldError,
    >)
        requires
            old(self).wf(),
        ensures
            final(self).wf(),
            final(self).ids() == old(self).ids(),
            final(self).names() == old(self).names(),
            final(self).locked_ids() == old(self).locked_ids(),
            old(self).scope() is Some ==> fails_scoped(r, name@) && *final(self) == *old(
                self,
            ),
            old(self).scope() is None && !old(self).registered(type_id) ==> fails_unregistered(r, name@) && *final(self) == *old(self),
            old(self).scope() is None && old(self).registered(type_id) ==> {
                &&& final(self).scope() == Some(type_id)
                &&& final(self).slots() == old(self).slots().update(old(self).slot_of(type_id), None)
                &&& r matches Ok(taken) && match old(self).entry_of(type_id) {
                    Some(entry) => taken matches Some(s) && s.spec_value() == entry.value
                        && s.spec_added() == entry.added && s.spec_changed() == entry.changed,
                    None => taken is None,
                }
            },
    {
        if self.scoped.is_some() {
            return Err(WorldError::ResourceScoped { name: name.to_owned() });
        }
        let index = self.require_registered(&type_id, name)?;
        self.scoped = Some(type_id);
        let mut slot: Option<ResourceEntry<V>> = None;
        std::mem::swap(&mut slot, &mut self.entries[index]);
        proof {
            assert(self.entries@ =~= old(self).entries@.update(index as int, None));
        }
        match slot {
            Some(entry) => Ok(Some(ScopedResource { value: entry.value, added: entry.added, changed: entry.changed })),
            None => Ok(None),
        }
    }

    /// Hands a scoped value back and closes the scope; `changed`, when given, becomes the
    /// last-change tick.
    pub fn restore_scope(
        &mut self,
        type_id: TypeId,
        name: &str,
        resource: ScopedResource<V>,
        changed: Option<ChangeTick>,
    ) -> (r: Result<(), WorldError>)
        requires
            old(self).wf(),
        ensures
            final(self).wf(),
            final(self).ids() == old(self).ids(),
            final(self).names() == old(self).names(),
            final(self).locked_ids() == old(self).locked_ids(),
            old(self).scope() != Some(type_id) ==> fails_scoped(r, name@) && *final(self)
                == *old(self),
            old(self).scope() == Some(type_id) && !old(self).registered(type_id) ==> fails_unregistered(r, name@) && *final(self) == *old(self),
            old(self).scope() == Some(type_id) && old(self).registered(type_id) ==> {
                &&& r is Ok
                &&& final(self).scope() is None
                &&& final(self).slots() == old(self).slots().update(
                    old(self).slot_of(type_id),
                    Some(
                        ResourceEntry {
                            value: resource.spec_value(),
                            added: resource.spec_added(),
                            changed: match changed {
                                Some(t) => t,
                                None => resource.spec_changed(),
                            },
                        },
                    ),
                )
            },
    {
        let matches = match &self.scoped {
            Some(scoped) => same_type_id(scoped, &type_id),
            None => false,
        };
        if !matches {
            return Err(WorldError::ResourceScoped { name: name.to_owned() });
        }
        let index = self.require_registered(&type_id, name)?;
        let changed_tick = match changed {
            Some(t) => t,
            None => resource.changed,
        };
        self.entries.set(index, Some(ResourceEntry { value: resource.value, added: resource.added, changed: changed_tick }));
        self.scoped = None;
        Ok(())
    }

    /// Stores `value` for `type_id` at `tick` and returns the value it replaces. A replaced
    /// entry keeps its added tick; a new one is added at `tick`.
    pub fn insert(&mut self, type_id: TypeId, name: &str, value: V, tick: ChangeTick) -> (r: Result<
        Option<V>,
        WorldError,
    >)
        requires
            old(self).wf(),
        ensures
            final(self).wf(),
            final(self).ids() == old(self).ids(),
            final(self).names() == old(self).names(),
            final(self).locked_ids() == old(self).locked_ids(),
            final(self).scope() == old(self).scope(),
            old(self).scope() == Some(type_id) ==> fails_scoped(r, name@) && *final(self)
                == *old(self),
            old(self).scope() != Some(type_id) && !old(self).registered(type_id) ==> fails_unregistered(r, name@) && *final(self) == *old(self),
            old(self).scope() != Some(type_id) && old(self).registered(type_id) ==> {
                &&& final(self).slots() == old(self).slots().update(
                    old(self).slot_of(type_id),
                    Some(
                        ResourceEntry {
                            value,
                            added: match old(self).entry_of(type_id) {
                                Some(e) => e.added,
                                None => tick,
                            },
                            changed: tick,
                        },
                    ),
                )
                &&& r matches Ok(previous) && match old(self).entry_of(type_id) {
                    Some(e) => previous == Some(e.value),
                    None => previous is None,
                }
            },
    {
        self.ensure_accessible(&type_id, name)?;
        let index = self.require_registered(&type_id, name)?;
        let mut slot: Option<ResourceEntry<V>> = None;
        std::mem::swap(&mut slot, &mut self.entries[index]);
        let (previous, added) = match slot {
            Some(entry) => (Some(entry.value), entry.added),
            None => (None, tick),
        };
        self.entries.set(index, Some(ResourceEntry { value, added, changed: tick }));
        proof {
            assert(self.entries@ =~= old(self).entries@.update(
                index as int,
                Some(ResourceEntry { value, added, changed: tick }),
            ));
        }
        Ok(previous)
    }

    /// Takes the value of `type_id` out of its slot. Locked ids cannot be removed.
    pub fn remove(&mut self, type_id: TypeId, name: &str) -> (r: Result<Option<V>, WorldError>)
        requires
            old(self).wf(),
        ensures
            final(self).wf(),
            final(self).ids() == old(self).ids(),
            final(self).names() == old(self).names(),
            final(self).locked_ids() == old(self).locked_ids(),
            final(self).scope() == old(self).scope(),
            old(self).scope() == Some(type_id) ==> fails_scoped(r, name@) && *final(self)
                == *old(self),
            old(self).scope() != Some(type_id) && old(self).is_locked_spec(type_id) ==> fails_in_use(r, name@) && *final(self) == *old(self),
            old(self).scope() != Some(type_id) && !old(self).is_locked_spec(type_id) && !old(
                self,
            ).registered(type_id) ==> fails_unregistered(r, name@) && *final(self)
                == *old(self),
            old(self).scope() != Some(type_id) && !old(self).is_locked_spec(type_id) && old(
                self,
            ).registered(type_id) ==> {
                &&& final(self).slots() == old(self).slots().update(old(self).slot_of(type_id), None)
                &&& r matches Ok(previous) && match old(self).entry_of(type_id) {
                    Some(e) => previous == Some(e.value),
                    None => previous is None,
                }
            },
    {
        self.ensure_accessible(&type_id, name)?;
        if self.is_locked(type_id) {
            return Err(WorldError::ResourceInUse { name: name.to_owned() });
        }
        let index = self.require_registered(&type_id, name)?;
        let mut slot: Option<ResourceEntry<V>> = None;
        std::mem::swap(&mut slot, &mut self.entries[index]);
        proof {
            assert(self.entries@ =~= old(self).entries@.update(index as int, None));
        }
        match slot {
            Some(entry) => Ok(Some(entry.value)),
            None => Ok(None),
        }
    }

    /// Shared access to the value of `type_id`.
    pub fn get(&self, type_id: TypeId, name: &str) -> (r: Result<Option<&V>, WorldError>)
        requires
            self.wf(),
        ensures
            self.scope() == Some(type_id) ==> fails_scoped(r, name@),
            self.scope() != Some(type_id) && !self.registered(type_id) ==> fails_unregistered(r, name@),
            self.scope() != Some(type_id) && self.registered(type_id) ==> (r matches Ok(v) && match self.entry_of(
                type_id,
            ) {
                Some(e) => v matches Some(x) && *x == e.value,
                None => v is None,
            }),
    {
        self.ensure_accessible(&type_id, name)?;
        let index = self.require_registered(&type_id, name)?;
        match &self.entries[index] {
            Some(entry) => Ok(Some(&entry.value)),
            None => Ok(None),
        }
    }

    /// Exclusive access to the value of `type_id`, recording `tick` as its last change
    /// when a value is present.
    pub fn get_mut(&mut self, type_id: TypeId, name: &str, tick: ChangeTick) -> (r: Result<
        Option<&mut V>,
        WorldError,
    >)
        requires
            old(self).wf(),
        ensures
            final(self).wf(),
            final(self).ids() == old(self).ids(),
            final(self).names() == old(self).names(),
            final(self).locked_ids() == old(self).locked_ids(),
            final(self).scope() == old(self).scope(),
            old(self).scope() == Some(type_id) ==> fails_scoped(r, name@) && *final(self)
                == *old(self),
            old(self).scope() != Some(type_id) && !old(self).registered(type_id) ==> fails_unregistered(r, name@) && *final(self) == *old(self),
            old(self).scope() != Some(type_id) && old(self).registered(type_id) ==> match old(self).entry_of(
                type_id,
            ) {
                Some(e) => r matches Ok(Some(v)) && *v == e.value && final(self).slots() == old(
                    self,
                ).slots().update(
                    old(self).slot_of(type_id),
                    Some(ResourceEntry { value: *final(v), added: e.added, changed: tick }),
                ),
                None => r matches Ok(None) && final(self).slots() == old(self).slots(),
            },
    {
        self.ensure_accessible(&type_id, name)?;
        let index = self.require_registered(&type_id, name)?;
        match &mut self.entries[index] {
            Some(entry) => {
                entry.changed = tick;
                Ok(Some(&mut entry.value))
            },
            None => Ok(None),
        }
    }

    /// Position of `type_id` among the locked ids.
    fn locked_position(&self, type_id: &TypeId) -> (r: Option<usize>)
        ensures
            match r {
                Some(i) => i < self.locked_ids().len() && self.locked_ids()[i as int] == *type_id,
                None => !self.is_locked_spec(*type_id),
            },
    {
        let mut i: usize = 0;
        while i < self.locked.len()
            invariant
                i <= self.locked@.len(),
                forall|j: int| 0 <= j < i ==> self.locked@[j] != *type_id,
            decreases self.locked@.len() - i,
        {
            if same_type_id(&self.locked[i], type_id) {
                return Some(i);
            }
            i = i + 1;
        }
        None
    }

    /// Whether `type_id` is locked against removal.
    pub fn is_locked(&self, type_id: TypeId) -> (r: bool)
        ensures
            r == self.is_locked_spec(type_id),
    {
        self.locked_position(&type_id).is_some()
    }

    /// Tick at which the value of `type_id` was inserted.
    pub fn added_tick(&self, type_id: TypeId, name: &str) -> (r: Result<Option<ChangeTick>, WorldError>)
        requires
            self.wf(),
        ensures
            self.scope() == Some(type_id) ==> fails_scoped(r, name@),
            self.scope() != Some(type_id) && !self.registered(type_id) ==> fails_unregistered(r, name@),
            self.scope() != Some(type_id) && self.registered(type_id) ==> r == Ok::<
                Option<ChangeTick>,
                WorldError,
            >(
                match self.entry_of(type_id) {
                    Some(e) => Some(e.added),
                    None => None,
                },
            ),
    {
        self.ensure_accessible(&type_id, name)?;
        let index = self.require_registered(&type_id, name)?;
        match &self.entries[index] {
            Some(entry) => Ok(Some(entry.added)),
            None => Ok(None),
        }
    }

    /// Tick of the last recorded change to the value of `type_id`.
    pub fn changed_tick(&self, type_id: TypeId, name: &str) -> (r: Result<Option<ChangeTick>, WorldError>)
        requires
            self.wf(),
        ensures
            self.scope() == Some(type_id) ==> fails_scoped(r, name@),
            self.scope() != Some(type_id) && !self.registered(type_id) ==> fails_unregistered(r, name@),
            self.scope() != Some(type_id) && self.registered(type_id) ==> r == Ok::<
                Option<ChangeTick>,
                WorldError,
            >(
                match self.entry_of(type_id) {
                    Some(e) => Some(e.changed),
                    None => None,
                },
            ),
    {
        self.ensure_accessible(&type_id, name)?;
        let index = self.require_registered(&type_id, name)?;
        match &self.entries[index] {
            Some(entry) => Ok(Some(entry.changed)),
            None => Ok(None),
        }
    }

    /// Locks `type_id` against removal; locking twice is the same as locking once.
    pub fn lock(&mut self, type_id: TypeId)
        requires
            old(self).wf(),
        ensures
            final(self).wf(),
            final(self).ids() == old(self).ids(),
            final(self).names() == old(self).names(),
            final(self).slots() == old(self).slots(),
            final(self).scope() == old(self).scope(),
            forall|t: TypeId| final(self).is_locked_spec(t) == (old(self).is_locked_spec(t) || t == type_id),
    {
        self.lock_type(type_id)
    }

    /// Lifts the lock of `type_id`, if it is locked.
    pub fn unlock(&mut self, type_id: TypeId)
        requires
            old(self).wf(),
        ensures
            final(self).wf(),
            final(self).ids() == old(self).ids(),
            final(self).names() == old(self).names(),
            final(self).slots() == old(self).slots(),
            final(self).scope() == old(self).scope(),
            forall|t: TypeId| final(self).is_locked_spec(t) == (old(self).is_locked_spec(t) && t != type_id),
    {
        self.unlock_type(type_id)
    }

    /// Locks `type_id` against removal; locking twice is the same as locking once.
    pub fn lock_type(&mut self, type_id: TypeId)
        requires
            old(self).wf(),
        ensures
            final(self).wf(),
            final(self).ids() == old(self).ids(),
            final(self).names() == old(self).names(),
            final(self).slots() == old(self).slots(),
            final(self).scope() == old(self).scope(),
            forall|t: TypeId| final(self).is_locked_spec(t) == (old(self).is_locked_spec(t) || t == type_id),
    {
        if self.locked_position(&type_id).is_none() {
            self.locked.push(type_id);
            proof {
                assert forall|t: TypeId| self.is_locked_spec(t) == (old(self).is_locked_spec(t) || t == type_id) by {
                    if old(self).is_locked_spec(t) {
                        let k = choose|k: int| 0 <= k < old(self).locked@.len() && old(self).locked@[k] == t;
                        assert(self.locked@[k] == t);
                    }
                    if t == type_id {
                        assert(self.locked@[self.locked@.len() - 1] == t);
                    }
                    if self.is_locked_spec(t) {
                        let k = choose|k: int| 0 <= k < self.locked@.len() && self.locked@[k] == t;
                        if k < old(self).locked@.len() {
                            assert(old(self).locked@[k] == t);
                        }
                    }
                }
            }
        }
    }

    /// Lifts the lock of `type_id`, if it is locked.
    pub fn unlock_type(&mut self, type_id: TypeId)
        requires
            old(self).wf(),
        ensures
            final(self).wf(),
            final(self).ids() == old(self).ids(),
            final(self).names() == old(self).names(),
            final(self).slots() == old(self).slots(),
            final(self).scope() == old(self).scope(),
            forall|t: TypeId| final(self).is_locked_spec(t) == (old(self).is_locked_spec(t) && t != type_id),
    {
        if let Some(index) = self.locked_position(&type_id) {
            let ghost before = self.locked@;
            self.locked.swap_remove(index);
            proof {
                let n = before.len();
                let last = before[n - 1];
                assert forall|i: int, j: int|
                    0 <= i < self.locked@.len() && 0 <= j < self.locked@.len() && i != j
                    implies self.locked@[i] != self.locked@[j] by {
                    let oi = if i == index { n - 1 } else { i };
                    let oj = if j == index { n - 1 } else { j };
                    assert(self.locked@[i] == before[oi]);
                    assert(self.locked@[j] == before[oj]);
                }
                assert forall|t: TypeId| self.is_locked_spec(t) == (old(self).is_locked_spec(t) && t != type_id) by {
                    if self.is_locked_spec(t) {
                        let k = choose|k: int| 0 <= k < self.locked@.len() && self.locked@[k] == t;
                        let ok = if k == index { n - 1 } else { k };
                        assert(before[ok] == t);
                        assert(ok != index as int);
                    }
                    if old(self).is_locked_spec(t) && t != type_id {
                        let k = choose|k: int| 0 <= k < before.len() && before[k] == t;
                        assert(k != index as int);
                        if k == n - 1 {
                            assert(self.locked@[index as int] == t);
                        } else {
                            assert(self.locked@[k] == t);
                        }
                    }
                }
            }
        }
    }

    /// Registered name of `type_id`.
    pub fn registered_name(&self, type_id: TypeId) -> (r: Option<&str>)
        requires
            self.wf(),
        ensures
            self.registered(type_id) ==> (r matches Some(n) && n@ == self.names()[self.slot_of(type_id)]),
            !self.registered(type_id) ==> r is None,
    {
        match self.index_of(&type_id) {
            Some(index) => {
                proof {
                    self.lemma_lengths();
                }
                Some(self.registered_names[index].as_str())
            },
            None => None,
        }
    }

    /// Tick at which the value of `type_id` was inserted, whatever the scope.
    pub fn added_tick_for(&self, type_id: TypeId) -> (r: Result<Option<ChangeTick>, WorldError>)
        requires
            self.wf(),
        ensures
            !self.registered(type_id) ==> fails_unregistered(r, unnamed_resource()),
            self.registered(type_id) ==> r == Ok::<Option<ChangeTick>, WorldError>(
                match self.entry_of(type_id) {
                    Some(e) => Some(e.added),
                    None => None,
                },
            ),
    {
        let index = self.require_registered(&type_id, "<resource>")?;
        match &self.entries[index] {
            Some(entry) => Ok(Some(entry.added)),
            None => Ok(None),
        }
    }

    /// Tick of the last recorded change to the value of `type_id`, whatever the scope.
    pub fn changed_tick_for(&self, type_id: TypeId) -> (r: Result<Option<ChangeTick>, WorldError>)
        requires
            self.wf(),
        ensures
            !self.registered(type_id) ==> fails_unregistered(r, unnamed_resource()),
            self.registered(type_id) ==> r == Ok::<Option<ChangeTick>, WorldError>(
                match self.entry_of(type_id) {
                    Some(e) => Some(e.changed),
                    None => None,
                },
            ),
    {
        let index = self.require_registered(&type_id, "<resource>")?;
        match &self.entries[index] {
            Some(entry) => Ok(Some(entry.changed)),
            None => Ok(None),
        }
    }

    /// Closes the open scope without restoring its value.
    pub fn cancel_scope(&mut self)
        ensures
            final(self).scope() is None,
            final(self).wf() == old(self).wf(),
            final(self).ids() == old(self).ids(),
            final(self).names() == old(self).names(),
            final(self).slots() == old(self).slots(),
            final(self).locked_ids() == old(self).locked_ids(),
    {
        self.scoped = None;
    }

    /// The entry of `type_id`, whatever the scope: `None` when it is unregistered or empty.
    pub fn entry_for(&self, type_id: TypeId) -> (r: Option<&ResourceEntry<V>>)
        requires
            self.wf(),
        ensures
            match self.entry_of(type_id) {
                Some(e) => r matches Some(x) && *x == e,
                None => r is None,
            },
    {
        match self.index_of(&type_id) {
            Some(index) => self.entries[index].as_ref(),
            None => None,
        }
    }

    /// Registers the type id of `State<S>` under `name`.
    pub fn register_state<S: Eq + 'static>(&mut self, name: &str)
        requires
            old(self).wf(),
            old(self).ids().len() < usize::MAX,
        ensures
            exists|id: TypeId, index: int| old(self).registers(*final(self), id, name@, index),
    {
        let type_id = type_id_of::<crate::state::State<S>>();
        let index = self.register(type_id, name);
        assert(old(self).registers(*self, type_id, name@, index as int));
    }

    /// Reading a slot gives back what was last written to it, and writing one id's slot
    /// leaves every other id's entry as it was.
    pub proof fn law_write_then_read(before: Self, after: Self, id: TypeId, slot: Option<ResourceEntry<V>>)
        requires
            before.wf(),
            after.ids() == before.ids(),
            before.registered(id),
            after.slots() == before.slots().update(before.slot_of(id), slot),
        ensures
            after.entry_of(id) == slot,
            forall|other: TypeId| other != id ==> after.entry_of(other) == before.entry_of(other),
    {
        let i = before.slot_of(id);
        assert forall|other: TypeId| other != id implies after.entry_of(other) == before.entry_of(other) by {
            if before.registered(other) {
                let j = before.slot_of(other);
                assert(before.ids()[j] == other);
                assert(before.ids()[i] == id);
                assert(j != i);
            }
        }
    }

    /// Taking a value out for a scope and handing the same entry back restores the store's
    /// entries exactly.
    pub proof fn law_scope_round_trip(before: Self, during: Self, after: Self, id: TypeId, entry: ResourceEntry<V>)
        requires
            before.wf(),
            before.registered(id),
            before.entry_of(id) == Some(entry),
            during.ids() == before.ids(),
            during.slots() == before.slots().update(before.slot_of(id), None),
            after.ids() == during.ids(),
            after.slots() == during.slots().update(during.slot_of(id), Some(entry)),
        ensures
            after.slots() == before.slots(),
            forall|other: TypeId| after.entry_of(other) == before.entry_of(other),
    {
        assert(after.slots() =~= before.slots());
    }
}

impl<V> Default for ResourceStore<V> {
    /// An empty store.
    fn default() -> (r: ResourceStore<V>)
        ensures
            r.wf(),
            r.ids() == Seq::<TypeId>::empty(),
            r.slots() == Seq::<Option<ResourceEntry<V>>>::empty(),
            r.locked_ids() == Seq::<TypeId>::empty(),
            r.scope() is None,
    {
        ResourceStore::new()
    }
}

} // verus!
