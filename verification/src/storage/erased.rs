//! Typed and tag sparse storages and the per-component sparse store facade.
use vstd::prelude::*;

use crate::entity::EntityId;
use crate::storage::sparse::SparseSet;
use crate::time::{tick_matches, ChangeTick};

verus! {

/// Sparse storage for a data component.
pub struct TypedSparseStorage<T> {
    set: SparseSet<T>,
}

impl<T> TypedSparseStorage<T> {
    /// The underlying sparse set.
    pub closed spec fn inner(&self) -> SparseSet<T> {
        self.set
    }

    /// The underlying sparse set is well formed.
    pub open spec fn wf(&self) -> bool {
        self.inner().wf()
    }

    /// Empty storage.
    pub fn new() -> (r: TypedSparseStorage<T>)
        ensures
            r.wf(),
            r.inner().slots() == Seq::<u32>::empty(),
            r.inner().values() == Seq::<T>::empty(),
            forall|s: u32| r.inner().position(s) is None,
    {
        TypedSparseStorage { set: SparseSet::new() }
    }

    /// Inserts or replaces the entity's value (see [`SparseSet::insert_with_tick`]).
    pub fn insert_with_tick(&mut self, entity: EntityId, value: T, tick: ChangeTick) -> (r: Option<T>)
        requires
            old(self).wf(),
            old(self).inner().slots().len() < usize::MAX,
        ensures
            final(self).wf(),
            match old(self).inner().position(entity.spec_slot()) {
                Some(i) => {
                    &&& r == Some(old(self).inner().values()[i])
                    &&& final(self).inner().slots() == old(self).inner().slots()
                    &&& final(self).inner().values() == old(self).inner().values().update(i, value)
                    &&& final(self).inner().added_ticks() == old(self).inner().added_ticks()
                    &&& final(self).inner().changed_ticks() == old(self).inner().changed_ticks().update(i, tick@)
                    &&& forall|s: u32| final(self).inner().position(s) == old(self).inner().position(s)
                },
                None => {
                    &&& r is None
                    &&& final(self).inner().slots() == old(self).inner().slots().push(entity.spec_slot())
                    &&& final(self).inner().values() == old(self).inner().values().push(value)
                    &&& final(self).inner().added_ticks() == old(self).inner().added_ticks().push(tick@)
                    &&& final(self).inner().changed_ticks() == old(self).inner().changed_ticks().push(tick@)
                    &&& final(self).inner().position(entity.spec_slot()) == Some(old(self).inner().slots().len() as int)
                    &&& forall|s: u32| s != entity.spec_slot() ==> final(self).inner().position(s) == old(self).inner().position(s)
                },
            },
    {
        self.set.insert_with_tick(entity, value, tick)
    }

    /// The entity's value.
    pub fn get(&self, entity: EntityId) -> (r: Option<&T>)
        requires
            self.wf(),
        ensures
            r == match self.inner().position(entity.spec_slot()) {
                Some(i) => Some(&self.inner().values()[i]),
                None => None::<&T>,
            },
    {
        self.set.get(entity)
    }

    /// Mutable access to the entity's value, recording `tick` as changed.
    pub fn get_mut_with_tick(&mut self, entity: EntityId, tick: ChangeTick) -> (r: Option<&mut T>)
        requires
            old(self).wf(),
        ensures
            final(self).wf(),
            final(self).inner().slots() == old(self).inner().slots(),
            final(self).inner().added_ticks() == old(self).inner().added_ticks(),
            forall|s: u32| final(self).inner().position(s) == old(self).inner().position(s),
            match old(self).inner().position(entity.spec_slot()) {
                Some(i) => {
                    &&& r matches Some(v) && *v == old(self).inner().values()[i]
                        && final(self).inner().values() == old(self).inner().values().update(i, *final(v))
                    &&& final(self).inner().changed_ticks() == old(self).inner().changed_ticks().update(i, tick@)
                },
                None => {
                    &&& r is None
                    &&& final(self).inner().values() == old(self).inner().values()
                    &&& final(self).inner().changed_ticks() == old(self).inner().changed_ticks()
                },
            },
    {
        self.set.get_mut_with_tick(entity, tick)
    }

    /// Whether the entity has a value.
    pub fn contains(&self, entity: EntityId) -> (r: bool)
        requires
            self.wf(),
        ensures
            r == (self.inner().position(entity.spec_slot()) is Some),
    {
        self.set.contains_slot(entity)
    }

    /// Removes the entity's value (see [`SparseSet::remove`]).
    pub fn remove(&mut self, entity: EntityId) -> (r: Option<T>)
        requires
            old(self).wf(),
        ensures
            final(self).wf(),
            match old(self).inner().position(entity.spec_slot()) {
                Some(i) => {
                    let last = old(self).inner().slots().len() - 1;
                    &&& r == Some(old(self).inner().values()[i])
                    &&& final(self).inner().slots() == old(self).inner().slots().update(i, old(self).inner().slots()[last]).drop_last()
                    &&& final(self).inner().values() == old(self).inner().values().update(i, old(self).inner().values()[last]).drop_last()
                    &&& final(self).inner().position(entity.spec_slot()) is None
                    &&& final(self).inner().slots().len() == old(self).inner().slots().len() - 1
                },
                None => {
                    &&& r is None
                    &&& final(self).inner() == old(self).inner()
                },
            },
    {
        proof {
            self.set.lemma_position(entity.spec_slot());
        }
        self.set.remove(entity)
    }

    /// Number of stored values.
    pub fn len(&self) -> (r: usize)
        requires
            self.wf(),
        ensures
            r == self.inner().slots().len(),
    {
        self.set.len()
    }

    /// Slots in dense order.
    pub fn dense_slots(&self) -> (r: &[u32])
        ensures
            r@ == self.inner().slots(),
    {
        self.set.dense_slots()
    }

    /// Value at a dense position.
    pub fn dense_value(&self, index: usize) -> (r: Option<&T>)
        ensures
            r == if index < self.inner().values().len() { Some(&self.inner().values()[index as int]) } else { None::<&T> },
    {
        self.set.dense_value(index)
    }

    /// Added tick of the entity's value.
    pub fn added_tick(&self, entity: EntityId) -> (r: Option<ChangeTick>)
        requires
            self.wf(),
        ensures
            tick_matches(r, match self.inner().position(entity.spec_slot()) {
                Some(i) => Some(self.inner().added_ticks()[i]),
                None => None::<u64>,
            }),
    {
        let dense_idx = self.set.dense_index(entity)?;
        proof {
            self.set.lemma_position(entity.spec_slot());
        }
        self.set.added_tick(dense_idx)
    }

    /// Changed tick of the entity's value.
    pub fn changed_tick(&self, entity: EntityId) -> (r: Option<ChangeTick>)
        requires
            self.wf(),
        ensures
            tick_matches(r, match self.inner().position(entity.spec_slot()) {
                Some(i) => Some(self.inner().changed_ticks()[i]),
                None => None::<u64>,
            }),
    {
        let dense_idx = self.set.dense_index(entity)?;
        proof {
            self.set.lemma_position(entity.spec_slot());
        }
        self.set.changed_tick(dense_idx)
    }
}

/// Sparse storage for a zero-sized tag component: membership and ticks only.
pub struct TagSparseStorage {
    set: SparseSet<()>,
}

impl TagSparseStorage {
    /// The underlying sparse set.
    pub closed spec fn inner(&self) -> SparseSet<()> {
        self.set
    }

    /// The underlying sparse set is well formed.
    pub open spec fn wf(&self) -> bool {
        self.inner().wf()
    }

    /// Empty storage.
    pub fn new() -> (r: TagSparseStorage)
        ensures
            r.wf(),
            r.inner().slots() == Seq::<u32>::empty(),
            forall|s: u32| r.inner().position(s) is None,
    {
        TagSparseStorage { set: SparseSet::new() }
    }

    /// Tags the entity; returns whether it was newly tagged.
    pub fn insert_with_tick(&mut self, entity: EntityId, tick: ChangeTick) -> (r: bool)
        requires
            old(self).wf(),
            old(self).inner().slots().len() < usize::MAX,
        ensures
            final(self).wf(),
            r == (old(self).inner().position(entity.spec_slot()) is None),
            final(self).inner().position(entity.spec_slot()) is Some,
            old(self).inner().position(entity.spec_slot()) is None ==> {
                &&& final(self).inner().slots() == old(self).inner().slots().push(entity.spec_slot())
                &&& final(self).inner().added_ticks() == old(self).inner().added_ticks().push(tick@)
                &&& final(self).inner().changed_ticks() == old(self).inner().changed_ticks().push(tick@)
            },
            old(self).inner().position(entity.spec_slot()) matches Some(i) ==> {
                &&& final(self).inner().slots() == old(self).inner().slots()
                &&& final(self).inner().added_ticks() == old(self).inner().added_ticks()
                &&& final(self).inner().changed_ticks() == old(self).inner().changed_ticks().update(i, tick@)
            },
            forall|s: u32| s != entity.spec_slot() ==> final(self).inner().position(s) == old(self).inner().position(s),
    {
        self.set.insert_with_tick(entity, (), tick).is_none()
    }

    /// Whether the entity is tagged.
    pub fn contains(&self, entity: EntityId) -> (r: bool)
        requires
            self.wf(),
        ensures
            r == (self.inner().position(entity.spec_slot()) is Some),
    {
        self.set.contains_slot(entity)
    }

    /// Untags the entity; returns whether it was tagged.
    pub fn remove(&mut self, entity: EntityId) -> (r: bool)
        requires
            old(self).wf(),
        ensures
            final(self).wf(),
            r == (old(self).inner().position(entity.spec_slot()) is Some),
            final(self).inner().position(entity.spec_slot()) is None,
            !r ==> final(self).inner() == old(self).inner(),
            r ==> final(self).inner().slots().len() == old(self).inner().slots().len() - 1,
            old(self).inner().position(entity.spec_slot()) matches Some(i) ==> {
                let before = old(self).inner();
                let after = final(self).inner();
                let last = before.slots().len() - 1;
                &&& after.slots() == before.slots().update(i, before.slots()[last]).drop_last()
                &&& after.added_ticks() == before.added_ticks().update(i, before.added_ticks()[last]).drop_last()
                &&& after.changed_ticks() == before.changed_ticks().update(i, before.changed_ticks()[last]).drop_last()
            },
    {
        proof {
            self.set.lemma_position(entity.spec_slot());
        }
        self.set.remove(entity).is_some()
    }

    /// Number of tagged entities.
    pub fn len(&self) -> (r: usize)
        requires
            self.wf(),
        ensures
            r == self.inner().slots().len(),
    {
        self.set.len()
    }

    /// Added tick of the entity's tag.
    pub fn added_tick(&self, entity: EntityId) -> (r: Option<ChangeTick>)
        requires
            self.wf(),
        ensures
            tick_matches(r, match self.inner().position(entity.spec_slot()) {
                Some(i) => Some(self.inner().added_ticks()[i]),
                None => None::<u64>,
            }),
    {
        let dense_idx = self.set.dense_index(entity)?;
        proof {
            self.set.lemma_position(entity.spec_slot());
        }
        self.set.added_tick(dense_idx)
    }

    /// Changed tick of the entity's tag.
    pub fn changed_tick(&self, entity: EntityId) -> (r: Option<ChangeTick>)
        requires
            self.wf(),
        ensures
            tick_matches(r, match self.inner().position(entity.spec_slot()) {
                Some(i) => Some(self.inner().changed_ticks()[i]),
                None => None::<u64>,
            }),
    {
        let dense_idx = self.set.dense_index(entity)?;
        proof {
            self.set.lemma_position(entity.spec_slot());
        }
        self.set.changed_tick(dense_idx)
    }

    /// Tagged slots in dense order.
    pub fn dense_slots(&self) -> (r: &[u32])
        ensures
            r@ == self.inner().slots(),
    {
        self.set.dense_slots()
    }
}

/// Per-component sparse storage: a tag set, a typed data set, or nothing.
pub enum SparseStore<T> {
    Tag(TagSparseStorage),
    Typed(TypedSparseStorage<T>),
    Empty,
}

impl<T> SparseStore<T> {
    /// The active storage is well formed.
    pub open spec fn wf(&self) -> bool {
        match self {
            SparseStore::Tag(s) => s.wf(),
            SparseStore::Typed(s) => s.wf(),
            SparseStore::Empty => true,
        }
    }

    /// Dense slots of the active storage.
    pub open spec fn spec_slots(&self) -> Seq<u32> {
        match self {
            SparseStore::Tag(s) => s.inner().slots(),
            SparseStore::Typed(s) => s.inner().slots(),
            SparseStore::Empty => Seq::empty(),
        }
    }

    /// Whether the active storage holds `slot`.
    pub open spec fn holds(&self, slot: u32) -> bool {
        match self {
            SparseStore::Tag(s) => s.inner().position(slot) is Some,
            SparseStore::Typed(s) => s.inner().position(slot) is Some,
            SparseStore::Empty => false,
        }
    }

    /// Store for a tag component.
    pub fn new_tag() -> (r: SparseStore<T>)
        ensures
            r.wf(),
            r is Tag,
            r.spec_slots() == Seq::<u32>::empty(),
    {
        SparseStore::Tag(TagSparseStorage::new())
    }

    /// Store for a data component.
    pub fn new_typed() -> (r: SparseStore<T>)
        ensures
            r.wf(),
            r is Typed,
            r.spec_slots() == Seq::<u32>::empty(),
    {
        SparseStore::Typed(TypedSparseStorage::new())
    }

    /// Store for a component kept elsewhere.
    pub fn new_empty() -> (r: SparseStore<T>)
        ensures
            r.wf(),
            r is Empty,
    {
        SparseStore::Empty
    }

    /// Whether the entity is held.
    pub fn contains_entity(&self, entity: EntityId) -> (r: bool)
        requires
            self.wf(),
        ensures
            r == self.holds(entity.spec_slot()),
    {
        match self {
            SparseStore::Tag(store) => store.contains(entity),
            SparseStore::Typed(store) => store.contains(entity),
            SparseStore::Empty => false,
        }
    }

    /// Drops the entity from the active storage.
    pub fn remove_entity(&mut self, entity: EntityId)
        requires
            old(self).wf(),
        ensures
            final(self).wf(),
            !final(self).holds(entity.spec_slot()),
            *old(self) is Tag ==> *final(self) is Tag,
            *old(self) is Typed ==> *final(self) is Typed,
            *old(self) is Empty ==> *final(self) is Empty,
            !old(self).holds(entity.spec_slot()) ==> final(self).spec_slots() == old(self).spec_slots(),
            old(self).holds(entity.spec_slot()) ==> final(self).spec_slots().len() == old(self).spec_slots().len() - 1,
    {
        match self {
            SparseStore::Tag(store) => {
                let _ = store.remove(entity);
            },
            SparseStore::Typed(store) => {
                let _ = store.remove(entity);
            },
            SparseStore::Empty => {},
        }
    }

    /// Number of held entities.
    pub fn len(&self) -> (r: usize)
        requires
            self.wf(),
        ensures
            r == self.spec_slots().len(),
    {
        match self {
            SparseStore::Tag(store) => store.len(),
            SparseStore::Typed(store) => store.len(),
            SparseStore::Empty => 0,
        }
    }

    /// The data storage, when this store holds data.
    pub fn typed(&self) -> (r: Option<&TypedSparseStorage<T>>)
        ensures
            r == match self {
                SparseStore::Typed(s) => Some(s),
                _ => None::<&TypedSparseStorage<T>>,
            },
    {
        match self {
            SparseStore::Typed(store) => Some(store),
            _ => None,
        }
    }

    /// Mutable data storage, when this store holds data.
    pub fn typed_mut(&mut self) -> (r: Option<&mut TypedSparseStorage<T>>)
        ensures
            *old(self) is Typed <==> r is Some,
            r matches Some(s) ==> *old(self) == SparseStore::<T>::Typed(*s) && *final(self) == SparseStore::<T>::Typed(*final(s)),
            r is None ==> *final(self) == *old(self),
    {
        match self {
            SparseStore::Typed(store) => Some(store),
            _ => None,
        }
    }

    /// The data storage seen through its type-independent operations, when this store
    /// holds data; tag and empty stores have none.
    pub fn as_erased_mut(&mut self) -> (r: Option<&mut TypedSparseStorage<T>>)
        ensures
            *old(self) is Typed <==> r is Some,
            r matches Some(s) ==> *old(self) == SparseStore::<T>::Typed(*s) && *final(self) == SparseStore::<T>::Typed(*final(s)),
            r is None ==> *final(self) == *old(self),
    {
        match self {
            SparseStore::Typed(store) => Some(store),
            _ => None,
        }
    }

    /// The tag storage, when this store holds tags.
    pub fn tag(&self) -> (r: Option<&TagSparseStorage>)
        ensures
            r == match self {
                SparseStore::Tag(s) => Some(s),
                _ => None::<&TagSparseStorage>,
            },
    {
        match self {
            SparseStore::Tag(store) => Some(store),
            _ => None,
        }
    }

    /// Mutable tag storage, when this store holds tags.
    pub fn tag_mut(&mut self) -> (r: Option<&mut TagSparseStorage>)
        ensures
            *old(self) is Tag <==> r is Some,
            r matches Some(s) ==> *old(self) == SparseStore::<T>::Tag(*s) && *final(self) == SparseStore::<T>::Tag(*final(s)),
            r is None ==> *final(self) == *old(self),
    {
        match self {
            SparseStore::Tag(store) => Some(store),
            _ => None,
        }
    }

    /// Added tick of the entity in the active storage.
    pub fn sparse_added_tick(&self, entity: EntityId) -> (r: Option<ChangeTick>)
        requires
            self.wf(),
        ensures
            r is Some <==> self.holds(entity.spec_slot()),
            r matches Some(t) ==> match self {
                SparseStore::Tag(s) => t@ == s.inner().added_ticks()[s.inner().position(entity.spec_slot())->0],
                SparseStore::Typed(s) => t@ == s.inner().added_ticks()[s.inner().position(entity.spec_slot())->0],
                SparseStore::Empty => false,
            },
    {
        match self {
            SparseStore::Tag(store) => store.added_tick(entity),
            SparseStore::Typed(store) => store.added_tick(entity),
            SparseStore::Empty => None,
        }
    }

    /// Changed tick of the entity in the active storage.
    pub fn sparse_changed_tick(&self, entity: EntityId) -> (r: Option<ChangeTick>)
        requires
            self.wf(),
        ensures
            r is Some <==> self.holds(entity.spec_slot()),
            r matches Some(t) ==> match self {
                SparseStore::Tag(s) => t@ == s.inner().changed_ticks()[s.inner().position(entity.spec_slot())->0],
                SparseStore::Typed(s) => t@ == s.inner().changed_ticks()[s.inner().position(entity.spec_slot())->0],
                SparseStore::Empty => false,
            },
    {
        match self {
            SparseStore::Tag(store) => store.changed_tick(entity),
            SparseStore::Typed(store) => store.changed_tick(entity),
            SparseStore::Empty => None,
        }
    }

    /// Dense slots of the active storage.
    pub fn dense_slots(&self) -> (r: &[u32])
        ensures
            r@ == self.spec_slots(),
    {
        match self {
            SparseStore::Tag(store) => store.dense_slots(),
            SparseStore::Typed(store) => store.dense_slots(),
            SparseStore::Empty => &[],
        }
    }
}

} // verus!
