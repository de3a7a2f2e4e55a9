//! Entity-indexed sparse array with dense iteration and change ticks.
use vstd::prelude::*;

use crate::entity::EntityId;
use crate::time::ChangeTick;

verus! {

/// Entity-indexed sparse array with dense iteration and change tracking.
///
/// `sparse[slot]` holds the dense position of `slot`; the dense vectors hold,
/// position by position, the slot, the value and its added/changed ticks.
pub struct SparseSet<T> {
    sparse: Vec<Option<usize>>,
    dense: Vec<u32>,
    data: Vec<T>,
    added: Vec<u64>,
    changed: Vec<u64>,
}

impl<T> SparseSet<T> {
    /// The reverse index and the dense columns agree.
    pub closed spec fn wf(&self) -> bool {
        &&& self.dense@.len() <= usize::MAX
        &&& self.dense@.len() == self.data@.len()
        &&& self.dense@.len() == self.added@.len()
        &&& self.dense@.len() == self.changed@.len()
        &&& forall|i: int|
            0 <= i < self.dense@.len() ==> {
                &&& (#[trigger] self.dense@[i]) < self.sparse@.len()
                &&& self.sparse@[self.dense@[i] as int] == Some(i as usize)
            }
        &&& forall|s: int|
            0 <= s < self.sparse@.len() ==> (#[trigger] self.sparse@[s] matches Some(i) ==> {
                &&& i < self.dense@.len()
                &&& self.dense@[i as int] == s
            })
    }

    /// Slots in dense order.
    pub closed spec fn slots(&self) -> Seq<u32> {
        self.dense@
    }

    /// Values in dense order.
    pub closed spec fn values(&self) -> Seq<T> {
        self.data@
    }

    /// Added ticks in dense order.
    pub closed spec fn added_ticks(&self) -> Seq<u64> {
        self.added@
    }

    /// Changed ticks in dense order.
    pub closed spec fn changed_ticks(&self) -> Seq<u64> {
        self.changed@
    }

    /// Dense position of `slot`, if the slot is present.
    pub closed spec fn position(&self, slot: u32) -> Option<int> {
        if (slot as int) < self.sparse@.len() {
            match self.sparse@[slot as int] {
                Some(i) => Some(i as int),
                None => None,
            }
        } else {
            None
        }
    }

    /// A well-formed set's positions are exactly the dense indices of its slots.
    pub proof fn lemma_position(&self, slot: u32)
        requires
            self.wf(),
        ensures
            self.slots().len() == self.values().len(),
            self.slots().len() == self.added_ticks().len(),
            self.slots().len() == self.changed_ticks().len(),
            self.position(slot) matches Some(i) ==> 0 <= i < self.slots().len() && self.slots()[i] == slot,
            forall|i: int| 0 <= i < self.slots().len() && self.slots()[i] == slot ==> self.position(slot) == Some(i),
    {
        if (slot as int) < self.sparse@.len() {
            let _ = self.sparse@[slot as int];
        }
        assert forall|i: int| 0 <= i < self.slots().len() && self.slots()[i] == slot implies self.position(slot) == Some(i) by {
            assert(self.dense@[i] < self.sparse@.len());
            assert(self.sparse@[self.dense@[i] as int] == Some(i as usize));
            assert(self.sparse@[slot as int] == Some(i as usize));
        }
    }

    /// An empty set.
    pub fn new() -> (r: SparseSet<T>)
        ensures
            r.wf(),
            r.slots() == Seq::<u32>::empty(),
            r.values() == Seq::<T>::empty(),
            forall|s: u32| r.position(s) is None,
    {
        SparseSet { sparse: Vec::new(), dense: Vec::new(), data: Vec::new(), added: Vec::new(), changed: Vec::new() }
    }

    /// Number of stored values.
    pub fn len(&self) -> (r: usize)
        requires
            self.wf(),
        ensures
            r == self.slots().len(),
    {
        self.dense.len()
    }

    /// Slots in dense order.
    pub fn dense_slots(&self) -> (r: &[u32])
        ensures
            r@ == self.slots(),
    {
        self.dense.as_slice()
    }

    /// Slot at a dense position.
    pub fn dense_slot(&self, index: usize) -> (r: Option<u32>)
        ensures
            r == if index < self.slots().len() { Some(self.slots()[index as int]) } else { None::<u32> },
    {
        if index < self.dense.len() {
            Some(self.dense[index])
        } else {
            None
        }
    }

    /// Value at a dense position.
    pub fn dense_value(&self, index: usize) -> (r: Option<&T>)
        ensures
            r == if index < self.values().len() { Some(&self.values()[index as int]) } else { None::<&T> },
    {
        if index < self.data.len() {
            Some(&self.data[index])
        } else {
            None
        }
    }

    /// Dense position of the entity's slot.
    pub fn dense_index(&self, entity: EntityId) -> (r: Option<usize>)
        ensures
            r matches Some(i) ==> self.position(entity.spec_slot()) == Some(i as int),
            r is None ==> self.position(entity.spec_slot()) is None,
    {
        let slot = entity.slot() as usize;
        if slot < self.sparse.len() {
            self.sparse[slot]
        } else {
            None
        }
    }

    /// Added tick at a dense position.
    pub fn added_tick(&self, index: usize) -> (r: Option<ChangeTick>)
        ensures
            r matches Some(t) ==> index < self.added_ticks().len() && t@ == self.added_ticks()[index as int],
            r is None <==> index >= self.added_ticks().len(),
    {
        if index < self.added.len() {
            Some(ChangeTick::from_raw(self.added[index]))
        } else {
            None
        }
    }

    /// Changed tick at a dense position.
    pub fn changed_tick(&self, index: usize) -> (r: Option<ChangeTick>)
        ensures
            r matches Some(t) ==> index < self.changed_ticks().len() && t@ == self.changed_ticks()[index as int],
            r is None <==> index >= self.changed_ticks().len(),
    {
        if index < self.changed.len() {
            Some(ChangeTick::from_raw(self.changed[index]))
        } else {
            None
        }
    }

    fn ensure_sparse(&mut self, slot: usize)
        requires
            old(self).wf(),
        ensures
            final(self).wf(),
            final(self).sparse@.len() > slot,
            final(self).dense@ == old(self).dense@,
            final(self).data@ == old(self).data@,
            final(self).added@ == old(self).added@,
            final(self).changed@ == old(self).changed@,
            forall|s: u32| final(self).position(s) == old(self).position(s),
    {
        while self.sparse.len() <= slot
            invariant
                self.wf(),
                self.dense@ == old(self).dense@,
                self.data@ == old(self).data@,
                self.added@ == old(self).added@,
                self.changed@ == old(self).changed@,
                self.sparse@.len() >= old(self).sparse@.len(),
                forall|s: int| 0 <= s < old(self).sparse@.len() ==> self.sparse@[s] == old(self).sparse@[s],
                forall|s: int| old(self).sparse@.len() <= s < self.sparse@.len() ==> self.sparse@[s] is None,
            decreases slot + 1 - self.sparse.len(),
        {
            self.sparse.push(None);
        }
    }

    /// Inserts or replaces the entity's value. A new slot records `tick` as added and
    /// changed; a replacement records it as changed and returns the old value.
    pub fn insert_with_tick(&mut self, entity: EntityId, value: T, tick: ChangeTick) -> (r: Option<T>)
        requires
            old(self).wf(),
            old(self).slots().len() < usize::MAX,
        ensures
            final(self).wf(),
            match old(self).position(entity.spec_slot()) {
                Some(i) => {
                    &&& r == Some(old(self).values()[i])
                    &&& final(self).slots() == old(self).slots()
                    &&& final(self).values() == old(self).values().update(i, value)
                    &&& final(self).added_ticks() == old(self).added_ticks()
                    &&& final(self).changed_ticks() == old(self).changed_ticks().update(i, tick@)
                    &&& forall|s: u32| final(self).position(s) == old(self).position(s)
                },
                None => {
                    &&& r is None
                    &&& final(self).slots() == old(self).slots().push(entity.spec_slot())
                    &&& final(self).values() == old(self).values().push(value)
                    &&& final(self).added_ticks() == old(self).added_ticks().push(tick@)
                    &&& final(self).changed_ticks() == old(self).changed_ticks().push(tick@)
                    &&& final(self).position(entity.spec_slot()) == Some(old(self).slots().len() as int)
                    &&& forall|s: u32| s != entity.spec_slot() ==> final(self).position(s) == old(self).position(s)
                },
            },
    {
        let slot = entity.slot() as usize;
        self.ensure_sparse(slot);
        let raw = tick.raw();
        match self.sparse[slot] {
            Some(dense_idx) => {
                proof {
                    let _ = self.sparse@[slot as int];
                }
                self.changed.set(dense_idx, raw);
                let mut old_value = value;
                std::mem::swap(&mut self.data[dense_idx], &mut old_value);
                Some(old_value)
            },
            None => {
                let dense_idx = self.dense.len();
                self.dense.push(entity.slot());
                self.data.push(value);
                self.added.push(raw);
                self.changed.push(raw);
                self.sparse.set(slot, Some(dense_idx));
                proof {
                    assert forall|i: int| 0 <= i < self.dense@.len() implies {
                        &&& (#[trigger] self.dense@[i]) < self.sparse@.len()
                        &&& self.sparse@[self.dense@[i] as int] == Some(i as usize)
                    } by {
                        if i < dense_idx {
                            let _ = old(self).dense@[i];
                        }
                    }
                    assert forall|s: int| 0 <= s < self.sparse@.len() implies (#[trigger] self.sparse@[s] matches Some(i) ==> {
                        &&& i < self.dense@.len()
                        &&& self.dense@[i as int] == s
                    }) by {
                        if s != slot {
                            let _ = old(self).sparse@[s];
                        }
                    }
                }
                None
            },
        }
    }

    /// Value stored for the entity's slot.
    pub fn get(&self, entity: EntityId) -> (r: Option<&T>)
        requires
            self.wf(),
        ensures
            r == match self.position(entity.spec_slot()) {
                Some(i) => Some(&self.values()[i]),
                None => None::<&T>,
            },
    {
        let slot = entity.slot() as usize;
        if slot < self.sparse.len() {
            match self.sparse[slot] {
                Some(dense_idx) => {
                    proof {
                        let _ = self.sparse@[slot as int];
                    }
                    Some(&self.data[dense_idx])
                },
                None => None,
            }
        } else {
            None
        }
    }

    /// Mutable access to the entity's value, recording `tick` as its changed tick.
    pub fn get_mut_with_tick(&mut self, entity: EntityId, tick: ChangeTick) -> (r: Option<&mut T>)
        requires
            old(self).wf(),
        ensures
            final(self).wf(),
            final(self).slots() == old(self).slots(),
            final(self).added_ticks() == old(self).added_ticks(),
            forall|s: u32| final(self).position(s) == old(self).position(s),
            match old(self).position(entity.spec_slot()) {
                Some(i) => {
                    &&& r matches Some(v) && *v == old(self).values()[i]
                        && final(self).values() == old(self).values().update(i, *final(v))
                    &&& final(self).changed_ticks() == old(self).changed_ticks().update(i, tick@)
                },
                None => {
                    &&& r is None
                    &&& final(self).values() == old(self).values()
                    &&& final(self).changed_ticks() == old(self).changed_ticks()
                },
            },
    {
        let slot = entity.slot() as usize;
        if slot >= self.sparse.len() {
            return None;
        }
        match self.sparse[slot] {
            Some(dense_idx) => {
                proof {
                    let _ = self.sparse@[slot as int];
                }
                self.changed.set(dense_idx, tick.raw());
                Some(&mut self.data[dense_idx])
            },
            None => None,
        }
    }

    /// Whether the entity's slot holds a value.
    pub fn contains_slot(&self, entity: EntityId) -> (r: bool)
        requires
            self.wf(),
        ensures
            r == (self.position(entity.spec_slot()) is Some),
    {
        let slot = entity.slot() as usize;
        if slot < self.sparse.len() {
            match self.sparse[slot] {
                Some(dense_idx) => {
                    proof {
                        let _ = self.sparse@[slot as int];
                    }
                    dense_idx < self.dense.len()
                },
                None => false,
            }
        } else {
            false
        }
    }

    /// Removes the entity's value. The last dense entry moves into the vacated position.
    pub fn remove(&mut self, entity: EntityId) -> (r: Option<T>)
        requires
            old(self).wf(),
        ensures
            final(self).wf(),
            match old(self).position(entity.spec_slot()) {
                Some(i) => {
                    let last = old(self).slots().len() - 1;
                    &&& r == Some(old(self).values()[i])
                    &&& final(self).slots() == old(self).slots().update(i, old(self).slots()[last]).drop_last()
                    &&& final(self).values() == old(self).values().update(i, old(self).values()[last]).drop_last()
                    &&& final(self).added_ticks() == old(self).added_ticks().update(i, old(self).added_ticks()[last]).drop_last()
                    &&& final(self).changed_ticks() == old(self).changed_ticks().update(i, old(self).changed_ticks()[last]).drop_last()
                    &&& final(self).position(entity.spec_slot()) is None
                },
                None => {
                    &&& r is None
                    &&& *final(self) == *old(self)
                },
            },
    {
        let slot = entity.slot() as usize;
        if slot >= self.sparse.len() {
            return None;
        }
        let dense_idx = match self.sparse[slot] {
            Some(i) => i,
            None => {
                return None;
            },
        };
        proof {
            let _ = self.sparse@[slot as int];
        }
        let last_idx = self.dense.len() - 1;
        self.sparse.set(slot, None);
        if dense_idx == last_idx {
            self.dense.pop();
            self.added.pop();
            self.changed.pop();
            let value = self.data.pop();
            proof {
                assert(old(self).slots().update(dense_idx as int, old(self).slots()[last_idx as int]) =~= old(self).slots());
                assert(old(self).values().update(dense_idx as int, old(self).values()[last_idx as int]) =~= old(self).values());
                assert(old(self).added_ticks().update(dense_idx as int, old(self).added_ticks()[last_idx as int]) =~= old(self).added_ticks());
                assert(old(self).changed_ticks().update(dense_idx as int, old(self).changed_ticks()[last_idx as int]) =~= old(self).changed_ticks());
                assert forall|i: int| 0 <= i < self.dense@.len() implies {
                    &&& (#[trigger] self.dense@[i]) < self.sparse@.len()
                    &&& self.sparse@[self.dense@[i] as int] == Some(i as usize)
                } by {
                    let _ = old(self).dense@[i];
                }
                assert forall|s: int| 0 <= s < self.sparse@.len() implies (#[trigger] self.sparse@[s] matches Some(i) ==> {
                    &&& i < self.dense@.len()
                    &&& self.dense@[i as int] == s
                }) by {
                    let _ = old(self).sparse@[s];
                }
            }
            return value;
        }
        let last_slot = self.dense[last_idx];
        proof {
            let _ = old(self).dense@[last_idx as int];
        }
        self.dense.set(dense_idx, last_slot);
        self.dense.pop();
        let value = self.data.swap_remove(dense_idx);
        let _ = self.added.swap_remove(dense_idx);
        let _ = self.changed.swap_remove(dense_idx);
        self.sparse.set(last_slot as usize, Some(dense_idx));
        proof {
            assert(self.dense@ =~= old(self).slots().update(dense_idx as int, old(self).slots()[last_idx as int]).drop_last());
            assert(self.data@ =~= old(self).values().update(dense_idx as int, old(self).values()[last_idx as int]).drop_last());
            assert(self.added@ =~= old(self).added_ticks().update(dense_idx as int, old(self).added_ticks()[last_idx as int]).drop_last());
            assert(self.changed@ =~= old(self).changed_ticks().update(dense_idx as int, old(self).changed_ticks()[last_idx as int]).drop_last());
            assert forall|i: int| 0 <= i < self.dense@.len() implies {
                &&& (#[trigger] self.dense@[i]) < self.sparse@.len()
                &&& self.sparse@[self.dense@[i] as int] == Some(i as usize)
            } by {
                let _ = old(self).dense@[i];
                if i != dense_idx {
                    let _ = old(self).dense@[i];
                }
            }
            assert forall|s: int| 0 <= s < self.sparse@.len() implies (#[trigger] self.sparse@[s] matches Some(i) ==> {
                &&& i < self.dense@.len()
                &&& self.dense@[i as int] == s
            }) by {
                let _ = old(self).sparse@[s];
            }
        }
        Some(value)
    }

    /// Pairs of slot and value in dense order.
    pub fn iter(&self) -> (r: Vec<(u32, &T)>)
        requires
            self.wf(),
        ensures
            r@.len() == self.slots().len(),
            forall|i: int| 0 <= i < r@.len() ==> #[trigger] r@[i] == (self.slots()[i], &self.values()[i]),
    {
        let mut out: Vec<(u32, &T)> = Vec::new();
        let mut i: usize = 0;
        while i < self.dense.len()
            invariant
                self.wf(),
                0 <= i <= self.dense@.len(),
                out@.len() == i,
                forall|j: int| 0 <= j < i ==> #[trigger] out@[j] == (self.slots()[j], &self.values()[j]),
            decreases self.dense@.len() - i,
        {
            out.push((self.dense[i], &self.data[i]));
            i = i + 1;
        }
        out
    }
}

impl<T> SparseSet<T> {
    /// Removing an entity right after adding it gives back the set as it was: its dense
    /// slots, values and ticks.
    pub proof fn law_insert_then_remove(before: Self, added: Self, after: Self, slot: u32, value: T, tick: u64)
        requires
            before.wf(),
            before.position(slot) is None,
            added.slots() == before.slots().push(slot),
            added.values() == before.values().push(value),
            added.added_ticks() == before.added_ticks().push(tick),
            added.changed_ticks() == before.changed_ticks().push(tick),
            added.position(slot) == Some(before.slots().len() as int),
            after.slots() == added.slots().update(before.slots().len() as int, added.slots().last()).drop_last(),
            after.values() == added.values().update(before.slots().len() as int, added.values().last()).drop_last(),
            after.added_ticks() == added.added_ticks().update(before.slots().len() as int, added.added_ticks().last()).drop_last(),
            after.changed_ticks() == added.changed_ticks().update(before.slots().len() as int, added.changed_ticks().last()).drop_last(),
        ensures
            after.slots() == before.slots(),
            after.values() == before.values(),
            after.added_ticks() == before.added_ticks(),
            after.changed_ticks() == before.changed_ticks(),
    {
        assert(after.slots() =~= before.slots());
        assert(after.values() =~= before.values());
        assert(after.added_ticks() =~= before.added_ticks());
        assert(after.changed_ticks() =~= before.changed_ticks());
    }
}

impl<T> Default for SparseSet<T> {
    fn default() -> (r: SparseSet<T>)
        ensures
            r.wf(),
            r.slots() == Seq::<u32>::empty(),
            r.values() == Seq::<T>::empty(),
    {
        SparseSet::new()
    }
}

} // verus!
