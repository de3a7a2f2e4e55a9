//! Per-pass execution scratch state for run conditions and fixed steps.
use vstd::prelude::*;

use core::any::TypeId;

use crate::time::{ChangeTick, FixedStep};
use crate::typeid::same_type_id;

verus! {

/// Last-observed ticks keyed by (system or set index, type id); a key never seen reads as
/// tick zero.
pub struct CursorTable {
    entries: Vec<(usize, TypeId, ChangeTick)>,
}

impl CursorTable {
    /// Stored entries, in insertion order.
    pub closed spec fn spec_entries(&self) -> Seq<(usize, TypeId, ChangeTick)> {
        self.entries@
    }

    /// Each key is stored at most once.
    pub closed spec fn wf(&self) -> bool {
        forall|i: int, j: int|
            0 <= i < self.entries@.len() && 0 <= j < self.entries@.len() && i != j
                ==> (#[trigger] self.entries@[i].0, self.entries@[i].1) != (#[trigger] self.entries@[j].0, self.entries@[j].1)
    }

    /// Whether a tick is stored for the key.
    pub open spec fn has_key(&self, index: usize, id: TypeId) -> bool {
        exists|i: int| 0 <= i < self.spec_entries().len() && #[trigger] self.spec_entries()[i].0 == index
            && self.spec_entries()[i].1 == id
    }

    /// The raw tick read for the key: the stored one, or zero.
    pub open spec fn read(&self, index: usize, id: TypeId) -> u64 {
        if self.has_key(index, id) {
            let i = choose|i: int| 0 <= i < self.spec_entries().len() && #[trigger] self.spec_entries()[i].0 == index
                && self.spec_entries()[i].1 == id;
            self.spec_entries()[i].2@
        } else {
            0
        }
    }

    /// An empty table: every key reads as zero.
    pub fn new() -> (r: CursorTable)
        ensures
            r.wf(),
            forall|index: usize, id: TypeId| r.read(index, id) == 0,
    {
        CursorTable { entries: Vec::new() }
    }

    /// Position of the key's entry.
    fn position(&self, index: usize, id: &TypeId) -> (r: Option<usize>)
        requires
            self.wf(),
        ensures
            match r {
                Some(i) => i < self.spec_entries().len() && self.spec_entries()[i as int].0 == index
                    && self.spec_entries()[i as int].1 == *id && self.read(index, *id) == self.spec_entries()[i as int].2@,
                None => !self.has_key(index, *id) && self.read(index, *id) == 0,
            },
    {
        let mut i: usize = 0;
        while i < self.entries.len()
            invariant
                self.wf(),
                i <= self.entries@.len(),
                forall|j: int| 0 <= j < i ==> !(self.entries@[j].0 == index && self.entries@[j].1 == *id),
            decreases self.entries@.len() - i,
        {
            let entry = &self.entries[i];
            if entry.0 == index && same_type_id(&entry.1, id) {
                proof {
                    let k = choose|k: int| 0 <= k < self.spec_entries().len() && #[trigger] self.spec_entries()[k].0 == index
                        && self.spec_entries()[k].1 == *id;
                    if k != i as int {
                        assert((self.entries@[k].0, self.entries@[k].1) != (self.entries@[i as int].0, self.entries@[i as int].1));
                    }
                }
                return Some(i);
            }
            i = i + 1;
        }
        None
    }

    /// The tick last stored for the key, or zero.
    pub fn get(&self, index: usize, id: TypeId) -> (r: ChangeTick)
        requires
            self.wf(),
        ensures
            r@ == self.read(index, id),
    {
        match self.position(index, &id) {
            Some(i) => self.entries[i].2,
            None => ChangeTick::zero(),
        }
    }

    /// Stores `tick` for the key; every other key reads as before.
    pub fn insert(&mut self, index: usize, id: TypeId, tick: ChangeTick)
        requires
            old(self).wf(),
        ensures
            final(self).wf(),
            final(self).read(index, id) == tick@,
            forall|i2: usize, id2: TypeId|
                !(i2 == index && id2 == id) ==> #[trigger] final(self).read(i2, id2) == old(self).read(i2, id2),
    {
        let ghost pre = self.spec_entries();
        match self.position(index, &id) {
            Some(i) => {
                self.entries.set(i, (index, id, tick));
                proof {
                    assert forall|a: int, b: int|
                        0 <= a < self.entries@.len() && 0 <= b < self.entries@.len() && a != b
                        implies (#[trigger] self.entries@[a].0, self.entries@[a].1) != (#[trigger] self.entries@[b].0, self.entries@[b].1) by {
                        assert((pre[a].0, pre[a].1) == (self.entries@[a].0, self.entries@[a].1));
                        assert((pre[b].0, pre[b].1) == (self.entries@[b].0, self.entries@[b].1));
                        assert((pre[a].0, pre[a].1) != (pre[b].0, pre[b].1));
                    }
                    assert(self.spec_entries()[i as int].0 == index && self.spec_entries()[i as int].1 == id);
                    self.lemma_read_at(i as int);
                    assert forall|i2: usize, id2: TypeId|
                        !(i2 == index && id2 == id) implies #[trigger] self.read(i2, id2) == old(self).read(i2, id2) by {
                        self.lemma_keys_moved(*old(self), i2, id2, i as int);
                    }
                }
            },
            None => {
                self.entries.push((index, id, tick));
                proof {
                    let n = pre.len();
                    assert forall|a: int, b: int|
                        0 <= a < self.entries@.len() && 0 <= b < self.entries@.len() && a != b
                        implies (#[trigger] self.entries@[a].0, self.entries@[a].1) != (#[trigger] self.entries@[b].0, self.entries@[b].1) by {
                        if a < n && b < n {
                            assert((pre[a].0, pre[a].1) != (pre[b].0, pre[b].1));
                        } else if a < n {
                            assert(!(pre[a].0 == index && pre[a].1 == id));
                        } else if b < n {
                            assert(!(pre[b].0 == index && pre[b].1 == id));
                        }
                    }
                    assert(self.spec_entries()[n as int].0 == index && self.spec_entries()[n as int].1 == id);
                    self.lemma_read_at(n as int);
                    assert forall|i2: usize, id2: TypeId|
                        !(i2 == index && id2 == id) implies #[trigger] self.read(i2, id2) == old(self).read(i2, id2) by {
                        self.lemma_keys_moved(*old(self), i2, id2, n as int);
                    }
                }
            },
        }
    }

    /// In a well-formed table, the entry holding a key is the one `read` finds.
    proof fn lemma_read_at(&self, i: int)
        requires
            self.wf(),
            0 <= i < self.spec_entries().len(),
        ensures
            self.read(self.spec_entries()[i].0, self.spec_entries()[i].1) == self.spec_entries()[i].2@,
    {
        let index = self.spec_entries()[i].0;
        let id = self.spec_entries()[i].1;
        assert(self.has_key(index, id));
        let k = choose|k: int| 0 <= k < self.spec_entries().len() && #[trigger] self.spec_entries()[k].0 == index
            && self.spec_entries()[k].1 == id;
        if k != i {
            assert((self.entries@[k].0, self.entries@[k].1) != (self.entries@[i].0, self.entries@[i].1));
        }
    }

    /// A key other than the one at `changed` reads the same as in `pre`, when `self` agrees
    /// with `pre` everywhere but at `changed` (or extends it by `changed`).
    proof fn lemma_keys_moved(&self, pre: CursorTable, index: usize, id: TypeId, changed: int)
        requires
            self.wf(),
            pre.wf(),
            0 <= changed < self.spec_entries().len(),
            !(self.spec_entries()[changed].0 == index && self.spec_entries()[changed].1 == id),
            pre.spec_entries().len() == self.spec_entries().len() || pre.spec_entries().len() + 1
                == self.spec_entries().len(),
            pre.spec_entries().len() + 1 == self.spec_entries().len() ==> changed == pre.spec_entries().len(),
            forall|j: int| 0 <= j < self.spec_entries().len() && j != changed ==> self.spec_entries()[j] == pre.spec_entries()[j],
            changed < pre.spec_entries().len() ==> !(pre.spec_entries()[changed].0 == index && pre.spec_entries()[changed].1 == id),
        ensures
            self.read(index, id) == pre.read(index, id),
    {
        if self.has_key(index, id) {
            let k = choose|k: int| 0 <= k < self.spec_entries().len() && #[trigger] self.spec_entries()[k].0 == index
                && self.spec_entries()[k].1 == id;
            assert(k != changed);
            assert(pre.spec_entries()[k] == self.spec_entries()[k]);
            pre.lemma_read_at(k);
            self.lemma_read_at(k);
        } else if pre.has_key(index, id) {
            let k = choose|k: int| 0 <= k < pre.spec_entries().len() && #[trigger] pre.spec_entries()[k].0 == index
                && pre.spec_entries()[k].1 == id;
            assert(k != changed);
            assert(self.spec_entries()[k] == pre.spec_entries()[k]);
            assert(self.has_key(index, id));
        }
    }
}

/// Per-pass execution scratch state for conditions and fixed steps.
pub struct RunContext {
    fixed_step: Option<FixedStep>,
    resource_added_cursors: CursorTable,
    resource_changed_cursors: CursorTable,
    state_transition_cursors: CursorTable,
    set_resource_added_cursors: CursorTable,
    set_resource_changed_cursors: CursorTable,
    set_state_transition_cursors: CursorTable,
    set_gate_cache: Vec<Option<bool>>,
}

impl RunContext {
    /// Every cursor table is well formed.
    pub closed spec fn wf(&self) -> bool {
        &&& self.resource_added_cursors.wf()
        &&& self.resource_changed_cursors.wf()
        &&& self.state_transition_cursors.wf()
        &&& self.set_resource_added_cursors.wf()
        &&& self.set_resource_changed_cursors.wf()
        &&& self.set_state_transition_cursors.wf()
    }

    /// The fixed substep being run, if any.
    pub closed spec fn fixed(&self) -> Option<FixedStep> {
        self.fixed_step
    }

    /// Cached set gate answers, by set index.
    pub closed spec fn gates(&self) -> Seq<Option<bool>> {
        self.set_gate_cache@
    }

    /// Raw cursor of system `index` for resource-added checks on `id`.
    pub closed spec fn added_cursor(&self, index: usize, id: TypeId) -> u64 {
        self.resource_added_cursors.read(index, id)
    }

    /// Raw cursor of system `index` for resource-changed checks on `id`.
    pub closed spec fn changed_cursor(&self, index: usize, id: TypeId) -> u64 {
        self.resource_changed_cursors.read(index, id)
    }

    /// Raw cursor of system `index` for state-transition checks on `id`.
    pub closed spec fn transition_cursor(&self, index: usize, id: TypeId) -> u64 {
        self.state_transition_cursors.read(index, id)
    }

    /// Raw cursor of set `index` for resource-added checks on `id`.
    pub closed spec fn set_added_cursor(&self, index: usize, id: TypeId) -> u64 {
        self.set_resource_added_cursors.read(index, id)
    }

    /// Raw cursor of set `index` for resource-changed checks on `id`.
    pub closed spec fn set_changed_cursor(&self, index: usize, id: TypeId) -> u64 {
        self.set_resource_changed_cursors.read(index, id)
    }

    /// Raw cursor of set `index` for state-transition checks on `id`.
    pub closed spec fn set_transition_cursor(&self, index: usize, id: TypeId) -> u64 {
        self.set_state_transition_cursors.read(index, id)
    }

    /// Fresh context with no fixed step, zero cursors and no cached set gates.
    pub fn new() -> (r: RunContext)
        ensures
            r.wf(),
            r.fixed() is None,
            r.gates() == Seq::<Option<bool>>::empty(),
            forall|i: usize, id: TypeId| r.added_cursor(i, id) == 0 && r.changed_cursor(i, id) == 0
                && r.transition_cursor(i, id) == 0,
            forall|i: usize, id: TypeId| r.set_added_cursor(i, id) == 0 && r.set_changed_cursor(i, id) == 0
                && r.set_transition_cursor(i, id) == 0,
    {
        Self::with_set_capacity(0)
    }

    /// Fresh context with `set_count` empty set-gate slots.
    pub fn with_set_capacity(set_count: usize) -> (r: RunContext)
        ensures
            r.wf(),
            r.fixed() is None,
            r.gates() == Seq::new(set_count as nat, |i: int| None::<bool>),
            forall|i: usize, id: TypeId| r.added_cursor(i, id) == 0 && r.changed_cursor(i, id) == 0
                && r.transition_cursor(i, id) == 0,
            forall|i: usize, id: TypeId| r.set_added_cursor(i, id) == 0 && r.set_changed_cursor(i, id) == 0
                && r.set_transition_cursor(i, id) == 0,
    {
        let mut gates: Vec<Option<bool>> = Vec::new();
        let mut i: usize = 0;
        while i < set_count
            invariant
                i <= set_count,
                gates@ == Seq::new(i as nat, |k: int| None::<bool>),
            decreases set_count - i,
        {
            gates.push(None);
            i = i + 1;
            proof {
                assert(gates@ =~= Seq::new(i as nat, |k: int| None::<bool>));
            }
        }
        RunContext {
            fixed_step: None,
            resource_added_cursors: CursorTable::new(),
            resource_changed_cursors: CursorTable::new(),
            state_transition_cursors: CursorTable::new(),
            set_resource_added_cursors: CursorTable::new(),
            set_resource_changed_cursors: CursorTable::new(),
            set_state_transition_cursors: CursorTable::new(),
            set_gate_cache: gates,
        }
    }

    /// Number of set-gate slots.
    pub fn set_gate_capacity(&self) -> (r: usize)
        ensures
            r == self.gates().len(),
    {
        self.set_gate_cache.len()
    }

    /// Forgets every cached set gate answer, keeping the slots.
    pub fn clear_set_cache(&mut self)
        ensures
            final(self).wf() == old(self).wf(),
            final(self).gates() == Seq::new(old(self).gates().len(), |i: int| None::<bool>),
            final(self).fixed() == old(self).fixed(),
            forall|i: usize, id: TypeId| final(self).added_cursor(i, id) == old(self).added_cursor(i, id)
                && final(self).changed_cursor(i, id) == old(self).changed_cursor(i, id)
                && final(self).transition_cursor(i, id) == old(self).transition_cursor(i, id),
            forall|i: usize, id: TypeId| final(self).set_added_cursor(i, id) == old(self).set_added_cursor(i, id)
                && final(self).set_changed_cursor(i, id) == old(self).set_changed_cursor(i, id)
                && final(self).set_transition_cursor(i, id) == old(self).set_transition_cursor(i, id),
    {
        let n = self.set_gate_cache.len();
        let mut i: usize = 0;
        while i < n
            invariant
                n == self.set_gate_cache@.len(),
                n == old(self).set_gate_cache@.len(),
                i <= n,
                forall|k: int| 0 <= k < i ==> self.set_gate_cache@[k] is None,
                self.fixed_step == old(self).fixed_step,
                self.resource_added_cursors == old(self).resource_added_cursors,
                self.resource_changed_cursors == old(self).resource_changed_cursors,
                self.state_transition_cursors == old(self).state_transition_cursors,
                self.set_resource_added_cursors == old(self).set_resource_added_cursors,
                self.set_resource_changed_cursors == old(self).set_resource_changed_cursors,
                self.set_state_transition_cursors == old(self).set_state_transition_cursors,
            decreases n - i,
        {
            self.set_gate_cache.set(i, None);
            i = i + 1;
        }
        proof {
            assert(self.set_gate_cache@ =~= Seq::new(n as nat, |i: int| None::<bool>));
        }
    }

    /// Records whether set `set_index` may run, extending the cache with empty slots when the
    /// index lies beyond its end.
    pub fn set_gate(&mut self, set_index: usize, allowed: bool)
        requires
            set_index < usize::MAX,
        ensures
            final(self).wf() == old(self).wf(),
            final(self).gates().len() == if set_index < old(self).gates().len() {
                old(self).gates().len() as int
            } else {
                set_index + 1
            },
            final(self).gates()[set_index as int] == Some(allowed),
            forall|i: int| 0 <= i < final(self).gates().len() && i != set_index ==> final(self).gates()[i] == if i
                < old(self).gates().len() {
                old(self).gates()[i]
            } else {
                None::<bool>
            },
            final(self).fixed() == old(self).fixed(),
            forall|i: usize, id: TypeId| final(self).added_cursor(i, id) == old(self).added_cursor(i, id)
                && final(self).changed_cursor(i, id) == old(self).changed_cursor(i, id)
                && final(self).transition_cursor(i, id) == old(self).transition_cursor(i, id),
            forall|i: usize, id: TypeId| final(self).set_added_cursor(i, id) == old(self).set_added_cursor(i, id)
                && final(self).set_changed_cursor(i, id) == old(self).set_changed_cursor(i, id)
                && final(self).set_transition_cursor(i, id) == old(self).set_transition_cursor(i, id),
    {
        while self.set_gate_cache.len() <= set_index
            invariant
                set_index < usize::MAX,
                self.set_gate_cache@.len() <= if set_index < old(self).gates().len() {
                    old(self).gates().len() as int
                } else {
                    set_index + 1
                },
                self.set_gate_cache@.len() >= old(self).gates().len(),
                forall|i: int| 0 <= i < self.set_gate_cache@.len() ==> self.set_gate_cache@[i] == if i < old(
                    self,
                ).gates().len() {
                    old(self).gates()[i]
                } else {
                    None::<bool>
                },
                self.fixed_step == old(self).fixed_step,
                self.resource_added_cursors == old(self).resource_added_cursors,
                self.resource_changed_cursors == old(self).resource_changed_cursors,
                self.state_transition_cursors == old(self).state_transition_cursors,
                self.set_resource_added_cursors == old(self).set_resource_added_cursors,
                self.set_resource_changed_cursors == old(self).set_resource_changed_cursors,
                self.set_state_transition_cursors == old(self).set_state_transition_cursors,
            decreases set_index + 1 - self.set_gate_cache@.len(),
        {
            self.set_gate_cache.push(None);
        }
        self.set_gate_cache.set(set_index, Some(allowed));
    }

    /// Cached gate answer of set `set_index`, if any.
    pub fn set_gate_cached(&self, set_index: usize) -> (r: Option<bool>)
        ensures
            r == if set_index < self.gates().len() {
                self.gates()[set_index as int]
            } else {
                None::<bool>
            },
    {
        if set_index < self.set_gate_cache.len() {
            self.set_gate_cache[set_index]
        } else {
            None
        }
    }

    /// Cursor of system `system_index` for resource-added checks on `type_id`.
    pub fn resource_added_cursor(&self, system_index: usize, type_id: TypeId) -> (r: ChangeTick)
        requires
            self.wf(),
        ensures
            r@ == self.added_cursor(system_index, type_id),
    {
        self.resource_added_cursors.get(system_index, type_id)
    }

    /// Cursor of system `system_index` for resource-changed checks on `type_id`.
    pub fn resource_changed_cursor(&self, system_index: usize, type_id: TypeId) -> (r: ChangeTick)
        requires
            self.wf(),
        ensures
            r@ == self.changed_cursor(system_index, type_id),
    {
        self.resource_changed_cursors.get(system_index, type_id)
    }

    /// Cursor of system `system_index` for state-transition checks on `type_id`.
    pub fn state_transition_cursor(&self, system_index: usize, type_id: TypeId) -> (r: ChangeTick)
        requires
            self.wf(),
        ensures
            r@ == self.transition_cursor(system_index, type_id),
    {
        self.state_transition_cursors.get(system_index, type_id)
    }

    /// Cursor of set `set_index` for resource-added checks on `type_id`.
    pub fn resource_added_cursor_for_set(&self, set_index: usize, type_id: TypeId) -> (r: ChangeTick)
        requires
            self.wf(),
        ensures
            r@ == self.set_added_cursor(set_index, type_id),
    {
        self.set_resource_added_cursors.get(set_index, type_id)
    }

    /// Cursor of set `set_index` for resource-changed checks on `type_id`.
    pub fn resource_changed_cursor_for_set(&self, set_index: usize, type_id: TypeId) -> (r: ChangeTick)
        requires
            self.wf(),
        ensures
            r@ == self.set_changed_cursor(set_index, type_id),
    {
        self.set_resource_changed_cursors.get(set_index, type_id)
    }

    /// Cursor of set `set_index` for state-transition checks on `type_id`.
    pub fn state_transition_cursor_for_set(&self, set_index: usize, type_id: TypeId) -> (r: ChangeTick)
        requires
            self.wf(),
        ensures
            r@ == self.set_transition_cursor(set_index, type_id),
    {
        self.set_state_transition_cursors.get(set_index, type_id)
    }

    /// The fixed substep being run, if any.
    pub fn fixed_step(&self) -> (r: Option<FixedStep>)
        ensures
            r == self.fixed(),
    {
        self.fixed_step
    }

    /// Records the fixed substep being run; nothing else changes.
    pub fn set_fixed_step(&mut self, step: Option<FixedStep>)
        ensures
            final(self).fixed() == step,
            final(self).wf() == old(self).wf(),
            final(self).gates() == old(self).gates(),
            forall|i: usize, id: TypeId| final(self).added_cursor(i, id) == old(self).added_cursor(i, id)
                && final(self).changed_cursor(i, id) == old(self).changed_cursor(i, id)
                && final(self).transition_cursor(i, id) == old(self).transition_cursor(i, id),
            forall|i: usize, id: TypeId| final(self).set_added_cursor(i, id) == old(self).set_added_cursor(i, id)
                && final(self).set_changed_cursor(i, id) == old(self).set_changed_cursor(i, id)
                && final(self).set_transition_cursor(i, id) == old(self).set_transition_cursor(i, id),
    {
        self.fixed_step = step;
    }

    /// Records `tick` as the system's cursor for `type_id`; every other cursor stays.
    pub fn set_resource_added_cursor(&mut self, index: usize, type_id: TypeId, tick: ChangeTick)
        requires
            old(self).wf(),
        ensures
            final(self).wf(),
            final(self).added_cursor(index, type_id) == tick@,
            forall|i: usize, id: TypeId|
                !(i == index && id == type_id) ==> #[trigger] final(self).added_cursor(i, id) == old(self).added_cursor(i, id),
            forall|i: usize, id: TypeId| #[trigger] final(self).changed_cursor(i, id) == old(self).changed_cursor(i, id),
            forall|i: usize, id: TypeId| #[trigger] final(self).transition_cursor(i, id) == old(self).transition_cursor(i, id),
            forall|i: usize, id: TypeId| #[trigger] final(self).set_added_cursor(i, id) == old(self).set_added_cursor(i, id),
            forall|i: usize, id: TypeId| #[trigger] final(self).set_changed_cursor(i, id) == old(self).set_changed_cursor(i, id),
            forall|i: usize, id: TypeId| #[trigger] final(self).set_transition_cursor(i, id) == old(self).set_transition_cursor(i, id),
            final(self).fixed() == old(self).fixed(),
            final(self).gates() == old(self).gates(),
    {
        self.resource_added_cursors.insert(index, type_id, tick);
    }

    /// Records `tick` as the system's cursor for `type_id`; every other cursor stays.
    pub fn set_resource_changed_cursor(&mut self, index: usize, type_id: TypeId, tick: ChangeTick)
        requires
            old(self).wf(),
        ensures
            final(self).wf(),
            final(self).changed_cursor(index, type_id) == tick@,
            forall|i: usize, id: TypeId|
                !(i == index && id == type_id) ==> #[trigger] final(self).changed_cursor(i, id) == old(self).changed_cursor(i, id),
            forall|i: usize, id: TypeId| #[trigger] final(self).added_cursor(i, id) == old(self).added_cursor(i, id),
            forall|i: usize, id: TypeId| #[trigger] final(self).transition_cursor(i, id) == old(self).transition_cursor(i, id),
            forall|i: usize, id: TypeId| #[trigger] final(self).set_added_cursor(i, id) == old(self).set_added_cursor(i, id),
            forall|i: usize, id: TypeId| #[trigger] final(self).set_changed_cursor(i, id) == old(self).set_changed_cursor(i, id),
            forall|i: usize, id: TypeId| #[trigger] final(self).set_transition_cursor(i, id) == old(self).set_transition_cursor(i, id),
            final(self).fixed() == old(self).fixed(),
            final(self).gates() == old(self).gates(),
    {
        self.resource_changed_cursors.insert(index, type_id, tick);
    }

    /// Records `tick` as the system's cursor for `type_id`; every other cursor stays.
    pub fn set_state_transition_cursor(&mut self, index: usize, type_id: TypeId, tick: ChangeTick)
        requires
            old(self).wf(),
        ensures
            final(self).wf(),
            final(self).transition_cursor(index, type_id) == tick@,
            forall|i: usize, id: TypeId|
                !(i == index && id == type_id) ==> #[trigger] final(self).transition_cursor(i, id) == old(self).transition_cursor(i, id),
            forall|i: usize, id: TypeId| #[trigger] final(self).added_cursor(i, id) == old(self).added_cursor(i, id),
            forall|i: usize, id: TypeId| #[trigger] final(self).changed_cursor(i, id) == old(self).changed_cursor(i, id),
            forall|i: usize, id: TypeId| #[trigger] final(self).set_added_cursor(i, id) == old(self).set_added_cursor(i, id),
            forall|i: usize, id: TypeId| #[trigger] final(self).set_changed_cursor(i, id) == old(self).set_changed_cursor(i, id),
            forall|i: usize, id: TypeId| #[trigger] final(self).set_transition_cursor(i, id) == old(self).set_transition_cursor(i, id),
            final(self).fixed() == old(self).fixed(),
            final(self).gates() == old(self).gates(),
    {
        self.state_transition_cursors.insert(index, type_id, tick);
    }

    /// Records `tick` as the set's cursor for `type_id`; every other cursor stays.
    pub fn set_resource_added_cursor_for_set(&mut self, index: usize, type_id: TypeId, tick: ChangeTick)
        requires
            old(self).wf(),
        ensures
            final(self).wf(),
            final(self).set_added_cursor(index, type_id) == tick@,
            forall|i: usize, id: TypeId|
                !(i == index && id == type_id) ==> #[trigger] final(self).set_added_cursor(i, id) == old(self).set_added_cursor(i, id),
            forall|i: usize, id: TypeId| #[trigger] final(self).added_cursor(i, id) == old(self).added_cursor(i, id),
            forall|i: usize, id: TypeId| #[trigger] final(self).changed_cursor(i, id) == old(self).changed_cursor(i, id),
            forall|i: usize, id: TypeId| #[trigger] final(self).transition_cursor(i, id) == old(self).transition_cursor(i, id),
            forall|i: usize, id: TypeId| #[trigger] final(self).set_changed_cursor(i, id) == old(self).set_changed_cursor(i, id),
            forall|i: usize, id: TypeId| #[trigger] final(self).set_transition_cursor(i, id) == old(self).set_transition_cursor(i, id),
            final(self).fixed() == old(self).fixed(),
            final(self).gates() == old(self).gates(),
    {
        self.set_resource_added_cursors.insert(index, type_id, tick);
    }

    /// Records `tick` as the set's cursor for `type_id`; every other cursor stays.
    pub fn set_resource_changed_cursor_for_set(&mut self, index: usize, type_id: TypeId, tick: ChangeTick)
        requires
            old(self).wf(),
        ensures
            final(self).wf(),
            final(self).set_changed_cursor(index, type_id) == tick@,
            forall|i: usize, id: TypeId|
                !(i == index && id == type_id) ==> #[trigger] final(self).set_changed_cursor(i, id) == old(self).set_changed_cursor(i, id),
            forall|i: usize, id: TypeId| #[trigger] final(self).added_cursor(i, id) == old(self).added_cursor(i, id),
            forall|i: usize, id: TypeId| #[trigger] final(self).changed_cursor(i, id) == old(self).changed_cursor(i, id),
            forall|i: usize, id: TypeId| #[trigger] final(self).transition_cursor(i, id) == old(self).transition_cursor(i, id),
            forall|i: usize, id: TypeId| #[trigger] final(self).set_added_cursor(i, id) == old(self).set_added_cursor(i, id),
            forall|i: usize, id: TypeId| #[trigger] final(self).set_transition_cursor(i, id) == old(self).set_transition_cursor(i, id),
            final(self).fixed() == old(self).fixed(),
            final(self).gates() == old(self).gates(),
    {
        self.set_resource_changed_cursors.insert(index, type_id, tick);
    }

    /// Records `tick` as the set's cursor for `type_id`; every other cursor stays.
    pub fn set_state_transition_cursor_for_set(&mut self, index: usize, type_id: TypeId, tick: ChangeTick)
        requires
            old(self).wf(),
        ensures
            final(self).wf(),
            final(self).set_transition_cursor(index, type_id) == tick@,
            forall|i: usize, id: TypeId|
                !(i == index && id == type_id) ==> #[trigger] final(self).set_transition_cursor(i, id) == old(self).set_transition_cursor(i, id),
            forall|i: usize, id: TypeId| #[trigger] final(self).added_cursor(i, id) == old(self).added_cursor(i, id),
            forall|i: usize, id: TypeId| #[trigger] final(self).changed_cursor(i, id) == old(self).changed_cursor(i, id),
            forall|i: usize, id: TypeId| #[trigger] final(self).transition_cursor(i, id) == old(self).transition_cursor(i, id),
            forall|i: usize, id: TypeId| #[trigger] final(self).set_added_cursor(i, id) == old(self).set_added_cursor(i, id),
            forall|i: usize, id: TypeId| #[trigger] final(self).set_changed_cursor(i, id) == old(self).set_changed_cursor(i, id),
            final(self).fixed() == old(self).fixed(),
            final(self).gates() == old(self).gates(),
    {
        self.set_state_transition_cursors.insert(index, type_id, tick);
    }
}


impl Default for RunContext {
    /// The same as [`RunContext::new`].
    fn default() -> (r: RunContext)
        ensures
            r.wf(),
            r.fixed() is None,
            r.gates() == Seq::<Option<bool>>::empty(),
            forall|i: usize, id: TypeId| r.added_cursor(i, id) == 0 && r.changed_cursor(i, id) == 0
                && r.transition_cursor(i, id) == 0,
            forall|i: usize, id: TypeId| r.set_added_cursor(i, id) == 0 && r.set_changed_cursor(i, id) == 0
                && r.set_transition_cursor(i, id) == 0,
    {
        RunContext::new()
    }
}

} // verus!
