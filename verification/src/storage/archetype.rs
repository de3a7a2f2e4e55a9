//! Signature-grouped entity rows and column migration between archetype tables.
use vstd::prelude::*;

use crate::entity::EntityId;
use crate::storage::table::{swap_removed, TypedTableColumn};
use crate::time::{tick_matches, ChangeTick};

verus! {

/// A signature is strictly increasing, hence free of duplicates.
pub open spec fn strictly_sorted(s: Seq<u32>) -> bool {
    forall|i: int, j: int| 0 <= i < j < s.len() ==> s[i] < s[j]
}

/// A strictly increasing list of component indices is fixed by the indices it holds: two
/// such lists with the same indices are equal.
pub proof fn lemma_sorted_indices_unique(a: Seq<u32>, b: Seq<u32>)
    requires
        strictly_sorted(a),
        strictly_sorted(b),
        a.to_set() == b.to_set(),
    ensures
        a == b,
    decreases a.len() + b.len(),
{
    if a.len() == 0 {
        if b.len() > 0 {
            assert(b.to_set().contains(b[0]));
        }
        assert(a =~= b);
    } else if b.len() == 0 {
        assert(a.to_set().contains(a[0]));
    } else {
        assert(a.to_set().contains(a[0]));
        assert(b.to_set().contains(b[0]));
        let pa = choose|p: int| 0 <= p < b.len() && b[p] == a[0];
        let pb = choose|p: int| 0 <= p < a.len() && a[p] == b[0];
        if pa > 0 && pb > 0 {
            assert(b[0] < b[pa]);
            assert(a[0] < a[pb]);
        }
        assert(a[0] == b[0]);
        let ta = a.drop_first();
        let tb = b.drop_first();
        assert forall|x: u32| ta.to_set().contains(x) implies tb.to_set().contains(x) by {
            let q = choose|q: int| 0 <= q < ta.len() && ta[q] == x;
            assert(a[q + 1] == x);
            assert(b.to_set().contains(x));
            let r = choose|r: int| 0 <= r < b.len() && b[r] == x;
            assert(r != 0);
            assert(tb[r - 1] == x);
        }
        assert forall|x: u32| tb.to_set().contains(x) implies ta.to_set().contains(x) by {
            let q = choose|q: int| 0 <= q < tb.len() && tb[q] == x;
            assert(b[q + 1] == x);
            assert(a.to_set().contains(x));
            let r = choose|r: int| 0 <= r < a.len() && a[r] == x;
            assert(r != 0);
            assert(ta[r - 1] == x);
        }
        assert(ta.to_set() =~= tb.to_set());
        lemma_sorted_indices_unique(ta, tb);
        assert(a =~= seq![a[0]] + ta);
        assert(b =~= seq![b[0]] + tb);
    }
}

/// Column position of component `c` in signature `s`.
pub open spec fn column_of(s: Seq<u32>, c: u32) -> int {
    choose|k: int| 0 <= k < s.len() && s[k] == c
}

/// In a strictly sorted signature a component sits at exactly one position.
pub proof fn lemma_column_of(s: Seq<u32>, c: u32, k: int)
    requires
        strictly_sorted(s),
        0 <= k < s.len(),
        s[k] == c,
    ensures
        column_of(s, c) == k,
{
    let j = column_of(s, c);
    assert(0 <= j < s.len() && s[j] == c);
    if j < k {
        assert(s[j] < s[k]);
    } else if k < j {
        assert(s[k] < s[j]);
    }
}

/// Whether the signature holds `component_index`.
fn sig_position(sig: &Vec<u32>, component_index: u32) -> (r: Option<usize>)
    ensures
        r matches Some(k) ==> k < sig@.len() && sig@[k as int] == component_index,
        r is None ==> !sig@.contains(component_index),
{
    let mut k: usize = 0;
    while k < sig.len()
        invariant
            0 <= k <= sig@.len(),
            forall|j: int| 0 <= j < k ==> sig@[j] != component_index,
        decreases sig@.len() - k,
    {
        if sig[k] == component_index {
            return Some(k);
        }
        k = k + 1;
    }
    None
}

fn sig_contains(sig: &Vec<u32>, component_index: u32) -> (r: bool)
    ensures
        r == sig@.contains(component_index),
{
    match sig_position(sig, component_index) {
        Some(k) => {
            proof {
                assert(sig@[k as int] == component_index);
            }
            true
        },
        None => false,
    }
}

/// The sorted signature extended with `component_index`.
pub fn sig_with_added(sig: &Vec<u32>, component_index: u32) -> (r: Vec<u32>)
    requires
        strictly_sorted(sig@),
    ensures
        strictly_sorted(r@),
        r@.to_set() == sig@.to_set().insert(component_index),
        r@.len() <= sig@.len() + 1,
{
    let mut k: usize = 0;
    while k < sig.len() && sig[k] < component_index
        invariant
            0 <= k <= sig@.len(),
            forall|j: int| 0 <= j < k ==> sig@[j] < component_index,
        decreases sig@.len() - k,
    {
        k = k + 1;
    }
    let mut out = sig.clone();
    proof {
        assert(out@ == sig@);
    }
    if k < sig.len() && sig[k] == component_index {
        return out;
    }
    out.insert(k, component_index);
    proof {
        assert forall|i: int, j: int| 0 <= i < j < out@.len() implies out@[i] < out@[j] by {
            if j < k {
            } else if i < k && j == k {
            } else if i < k {
                assert(sig@[i] < sig@[j - 1] || i == j - 1);
            } else if i == k {
                assert(sig@[k as int] >= component_index);
                assert(sig@[j - 1] >= sig@[k as int]);
            } else {
            }
        }
        assert(out@.to_set() =~= sig@.to_set().insert(component_index)) by {
            assert forall|x: u32| out@.to_set().contains(x) implies sig@.to_set().insert(component_index).contains(x) by {
                let i = choose|i: int| 0 <= i < out@.len() && out@[i] == x;
                if i < k {
                    assert(sig@[i] == x);
                } else if i > k {
                    assert(sig@[i - 1] == x);
                }
            }
            assert forall|x: u32| sig@.to_set().insert(component_index).contains(x) implies out@.to_set().contains(x) by {
                if x == component_index {
                    assert(out@[k as int] == x);
                } else {
                    let i = choose|i: int| 0 <= i < sig@.len() && sig@[i] == x;
                    if i < k {
                        assert(out@[i] == x);
                    } else {
                        assert(out@[i + 1] == x);
                    }
                }
            }
        }
    }
    out
}

/// The sorted signature without `component_index`.
pub fn sig_with_removed(sig: &Vec<u32>, component_index: u32) -> (r: Vec<u32>)
    requires
        strictly_sorted(sig@),
    ensures
        strictly_sorted(r@),
        r@.to_set() == sig@.to_set().remove(component_index),
        r@.len() <= sig@.len(),
{
    let mut out = sig.clone();
    proof {
        assert(out@ == sig@);
    }
    match sig_position(sig, component_index) {
        None => {
            proof {
                assert(sig@.to_set() =~= sig@.to_set().remove(component_index));
            }
            out
        },
        Some(k) => {
            out.remove(k);
            proof {
                assert forall|i: int, j: int| 0 <= i < j < out@.len() implies out@[i] < out@[j] by {
                    if j < k {
                    } else if i < k {
                        assert(sig@[i] < sig@[j + 1]);
                    } else {
                        assert(sig@[i + 1] < sig@[j + 1]);
                    }
                }
                assert(out@.to_set() =~= sig@.to_set().remove(component_index)) by {
                    assert forall|x: u32| out@.to_set().contains(x) implies sig@.to_set().remove(component_index).contains(x) by {
                        let i = choose|i: int| 0 <= i < out@.len() && out@[i] == x;
                        if i < k {
                            assert(sig@[i] == x);
                            assert(sig@[i] < sig@[k as int]);
                        } else {
                            assert(sig@[i + 1] == x);
                            assert(sig@[k as int] < sig@[i + 1]);
                        }
                    }
                    assert forall|x: u32| sig@.to_set().remove(component_index).contains(x) implies out@.to_set().contains(x) by {
                        let i = choose|i: int| 0 <= i < sig@.len() && sig@[i] == x;
                        if i < k {
                            assert(out@[i] == x);
                        } else {
                            assert(i != k);
                            assert(out@[i - 1] == x);
                        }
                    }
                }
            }
            out
        },
    }
}

fn sig_equal(a: &Vec<u32>, b: &Vec<u32>) -> (r: bool)
    ensures
        r == (a@ == b@),
{
    if a.len() != b.len() {
        return false;
    }
    let mut k: usize = 0;
    while k < a.len()
        invariant
            a@.len() == b@.len(),
            0 <= k <= a@.len(),
            forall|j: int| 0 <= j < k ==> a@[j] == b@[j],
        decreases a@.len() - k,
    {
        if a[k] != b[k] {
            return false;
        }
        k = k + 1;
    }
    proof {
        assert(a@ =~= b@);
    }
    true
}

/// Where an entity's row lives: an archetype and a row within its tables.
#[derive(Clone, Copy, Debug, Eq, PartialEq)]
pub struct Location {
    pub archetype: u32,
    pub row: u32,
}

/// Entity rows grouped by component signature, one table column per component.
pub struct ArchetypeStorage<V> {
    column_factories: Vec<bool>,
    signatures: Vec<Vec<u32>>,
    columns: Vec<Vec<TypedTableColumn<V>>>,
    entity_slots: Vec<Vec<u32>>,
    locations: Vec<Option<Location>>,
}

impl<V> ArchetypeStorage<V> {
    /// Signature of archetype `a`.
    pub closed spec fn sig(&self, a: int) -> Seq<u32> {
        self.signatures@[a]@
    }

    /// Columns of archetype `a`.
    pub closed spec fn cols(&self, a: int) -> Seq<TypedTableColumn<V>> {
        self.columns@[a]@
    }

    /// Entity slots of archetype `a`, by row.
    pub closed spec fn rows(&self, a: int) -> Seq<u32> {
        self.entity_slots@[a]@
    }

    /// Number of archetypes.
    pub closed spec fn archetype_count(&self) -> nat {
        self.signatures@.len()
    }

    /// Whether component index `c` may be stored in tables.
    pub closed spec fn is_table_component(&self, c: u32) -> bool {
        (c as int) < self.column_factories@.len() && self.column_factories@[c as int]
    }

    /// Location recorded for `slot`.
    pub closed spec fn loc(&self, slot: u32) -> Option<Location> {
        if (slot as int) < self.locations@.len() {
            self.locations@[slot as int]
        } else {
            None
        }
    }

    /// Table components of the entity in `slot`, in signature order.
    pub closed spec fn signature_of(&self, slot: u32) -> Seq<u32> {
        match self.loc(slot) {
            Some(l) => self.sig(l.archetype as int),
            None => Seq::empty(),
        }
    }

    /// Value, added tick and changed tick of component `c` of the entity in `slot`.
    pub closed spec fn entry(&self, slot: u32, c: u32) -> Option<(V, u64, u64)> {
        match self.loc(slot) {
            Some(l) => {
                let s = self.sig(l.archetype as int);
                if s.contains(c) {
                    let col = self.cols(l.archetype as int)[column_of(s, c)];
                    Some((col.values()[l.row as int], col.added_ticks()[l.row as int], col.changed_ticks()[l.row as int]))
                } else {
                    None
                }
            },
            None => None,
        }
    }

    /// Archetype `a` is internally consistent.
    pub closed spec fn arch_wf(&self, a: int) -> bool {
        let s = self.sig(a);
        let cs = self.cols(a);
        let rs = self.rows(a);
        &&& strictly_sorted(s)
        &&& s.len() > 0
        &&& cs.len() == s.len()
        &&& rs.len() < u32::MAX
        &&& forall|k: int| 0 <= k < cs.len() ==> (#[trigger] cs[k]).wf() && cs[k].values().len() == rs.len()
        &&& forall|k: int| 0 <= k < s.len() ==> self.is_table_component(#[trigger] s[k])
        &&& forall|r: int| 0 <= r < rs.len() ==> {
            &&& (#[trigger] rs[r] as int) < self.locations@.len()
            &&& self.locations@[rs[r] as int] == Some(Location { archetype: a as u32, row: r as u32 })
        }
    }

    /// Slot `s` points at the row that names it.
    pub closed spec fn loc_wf(&self, s: int) -> bool {
        self.locations@[s] matches Some(l) ==> {
            &&& (l.archetype as int) < self.signatures@.len()
            &&& (l.row as int) < self.rows(l.archetype as int).len()
            &&& self.rows(l.archetype as int)[l.row as int] == s
        }
    }

    /// The storage is internally consistent.
    pub closed spec fn wf(&self) -> bool {
        &&& self.signatures@.len() == self.columns@.len()
        &&& self.signatures@.len() == self.entity_slots@.len()
        &&& self.signatures@.len() < u32::MAX
        &&& forall|a: int| 0 <= a < self.signatures@.len() ==> #[trigger] self.arch_wf(a)
        &&& forall|s: int| 0 <= s < self.locations@.len() ==> #[trigger] self.loc_wf(s)
    }

    /// Empty storage; `column_factories[c]` says whether component index `c` is a table component.
    pub fn new(column_factories: Vec<bool>) -> (r: ArchetypeStorage<V>)
        ensures
            r.wf(),
            r.archetype_count() == 0,
            r.has_headroom((u32::MAX - 3) as nat),
            forall|c: u32| r.is_table_component(c) == ((c as int) < column_factories@.len() && column_factories@[c as int]),
            forall|s: u32, c: u32| r.entry(s, c) is None,
    {
        ArchetypeStorage {
            column_factories,
            signatures: Vec::new(),
            columns: Vec::new(),
            entity_slots: Vec::new(),
            locations: Vec::new(),
        }
    }

    /// Location of the entity's row.
    pub fn location(&self, entity: EntityId) -> (r: Option<Location>)
        ensures
            r == self.loc(entity.spec_slot()),
    {
        let slot = entity.slot() as usize;
        if slot < self.locations.len() {
            self.locations[slot]
        } else {
            None
        }
    }

    proof fn lemma_loc(&self, slot: u32)
        requires
            self.wf(),
        ensures
            self.loc(slot) matches Some(l) ==> {
                &&& (l.archetype as int) < self.archetype_count()
                &&& self.arch_wf(l.archetype as int)
                &&& (l.row as int) < self.rows(l.archetype as int).len()
                &&& self.rows(l.archetype as int)[l.row as int] == slot
            },
    {
        if (slot as int) < self.locations@.len() {
            assert(self.loc_wf(slot as int));
            if let Some(l) = self.loc(slot) {
                assert(self.arch_wf(l.archetype as int));
            }
        }
    }

    /// The entity in `slot` holds table component `c` exactly when its index list names
    /// `c`, and that list is strictly increasing.
    pub proof fn lemma_signature_entries(&self, slot: u32)
        requires
            self.wf(),
        ensures
            strictly_sorted(self.signature_of(slot)),
            forall|c: u32| #[trigger] self.signature_of(slot).contains(c) == (self.entry(slot, c) is Some),
    {
        self.lemma_loc(slot);
    }

    /// Table components of the entity, in increasing order.
    pub fn table_component_indices(&self, entity: EntityId) -> (r: Vec<u32>)
        requires
            self.wf(),
        ensures
            r@ == self.signature_of(entity.spec_slot()),
            strictly_sorted(r@),
    {
        proof {
            self.lemma_loc(entity.spec_slot());
        }
        match self.location(entity) {
            Some(l) => self.signatures[l.archetype as usize].clone(),
            None => Vec::new(),
        }
    }

    /// Whether the entity has table component `component_index`.
    pub fn has_component(&self, entity: EntityId, component_index: u32) -> (r: bool)
        requires
            self.wf(),
        ensures
            r == (self.entry(entity.spec_slot(), component_index) is Some),
            r == self.signature_of(entity.spec_slot()).contains(component_index),
    {
        proof {
            self.lemma_loc(entity.spec_slot());
        }
        match self.location(entity) {
            Some(l) => sig_contains(&self.signatures[l.archetype as usize], component_index),
            None => false,
        }
    }

    /// Column and row of component `component_index` of the entity, when present.
    fn cell(&self, entity: EntityId, component_index: u32) -> (r: Option<(usize, usize, usize)>)
        requires
            self.wf(),
        ensures
            r matches Some((a, k, row)) ==> {
                &&& self.loc(entity.spec_slot()) == Some(Location { archetype: a as u32, row: row as u32 })
                &&& a < self.archetype_count()
                &&& self.arch_wf(a as int)
                &&& k < self.sig(a as int).len()
                &&& self.sig(a as int)[k as int] == component_index
                &&& column_of(self.sig(a as int), component_index) == k
                &&& row < self.rows(a as int).len()
            },
            r is None <==> self.entry(entity.spec_slot(), component_index) is None,
    {
        proof {
            self.lemma_loc(entity.spec_slot());
        }
        let l = self.location(entity)?;
        let a = l.archetype as usize;
        match sig_position(&self.signatures[a], component_index) {
            Some(k) => {
                proof {
                    lemma_column_of(self.sig(a as int), component_index, k as int);
                }
                Some((a, k, l.row as usize))
            },
            None => None,
        }
    }

    /// The entity's value of table component `component_index`.
    pub fn get_table(&self, entity: EntityId, component_index: u32) -> (r: Option<&V>)
        requires
            self.wf(),
        ensures
            r == match self.entry(entity.spec_slot(), component_index) {
                Some(e) => Some(&e.0),
                None => None::<&V>,
            },
    {
        let (a, k, row) = self.cell(entity, component_index)?;
        proof {
            assert(self.cols(a as int)[k as int].wf());
        }
        self.columns[a][k].get_value(row)
    }

    /// Added tick of the entity's component.
    pub fn table_added_tick(&self, entity: EntityId, component_index: u32) -> (r: Option<ChangeTick>)
        requires
            self.wf(),
        ensures
            tick_matches(r, match self.entry(entity.spec_slot(), component_index) {
                Some(e) => Some(e.1),
                None => None::<u64>,
            }),
    {
        let (a, k, row) = self.cell(entity, component_index)?;
        proof {
            assert(self.cols(a as int)[k as int].wf());
            self.cols(a as int)[k as int].lemma_lengths();
        }
        self.columns[a][k].added_tick(row)
    }

    /// Changed tick of the entity's component.
    pub fn table_changed_tick(&self, entity: EntityId, component_index: u32) -> (r: Option<ChangeTick>)
        requires
            self.wf(),
        ensures
            tick_matches(r, match self.entry(entity.spec_slot(), component_index) {
                Some(e) => Some(e.2),
                None => None::<u64>,
            }),
    {
        let (a, k, row) = self.cell(entity, component_index)?;
        proof {
            assert(self.cols(a as int)[k as int].wf());
            self.cols(a as int)[k as int].lemma_lengths();
        }
        self.columns[a][k].changed_tick(row)
    }

    /// Rows of distinct positions in one archetype name distinct slots.
    proof fn lemma_rows_distinct(&self, a: int, r1: int, r2: int)
        requires
            self.wf(),
            0 <= a < self.archetype_count(),
            0 <= r1 < self.rows(a).len(),
            0 <= r2 < self.rows(a).len(),
            r1 != r2,
        ensures
            self.rows(a)[r1] != self.rows(a)[r2],
    {
        assert(self.arch_wf(a));
        let rs = self.rows(a);
        assert(self.locations@[rs[r1] as int] == Some(Location { archetype: a as u32, row: r1 as u32 }));
        assert(self.locations@[rs[r2] as int] == Some(Location { archetype: a as u32, row: r2 as u32 }));
    }

    /// Removes the entity's row from its archetype (the last row moves into its place)
    /// and returns it in signature order as (component, value, added tick, changed tick).
    fn detach(&mut self, entity: EntityId) -> (r: Vec<(u32, V, u64, u64)>)
        requires
            old(self).wf(),
            old(self).loc(entity.spec_slot()) is Some,
        ensures
            final(self).wf(),
            final(self).loc(entity.spec_slot()) is None,
            final(self).archetype_count() == old(self).archetype_count(),
            forall|a: int| 0 <= a < old(self).archetype_count() ==> #[trigger] final(self).sig(a) == old(self).sig(a),
            forall|c: u32| #[trigger] final(self).is_table_component(c) == old(self).is_table_component(c),
            forall|a: int| 0 <= a < old(self).archetype_count() ==> #[trigger] final(self).rows(a).len() <= old(self).rows(a).len(),
            old(self).has_row_capacity() ==> final(self).has_row_capacity(),
            r@.len() == old(self).signature_of(entity.spec_slot()).len(),
            forall|k: int| 0 <= k < r@.len() ==> {
                let c = old(self).signature_of(entity.spec_slot())[k];
                &&& (#[trigger] r@[k]).0 == c
                &&& old(self).entry(entity.spec_slot(), c) == Some((r@[k].1, r@[k].2, r@[k].3))
            },
            forall|s: u32, c: u32| s != entity.spec_slot() ==> #[trigger] final(self).entry(s, c) == old(self).entry(s, c),
    {
        let ghost slot = entity.spec_slot();
        proof {
            self.lemma_loc(slot);
        }
        let l = match self.location(entity) {
            Some(l) => l,
            None => {
                return Vec::new();
            },
        };
        let a = l.archetype as usize;
        let row = l.row as usize;
        let ghost last = old(self).rows(a as int).len() - 1;
        let ghost moved = old(self).rows(a as int)[last];
        let ncols = self.signatures[a].len();
        let mut out: Vec<(u32, V, u64, u64)> = Vec::new();
        let mut k: usize = 0;
        while k < ncols
            invariant
                old(self).wf(),
                old(self).arch_wf(a as int),
                a < old(self).archetype_count(),
                row < old(self).rows(a as int).len(),
                ncols == old(self).sig(a as int).len(),
                0 <= k <= ncols,
                self.signatures@ == old(self).signatures@,
                self.entity_slots@ == old(self).entity_slots@,
                self.locations@ == old(self).locations@,
                self.column_factories@ == old(self).column_factories@,
                self.columns@.len() == old(self).columns@.len(),
                forall|b: int| 0 <= b < self.columns@.len() && b != a ==> #[trigger] self.columns@[b] == old(self).columns@[b],
                self.cols(a as int).len() == ncols,
                forall|j: int| 0 <= j < k ==> {
                    &&& (#[trigger] self.cols(a as int)[j]).wf()
                    &&& self.cols(a as int)[j].values() == swap_removed(old(self).cols(a as int)[j].values(), row as int)
                    &&& self.cols(a as int)[j].added_ticks() == swap_removed(old(self).cols(a as int)[j].added_ticks(), row as int)
                    &&& self.cols(a as int)[j].changed_ticks() == swap_removed(old(self).cols(a as int)[j].changed_ticks(), row as int)
                },
                forall|j: int| k <= j < ncols ==> #[trigger] self.cols(a as int)[j] == old(self).cols(a as int)[j],
                out@.len() == k,
                forall|j: int| 0 <= j < k ==> {
                    let col = old(self).cols(a as int)[j];
                    &&& (#[trigger] out@[j]).0 == old(self).sig(a as int)[j]
                    &&& out@[j].1 == col.values()[row as int]
                    &&& out@[j].2 == col.added_ticks()[row as int]
                    &&& out@[j].3 == col.changed_ticks()[row as int]
                },
            decreases ncols - k,
        {
            proof {
                assert(old(self).cols(a as int)[k as int].wf());
                old(self).cols(a as int)[k as int].lemma_lengths();
            }
            let (v, ad, ch) = self.columns[a][k].take_row_with_ticks(row);
            let c = self.signatures[a][k];
            out.push((c, v, ad, ch));
            k = k + 1;
        }
        let _ = self.entity_slots[a].swap_remove(row);
        if row < self.entity_slots[a].len() {
            let moved_slot = self.entity_slots[a][row];
            proof {
                assert(old(self).locations@[moved as int] == Some(Location { archetype: a as u32, row: last as u32 }));
            }
            self.locations.set(moved_slot as usize, Some(Location { archetype: l.archetype, row: l.row }));
        }
        self.locations.set(entity.slot() as usize, None);
        proof {
            self.lemma_detach_wf(old(self), a as int, row as int, slot);
            assert forall|kk: int| 0 <= kk < out@.len() implies {
                let c = old(self).signature_of(slot)[kk];
                &&& (#[trigger] out@[kk]).0 == c
                &&& old(self).entry(slot, c) == Some((out@[kk].1, out@[kk].2, out@[kk].3))
            } by {
                let c = old(self).sig(a as int)[kk];
                lemma_column_of(old(self).sig(a as int), c, kk);
                assert(old(self).sig(a as int).contains(c));
            }
        }
        out
    }

    /// The state after [`ArchetypeStorage::detach`] is consistent and keeps every other entity's entries.
    proof fn lemma_detach_wf(&self, pre: &ArchetypeStorage<V>, a: int, row: int, slot: u32)
        requires
            pre.wf(),
            0 <= a < pre.archetype_count(),
            0 <= row < pre.rows(a).len(),
            pre.loc(slot) == Some(Location { archetype: a as u32, row: row as u32 }),
            self.signatures@ == pre.signatures@,
            self.column_factories@ == pre.column_factories@,
            self.columns@.len() == pre.columns@.len(),
            self.entity_slots@.len() == pre.entity_slots@.len(),
            forall|b: int| 0 <= b < self.columns@.len() && b != a ==> #[trigger] self.columns@[b] == pre.columns@[b],
            forall|b: int| 0 <= b < self.entity_slots@.len() && b != a ==> #[trigger] self.entity_slots@[b] == pre.entity_slots@[b],
            self.rows(a) == swap_removed(pre.rows(a), row),
            self.cols(a).len() == pre.cols(a).len(),
            forall|j: int| 0 <= j < self.cols(a).len() ==> {
                &&& (#[trigger] self.cols(a)[j]).wf()
                &&& self.cols(a)[j].values() == swap_removed(pre.cols(a)[j].values(), row)
                &&& self.cols(a)[j].added_ticks() == swap_removed(pre.cols(a)[j].added_ticks(), row)
                &&& self.cols(a)[j].changed_ticks() == swap_removed(pre.cols(a)[j].changed_ticks(), row)
            },
            self.locations@.len() == pre.locations@.len(),
            ({
                let last = pre.rows(a).len() - 1;
                let moved = pre.rows(a)[last];
                forall|s: int| 0 <= s < self.locations@.len() ==> #[trigger] self.locations@[s] == if s == slot {
                    None
                } else if row < last && s == moved {
                    Some(Location { archetype: a as u32, row: row as u32 })
                } else {
                    pre.locations@[s]
                }
            }),
        ensures
            self.wf(),
            self.loc(slot) is None,
            self.archetype_count() == pre.archetype_count(),
            forall|b: int| 0 <= b < pre.archetype_count() ==> #[trigger] self.sig(b) == pre.sig(b),
            forall|c: u32| #[trigger] self.is_table_component(c) == pre.is_table_component(c),
            forall|b: int| 0 <= b < pre.archetype_count() ==> #[trigger] self.rows(b).len() <= pre.rows(b).len(),
            pre.has_row_capacity() ==> self.has_row_capacity(),
            forall|s: u32, c: u32| s != slot ==> #[trigger] self.entry(s, c) == pre.entry(s, c),
    {
        let last = pre.rows(a).len() - 1;
        let moved = pre.rows(a)[last];
        assert(pre.arch_wf(a));
        assert((slot as int) < pre.locations@.len());
        assert(pre.rows(a)[row] == slot) by {
            assert(pre.loc_wf(slot as int));
        }
        assert(pre.locations@[moved as int] == Some(Location { archetype: a as u32, row: last as u32 }));
        assert forall|b: int| 0 <= b < self.signatures@.len() implies #[trigger] self.arch_wf(b) by {
            assert(pre.arch_wf(b));
            if b != a {
                assert(self.cols(b) == pre.cols(b));
                assert(self.rows(b) == pre.rows(b));
                assert forall|r: int| 0 <= r < self.rows(b).len() implies {
                    &&& (#[trigger] self.rows(b)[r] as int) < self.locations@.len()
                    &&& self.locations@[self.rows(b)[r] as int] == Some(Location { archetype: b as u32, row: r as u32 })
                } by {
                    assert(pre.locations@[pre.rows(b)[r] as int] == Some(Location { archetype: b as u32, row: r as u32 }));
                }
            } else {
                assert forall|k: int| 0 <= k < self.cols(a).len() implies (#[trigger] self.cols(a)[k]).wf()
                    && self.cols(a)[k].values().len() == self.rows(a).len() by {
                    assert(pre.cols(a)[k].wf());
                }
                assert forall|r: int| 0 <= r < self.rows(a).len() implies {
                    &&& (#[trigger] self.rows(a)[r] as int) < self.locations@.len()
                    &&& self.locations@[self.rows(a)[r] as int] == Some(Location { archetype: a as u32, row: r as u32 })
                } by {
                    if r == row {
                        assert(self.rows(a)[r] == moved);
                        if moved == slot {
                            pre.lemma_rows_distinct(a, row, last);
                        }
                    } else {
                        assert(self.rows(a)[r] == pre.rows(a)[r]);
                        assert(pre.locations@[pre.rows(a)[r] as int] == Some(Location { archetype: a as u32, row: r as u32 }));
                        if pre.rows(a)[r] == slot {
                            pre.lemma_rows_distinct(a, row, r);
                        }
                        if pre.rows(a)[r] == moved {
                            pre.lemma_rows_distinct(a, last, r);
                        }
                    }
                }
            }
        }
        if pre.has_row_capacity() {
            assert forall|b: int| 0 <= b < self.entity_slots@.len() implies #[trigger] self.entity_slots@[b]@.len() + 2 < u32::MAX by {
                assert(pre.entity_slots@[b]@.len() + 2 < u32::MAX);
            }
        }
        assert forall|s: int| 0 <= s < self.locations@.len() implies #[trigger] self.loc_wf(s) by {
            assert(pre.loc_wf(s));
            if s != slot && !(row < last && s == moved) {
                if let Some(l2) = pre.locations@[s] {
                    if l2.archetype as int == a {
                        if l2.row as int == row {
                            assert(pre.rows(a)[row] == s);
                        }
                        if l2.row as int == last {
                            assert(pre.rows(a)[last] == s);
                        }
                    }
                }
            }
        }
        assert forall|s: u32, c: u32| s != slot implies #[trigger] self.entry(s, c) == pre.entry(s, c) by {
            if (s as int) < self.locations@.len() {
                assert(pre.loc_wf(s as int));
                assert(self.loc(s) == self.locations@[s as int]);
                if let Some(l2) = pre.locations@[s as int] {
                    let b = l2.archetype as int;
                    assert(pre.arch_wf(b));
                    if b == a && pre.sig(a).contains(c) {
                        let k = column_of(pre.sig(a), c);
                        assert(pre.cols(a)[k].wf());
                        pre.cols(a)[k].lemma_lengths();
                        if l2.row as int == last && row < last {
                            assert(pre.rows(a)[last] == s);
                        } else if l2.row as int == row {
                            assert(pre.rows(a)[row] == s);
                        }
                    }
                }
            }
        }
    }

    /// Every archetype can take one more row without its row index leaving `u32`.
    pub closed spec fn has_row_capacity(&self) -> bool {
        &&& self.signatures@.len() + 1 < u32::MAX
        &&& forall|a: int| 0 <= a < self.entity_slots@.len() ==> #[trigger] self.entity_slots@[a]@.len() + 2 < u32::MAX
    }

    /// Room for `n` more archetypes and `n` more rows in every archetype before archetype
    /// and row positions stop fitting in `u32`.
    pub closed spec fn has_headroom(&self, n: nat) -> bool {
        &&& self.signatures@.len() + n + 2 < u32::MAX
        &&& forall|a: int| 0 <= a < self.entity_slots@.len() ==> #[trigger] self.entity_slots@[a]@.len() + n + 2 < u32::MAX
    }

    /// Headroom for `n` more rows leaves room for the next one, and for fewer.
    pub proof fn lemma_headroom(&self, n: nat)
        requires
            self.has_headroom(n),
        ensures
            self.has_row_capacity(),
            forall|m: nat| m <= n ==> #[trigger] self.has_headroom(m),
    {
    }

    /// `after` has at most one more archetype than `before`, every old archetype at most
    /// one more row, and a new archetype at most one row.
    closed spec fn grown_by_one_row(before: ArchetypeStorage<V>, after: ArchetypeStorage<V>) -> bool {
        &&& after.archetype_count() <= before.archetype_count() + 1
        &&& forall|a: int| 0 <= a < before.archetype_count() ==> #[trigger] after.rows(a).len() <= before.rows(a).len() + 1
        &&& forall|a: int| before.archetype_count() <= a < after.archetype_count() ==> #[trigger] after.rows(a).len() <= 1
    }

    /// Growing by at most one row uses up at most one step of headroom.
    proof fn lemma_grown_headroom(before: ArchetypeStorage<V>, after: ArchetypeStorage<V>)
        requires
            before.wf(),
            after.wf(),
            Self::grown_by_one_row(before, after),
        ensures
            forall|n: nat| before.has_headroom(n + 1) ==> #[trigger] after.has_headroom(n),
    {
        assert forall|n: nat| before.has_headroom(n + 1) implies #[trigger] after.has_headroom(n) by {
            assert forall|a: int| 0 <= a < after.entity_slots@.len() implies #[trigger] after.entity_slots@[a]@.len() + n + 2
                < u32::MAX by {
                if a < before.archetype_count() {
                    assert(before.entity_slots@[a]@.len() + n + 3 < u32::MAX);
                    assert(after.rows(a).len() <= before.rows(a).len() + 1);
                } else {
                    assert(after.rows(a).len() <= 1);
                }
            }
        }
    }

    /// Dropping rows and then growing by at most one row uses up at most one step of
    /// headroom; dropping rows alone uses up none.
    proof fn lemma_headroom_after(before: ArchetypeStorage<V>, mid: ArchetypeStorage<V>, after: ArchetypeStorage<V>)
        requires
            before.wf(),
            after.wf(),
            mid.archetype_count() == before.archetype_count(),
            forall|a: int| 0 <= a < before.archetype_count() ==> #[trigger] mid.rows(a).len() <= before.rows(a).len(),
            after.archetype_count() <= mid.archetype_count() + 1,
            forall|a: int| 0 <= a < mid.archetype_count() ==> #[trigger] after.rows(a).len() <= mid.rows(a).len() + 1,
            forall|a: int| mid.archetype_count() <= a < after.archetype_count() ==> #[trigger] after.rows(a).len() <= 1,
        ensures
            forall|n: nat| before.has_headroom(n + 1) ==> #[trigger] after.has_headroom(n),
    {
        assert(Self::grown_by_one_row(before, after)) by {
            assert forall|a: int| 0 <= a < before.archetype_count() implies #[trigger] after.rows(a).len() <= before.rows(a).len() + 1 by {
                assert(mid.rows(a).len() <= before.rows(a).len());
            }
        }
        Self::lemma_grown_headroom(before, after);
    }

    /// Index of the archetype with signature `sig`, created when missing.
    #[verifier::loop_isolation(false)]
    fn find_or_create_archetype(&mut self, sig: &Vec<u32>) -> (r: usize)
        requires
            old(self).wf(),
            old(self).has_row_capacity(),
            strictly_sorted(sig@),
            sig@.len() > 0,
            forall|k: int| 0 <= k < sig@.len() ==> old(self).is_table_component(#[trigger] sig@[k]),
        ensures
            final(self).wf(),
            final(self).has_row_capacity() || final(self).archetype_count() == old(self).archetype_count() + 1,
            r < final(self).archetype_count(),
            final(self).sig(r as int) == sig@,
            final(self).archetype_count() == old(self).archetype_count()
                || (final(self).archetype_count() == old(self).archetype_count() + 1 && r == old(self).archetype_count()
                    && final(self).rows(r as int).len() == 0),
            forall|a: int| 0 <= a < old(self).archetype_count() ==> {
                &&& #[trigger] final(self).signatures@[a] == old(self).signatures@[a]
                &&& final(self).columns@[a] == old(self).columns@[a]
                &&& final(self).entity_slots@[a] == old(self).entity_slots@[a]
            },
            final(self).locations@ == old(self).locations@,
            final(self).column_factories@ == old(self).column_factories@,
            forall|s: u32, c: u32| #[trigger] final(self).entry(s, c) == old(self).entry(s, c),
    {
        let mut i: usize = 0;
        while i < self.signatures.len()
            invariant
                0 <= i <= self.signatures@.len(),
                forall|j: int| 0 <= j < i ==> self.signatures@[j]@ != sig@,
            decreases self.signatures@.len() - i,
        {
            if sig_equal(&self.signatures[i], sig) {
                proof {
                    assert(self.arch_wf(i as int));
                }
                return i;
            }
            i = i + 1;
        }
        let mut columns: Vec<TypedTableColumn<V>> = Vec::new();
        let mut k: usize = 0;
        while k < sig.len()
            invariant
                0 <= k <= sig@.len(),
                columns@.len() == k,
                forall|j: int| 0 <= j < k ==> (#[trigger] columns@[j]).wf() && columns@[j].values().len() == 0,
            decreases sig@.len() - k,
        {
            columns.push(TypedTableColumn::new());
            k = k + 1;
        }
        let index = self.signatures.len();
        self.signatures.push(sig.clone());
        self.columns.push(columns);
        self.entity_slots.push(Vec::new());
        proof {
            assert forall|a: int| 0 <= a < self.signatures@.len() implies #[trigger] self.arch_wf(a) by {
                if a < index {
                    assert(old(self).arch_wf(a));
                    assert(self.cols(a) == old(self).cols(a));
                    assert(self.rows(a) == old(self).rows(a));
                    assert(self.sig(a) == old(self).sig(a));
                } else {
                    assert(self.sig(a) == sig@);
                    assert(self.rows(a).len() == 0);
                }
            }
            assert forall|s: int| 0 <= s < self.locations@.len() implies #[trigger] self.loc_wf(s) by {
                assert(old(self).loc_wf(s));
                if let Some(l) = self.locations@[s] {
                    assert(self.rows(l.archetype as int) == old(self).rows(l.archetype as int));
                }
            }
            assert forall|s: u32, c: u32| #[trigger] self.entry(s, c) == old(self).entry(s, c) by {
                if (s as int) < self.locations@.len() {
                    assert(old(self).loc_wf(s as int));
                    if let Some(l) = self.locations@[s as int] {
                        assert(self.sig(l.archetype as int) == old(self).sig(l.archetype as int));
                        assert(self.cols(l.archetype as int) == old(self).cols(l.archetype as int));
                    }
                }
            }
        }
        index
    }

    /// Appends the entity, which has no row, as a new row of the archetype whose
    /// signature is the row's components. Returns the new row index.
    #[verifier::loop_isolation(false)]
    fn attach(&mut self, entity: EntityId, entries: Vec<(u32, V, u64, u64)>) -> (r: u32)
        requires
            old(self).wf(),
            old(self).has_row_capacity(),
            old(self).loc(entity.spec_slot()) is None,
            entries@.len() > 0,
            strictly_sorted(entries@.map_values(|e: (u32, V, u64, u64)| e.0)),
            forall|k: int| 0 <= k < entries@.len() ==> old(self).is_table_component(#[trigger] entries@[k].0),
        ensures
            final(self).wf(),
            final(self).loc(entity.spec_slot()) matches Some(l) && l.row == r,
            final(self).signature_of(entity.spec_slot()) == entries@.map_values(|e: (u32, V, u64, u64)| e.0),
            forall|k: int| 0 <= k < entries@.len() ==> #[trigger] final(self).entry(entity.spec_slot(), entries@[k].0)
                == Some((entries@[k].1, entries@[k].2, entries@[k].3)),
            forall|s: u32, c: u32| s != entity.spec_slot() ==> #[trigger] final(self).entry(s, c) == old(self).entry(s, c),
            forall|c: u32| #[trigger] final(self).is_table_component(c) == old(self).is_table_component(c),
            final(self).archetype_count() <= old(self).archetype_count() + 1,
            forall|a: int| 0 <= a < old(self).archetype_count() ==> #[trigger] final(self).rows(a).len() <= old(self).rows(a).len() + 1,
            forall|a: int| old(self).archetype_count() <= a < final(self).archetype_count() ==> #[trigger] final(self).rows(a).len() <= 1,
    {
        let ghost comps = entries@.map_values(|e: (u32, V, u64, u64)| e.0);
        let mut sig: Vec<u32> = Vec::new();
        let mut i: usize = 0;
        while i < entries.len()
            invariant
                0 <= i <= entries@.len(),
                sig@ == comps.subrange(0, i as int),
                comps == entries@.map_values(|e: (u32, V, u64, u64)| e.0),
            decreases entries@.len() - i,
        {
            sig.push(entries[i].0);
            i = i + 1;
        }
        proof {
            assert(sig@ =~= comps);
        }
        let d = self.find_or_create_archetype(&sig);
        let ghost mid = *self;
        proof {
            assert(self.arch_wf(d as int));
        }
        let new_row = self.entity_slots[d].len() as u32;
        let mut entries = entries;
        let ghost all = entries@;
        let ncols = sig.len();
        while entries.len() > 0
            invariant
                mid.wf(),
                mid.arch_wf(d as int),
                d < mid.archetype_count(),
                ncols == mid.cols(d as int).len(),
                ncols == all.len(),
                entries@.len() <= ncols,
                entries@ == all.subrange(0, entries@.len() as int),
                self.signatures@ == mid.signatures@,
                self.entity_slots@ == mid.entity_slots@,
                self.locations@ == mid.locations@,
                self.column_factories@ == mid.column_factories@,
                self.columns@.len() == mid.columns@.len(),
                forall|b: int| 0 <= b < self.columns@.len() && b != d ==> #[trigger] self.columns@[b] == mid.columns@[b],
                self.cols(d as int).len() == ncols,
                forall|j: int| 0 <= j < entries@.len() ==> #[trigger] self.cols(d as int)[j] == mid.cols(d as int)[j],
                forall|j: int| entries@.len() <= j < ncols ==> {
                    &&& (#[trigger] self.cols(d as int)[j]).wf()
                    &&& self.cols(d as int)[j].values() == mid.cols(d as int)[j].values().push(all[j].1)
                    &&& self.cols(d as int)[j].added_ticks() == mid.cols(d as int)[j].added_ticks().push(all[j].2)
                    &&& self.cols(d as int)[j].changed_ticks() == mid.cols(d as int)[j].changed_ticks().push(all[j].3)
                },
            decreases entries@.len(),
        {
            let (_c, v, ad, ch) = entries.pop().unwrap();
            let k = entries.len();
            proof {
                assert(mid.cols(d as int)[k as int].wf());
            }
            self.columns[d][k].push_row(v, ad, ch);
        }
        self.entity_slots[d].push(entity.slot());
        let slot = entity.slot() as usize;
        let ghost before_grow = *self;
        while self.locations.len() <= slot
            invariant
                self.signatures@ == before_grow.signatures@,
                self.columns@ == before_grow.columns@,
                self.entity_slots@ == before_grow.entity_slots@,
                self.column_factories@ == before_grow.column_factories@,
                before_grow.locations@ == mid.locations@,
                self.locations@.len() >= mid.locations@.len(),
                forall|s: int| 0 <= s < mid.locations@.len() ==> self.locations@[s] == mid.locations@[s],
                forall|s: int| mid.locations@.len() <= s < self.locations@.len() ==> self.locations@[s] is None,
            decreases slot + 1 - self.locations@.len(),
        {
            self.locations.push(None);
        }
        self.locations.set(slot, Some(Location { archetype: d as u32, row: new_row }));
        proof {
            self.lemma_attach_wf(&mid, d as int, entity.spec_slot(), all);
            assert forall|a: int| 0 <= a < old(self).archetype_count() implies #[trigger] self.rows(a).len() <= old(self).rows(a).len() + 1 by {
                assert(mid.signatures@[a] == old(self).signatures@[a]);
                assert(mid.rows(a) == old(self).rows(a));
            }
            assert(self.signature_of(entity.spec_slot()) == mid.sig(d as int));
            assert forall|a: int| old(self).archetype_count() <= a < self.archetype_count() implies #[trigger] self.rows(a).len() <= 1 by {
                assert(a == d as int);
            }
        }
        new_row
    }

    /// The state after [`ArchetypeStorage::attach`] is consistent and keeps every other entity's entries.
    proof fn lemma_attach_wf(&self, pre: &ArchetypeStorage<V>, d: int, slot: u32, all: Seq<(u32, V, u64, u64)>)
        requires
            pre.wf(),
            0 <= d < pre.archetype_count(),
            pre.rows(d).len() + 2 < u32::MAX,
            pre.loc(slot) is None,
            all.len() == pre.sig(d).len(),
            forall|k: int| 0 <= k < all.len() ==> #[trigger] all[k].0 == pre.sig(d)[k],
            self.signatures@ == pre.signatures@,
            self.column_factories@ == pre.column_factories@,
            self.columns@.len() == pre.columns@.len(),
            self.entity_slots@.len() == pre.entity_slots@.len(),
            forall|b: int| 0 <= b < self.columns@.len() && b != d ==> #[trigger] self.columns@[b] == pre.columns@[b],
            forall|b: int| 0 <= b < self.entity_slots@.len() && b != d ==> #[trigger] self.entity_slots@[b] == pre.entity_slots@[b],
            self.rows(d) == pre.rows(d).push(slot),
            self.cols(d).len() == pre.cols(d).len(),
            forall|j: int| 0 <= j < self.cols(d).len() ==> {
                &&& (#[trigger] self.cols(d)[j]).wf()
                &&& self.cols(d)[j].values() == pre.cols(d)[j].values().push(all[j].1)
                &&& self.cols(d)[j].added_ticks() == pre.cols(d)[j].added_ticks().push(all[j].2)
                &&& self.cols(d)[j].changed_ticks() == pre.cols(d)[j].changed_ticks().push(all[j].3)
            },
            self.locations@.len() >= pre.locations@.len(),
            (slot as int) < self.locations@.len(),
            forall|s: int| 0 <= s < self.locations@.len() ==> #[trigger] self.locations@[s] == if s == slot {
                Some(Location { archetype: d as u32, row: pre.rows(d).len() as u32 })
            } else if s < pre.locations@.len() {
                pre.locations@[s]
            } else {
                None
            },
        ensures
            self.wf(),
            self.loc(slot) == Some(Location { archetype: d as u32, row: pre.rows(d).len() as u32 }),
            self.sig(d) == pre.sig(d),
            forall|k: int| 0 <= k < all.len() ==> #[trigger] self.entry(slot, all[k].0) == Some((all[k].1, all[k].2, all[k].3)),
            forall|s: u32, c: u32| s != slot ==> #[trigger] self.entry(s, c) == pre.entry(s, c),
            forall|c: u32| #[trigger] self.is_table_component(c) == pre.is_table_component(c),
            forall|b: int| 0 <= b < pre.archetype_count() ==> #[trigger] self.rows(b).len() <= pre.rows(b).len() + 1,
    {
        let n = pre.rows(d).len();
        assert(pre.arch_wf(d));
        assert forall|r: int| 0 <= r < n implies pre.rows(d)[r] != slot by {
            assert(pre.locations@[pre.rows(d)[r] as int] == Some(Location { archetype: d as u32, row: r as u32 }));
        }
        assert forall|b: int| 0 <= b < self.signatures@.len() implies #[trigger] self.arch_wf(b) by {
            assert(pre.arch_wf(b));
            if b != d {
                assert(self.cols(b) == pre.cols(b));
                assert(self.rows(b) == pre.rows(b));
                assert forall|r: int| 0 <= r < self.rows(b).len() implies {
                    &&& (#[trigger] self.rows(b)[r] as int) < self.locations@.len()
                    &&& self.locations@[self.rows(b)[r] as int] == Some(Location { archetype: b as u32, row: r as u32 })
                } by {
                    assert(pre.locations@[pre.rows(b)[r] as int] == Some(Location { archetype: b as u32, row: r as u32 }));
                }
            } else {
                assert forall|k: int| 0 <= k < self.cols(d).len() implies (#[trigger] self.cols(d)[k]).wf()
                    && self.cols(d)[k].values().len() == self.rows(d).len() by {
                    assert(pre.cols(d)[k].wf());
                }
                assert forall|r: int| 0 <= r < self.rows(d).len() implies {
                    &&& (#[trigger] self.rows(d)[r] as int) < self.locations@.len()
                    &&& self.locations@[self.rows(d)[r] as int] == Some(Location { archetype: d as u32, row: r as u32 })
                } by {
                    if r < n {
                        assert(self.rows(d)[r] == pre.rows(d)[r]);
                        assert(pre.locations@[pre.rows(d)[r] as int] == Some(Location { archetype: d as u32, row: r as u32 }));
                    }
                }
            }
        }
        assert forall|s: int| 0 <= s < self.locations@.len() implies #[trigger] self.loc_wf(s) by {
            if s != slot && s < pre.locations@.len() {
                assert(pre.loc_wf(s));
            }
        }
        assert(self.loc(slot) == Some(Location { archetype: d as u32, row: n as u32 }));
        assert forall|k: int| 0 <= k < all.len() implies #[trigger] self.entry(slot, all[k].0) == Some((all[k].1, all[k].2, all[k].3)) by {
            lemma_column_of(pre.sig(d), all[k].0, k);
            assert(pre.sig(d).contains(all[k].0));
            assert(pre.cols(d)[k].wf());
            pre.cols(d)[k].lemma_lengths();
            assert(self.cols(d)[k].values()[n as int] == all[k].1);
            assert(self.cols(d)[k].added_ticks()[n as int] == all[k].2);
            assert(self.cols(d)[k].changed_ticks()[n as int] == all[k].3);
        }
        assert forall|s: u32, c: u32| s != slot implies #[trigger] self.entry(s, c) == pre.entry(s, c) by {
            if (s as int) < pre.locations@.len() {
                assert(pre.loc_wf(s as int));
                if let Some(l2) = pre.locations@[s as int] {
                    let b = l2.archetype as int;
                    assert(pre.arch_wf(b));
                    if b == d && pre.sig(d).contains(c) {
                        let k = column_of(pre.sig(d), c);
                        assert(pre.cols(d)[k].wf());
                        pre.cols(d)[k].lemma_lengths();
                    }
                }
            }
        }
    }

    /// A storage that differs from `pre` only in cell (`a`, column `k`, `row`) is consistent,
    /// and only that entry of that entity changes.
    proof fn lemma_cell_write(&self, pre: &ArchetypeStorage<V>, a: int, k: int, row: int, slot: u32)
        requires
            pre.wf(),
            0 <= a < pre.archetype_count(),
            0 <= k < pre.sig(a).len(),
            0 <= row < pre.rows(a).len(),
            pre.loc(slot) == Some(Location { archetype: a as u32, row: row as u32 }),
            self.signatures@ == pre.signatures@,
            self.entity_slots@ == pre.entity_slots@,
            self.locations@ == pre.locations@,
            self.column_factories@ == pre.column_factories@,
            self.columns@.len() == pre.columns@.len(),
            forall|b: int| 0 <= b < self.columns@.len() && b != a ==> #[trigger] self.columns@[b] == pre.columns@[b],
            self.cols(a).len() == pre.cols(a).len(),
            forall|j: int| 0 <= j < self.cols(a).len() && j != k ==> #[trigger] self.cols(a)[j] == pre.cols(a)[j],
            self.cols(a)[k].wf(),
            self.cols(a)[k].values().len() == pre.cols(a)[k].values().len(),
            forall|r: int| 0 <= r < self.cols(a)[k].values().len() && r != row ==> {
                &&& #[trigger] self.cols(a)[k].values()[r] == pre.cols(a)[k].values()[r]
                &&& self.cols(a)[k].added_ticks()[r] == pre.cols(a)[k].added_ticks()[r]
                &&& self.cols(a)[k].changed_ticks()[r] == pre.cols(a)[k].changed_ticks()[r]
            },
        ensures
            self.wf(),
            self.has_row_capacity() == pre.has_row_capacity(),
            forall|c: u32| #[trigger] self.is_table_component(c) == pre.is_table_component(c),
            forall|s: u32| #[trigger] self.signature_of(s) == pre.signature_of(s),
            self.entry(slot, pre.sig(a)[k]) == Some((
                self.cols(a)[k].values()[row],
                self.cols(a)[k].added_ticks()[row],
                self.cols(a)[k].changed_ticks()[row],
            )),
            forall|s: u32, c: u32| (s != slot || c != pre.sig(a)[k]) ==> #[trigger] self.entry(s, c) == pre.entry(s, c),
    {
        assert(pre.arch_wf(a));
        assert(pre.loc_wf(slot as int));
        assert forall|b: int| 0 <= b < self.signatures@.len() implies #[trigger] self.arch_wf(b) by {
            assert(pre.arch_wf(b));
            if b == a {
                assert forall|j: int| 0 <= j < self.cols(a).len() implies (#[trigger] self.cols(a)[j]).wf()
                    && self.cols(a)[j].values().len() == self.rows(a).len() by {
                    assert(pre.cols(a)[j].wf());
                }
            } else {
                assert(self.cols(b) == pre.cols(b));
            }
        }
        assert forall|s: int| 0 <= s < self.locations@.len() implies #[trigger] self.loc_wf(s) by {
            assert(pre.loc_wf(s));
        }
        lemma_column_of(pre.sig(a), pre.sig(a)[k], k);
        assert(pre.sig(a).contains(pre.sig(a)[k]));
        assert(self.loc(slot) == pre.loc(slot));
        assert(self.sig(a) == pre.sig(a));
        assert(self.sig(a).contains(pre.sig(a)[k]));
        assert forall|s: u32, c: u32| (s != slot || c != pre.sig(a)[k]) implies #[trigger] self.entry(s, c) == pre.entry(s, c) by {
            if (s as int) < pre.locations@.len() {
                assert(pre.loc_wf(s as int));
                if let Some(l2) = pre.locations@[s as int] {
                    let b = l2.archetype as int;
                    if b == a && pre.sig(a).contains(c) {
                        let j = column_of(pre.sig(a), c);
                        if j == k {
                            assert(c == pre.sig(a)[k]);
                            if l2.row as int == row {
                                assert(pre.rows(a)[row] == s);
                                assert(pre.rows(a)[row] == slot);
                            }
                        }
                    }
                }
            }
        }
    }

    /// A storage that differs from `pre` only in cells (`a`, column `k`, `row`) and (`a`,
    /// column `k2`, `row`) is consistent, and only those entries of that entity change.
    proof fn lemma_cells_write(&self, pre: &ArchetypeStorage<V>, a: int, k: int, k2: int, row: int, slot: u32)
        requires
            pre.wf(),
            0 <= a < pre.archetype_count(),
            0 <= k < pre.sig(a).len(),
            0 <= k2 < pre.sig(a).len(),
            0 <= row < pre.rows(a).len(),
            pre.loc(slot) == Some(Location { archetype: a as u32, row: row as u32 }),
            self.signatures@ == pre.signatures@,
            self.entity_slots@ == pre.entity_slots@,
            self.locations@ == pre.locations@,
            self.column_factories@ == pre.column_factories@,
            self.columns@.len() == pre.columns@.len(),
            forall|b: int| 0 <= b < self.columns@.len() && b != a ==> #[trigger] self.columns@[b] == pre.columns@[b],
            self.cols(a).len() == pre.cols(a).len(),
            forall|j: int| 0 <= j < self.cols(a).len() && j != k && j != k2 ==> #[trigger] self.cols(a)[j] == pre.cols(a)[j],
            forall|j: int|
                (j == k || j == k2) ==> {
                    &&& (#[trigger] self.cols(a)[j]).wf()
                    &&& self.cols(a)[j].values().len() == pre.cols(a)[j].values().len()
                    &&& forall|r: int|
                        0 <= r < self.cols(a)[j].values().len() && r != row ==> {
                            &&& #[trigger] self.cols(a)[j].values()[r] == pre.cols(a)[j].values()[r]
                            &&& self.cols(a)[j].added_ticks()[r] == pre.cols(a)[j].added_ticks()[r]
                            &&& self.cols(a)[j].changed_ticks()[r] == pre.cols(a)[j].changed_ticks()[r]
                        }
                },
        ensures
            self.wf(),
            self.has_row_capacity() == pre.has_row_capacity(),
            forall|c: u32| #[trigger] self.is_table_component(c) == pre.is_table_component(c),
            self.entry(slot, pre.sig(a)[k]) == Some((
                self.cols(a)[k].values()[row],
                self.cols(a)[k].added_ticks()[row],
                self.cols(a)[k].changed_ticks()[row],
            )),
            self.entry(slot, pre.sig(a)[k2]) == Some((
                self.cols(a)[k2].values()[row],
                self.cols(a)[k2].added_ticks()[row],
                self.cols(a)[k2].changed_ticks()[row],
            )),
            forall|s: u32, c: u32| (s != slot || (c != pre.sig(a)[k] && c != pre.sig(a)[k2])) ==> #[trigger] self.entry(s, c)
                == pre.entry(s, c),
    {
        assert(pre.arch_wf(a));
        assert(pre.loc_wf(slot as int));
        assert forall|b: int| 0 <= b < self.signatures@.len() implies #[trigger] self.arch_wf(b) by {
            assert(pre.arch_wf(b));
            if b == a {
                assert forall|j: int| 0 <= j < self.cols(a).len() implies (#[trigger] self.cols(a)[j]).wf()
                    && self.cols(a)[j].values().len() == self.rows(a).len() by {
                    assert(pre.cols(a)[j].wf());
                }
            } else {
                assert(self.cols(b) == pre.cols(b));
            }
        }
        assert forall|s: int| 0 <= s < self.locations@.len() implies #[trigger] self.loc_wf(s) by {
            assert(pre.loc_wf(s));
        }
        lemma_column_of(pre.sig(a), pre.sig(a)[k], k);
        lemma_column_of(pre.sig(a), pre.sig(a)[k2], k2);
        assert(pre.sig(a).contains(pre.sig(a)[k]));
        assert(pre.sig(a).contains(pre.sig(a)[k2]));
        assert(self.loc(slot) == pre.loc(slot));
        assert(self.sig(a) == pre.sig(a));
        assert forall|s: u32, c: u32| (s != slot || (c != pre.sig(a)[k] && c != pre.sig(a)[k2])) implies #[trigger] self.entry(s, c)
            == pre.entry(s, c) by {
            if (s as int) < pre.locations@.len() {
                assert(pre.loc_wf(s as int));
                if let Some(l2) = pre.locations@[s as int] {
                    let b = l2.archetype as int;
                    if b == a && pre.sig(a).contains(c) {
                        let j = column_of(pre.sig(a), c);
                        if j == k || j == k2 {
                            lemma_column_of(pre.sig(a), c, j);
                            if l2.row as int == row {
                                assert(pre.rows(a)[row] == s);
                                assert(pre.rows(a)[row] == slot);
                            }
                        }
                    }
                }
            }
        }
    }

    /// `st` differs from `pre` only in cells (`a`, column `k`, `row`) and (`a`, column `k2`,
    /// `row`).
    pub closed spec fn cells_written(st: ArchetypeStorage<V>, pre: ArchetypeStorage<V>, a: int, k: int, k2: int, row: int) -> bool {
        &&& st.signatures@ == pre.signatures@
        &&& st.entity_slots@ == pre.entity_slots@
        &&& st.locations@ == pre.locations@
        &&& st.column_factories@ == pre.column_factories@
        &&& st.columns@.len() == pre.columns@.len()
        &&& forall|b: int| 0 <= b < st.columns@.len() && b != a ==> #[trigger] st.columns@[b] == pre.columns@[b]
        &&& st.cols(a).len() == pre.cols(a).len()
        &&& forall|j: int| 0 <= j < st.cols(a).len() && j != k && j != k2 ==> #[trigger] st.cols(a)[j] == pre.cols(a)[j]
        &&& forall|j: int|
            (j == k || j == k2) ==> {
                &&& (#[trigger] st.cols(a)[j]).wf()
                &&& st.cols(a)[j].values().len() == pre.cols(a)[j].values().len()
                &&& forall|r: int|
                    0 <= r < st.cols(a)[j].values().len() && r != row ==> {
                        &&& #[trigger] st.cols(a)[j].values()[r] == pre.cols(a)[j].values()[r]
                        &&& st.cols(a)[j].added_ticks()[r] == pre.cols(a)[j].added_ticks()[r]
                        &&& st.cols(a)[j].changed_ticks()[r] == pre.cols(a)[j].changed_ticks()[r]
                    }
            }
    }

    proof fn lemma_cells_write_all(pre: ArchetypeStorage<V>, a: int, k: int, k2: int, row: int, slot: u32)
        requires
            pre.wf(),
            0 <= a < pre.archetype_count(),
            0 <= k < pre.sig(a).len(),
            0 <= k2 < pre.sig(a).len(),
            0 <= row < pre.rows(a).len(),
            pre.loc(slot) == Some(Location { archetype: a as u32, row: row as u32 }),
        ensures
            forall|st: ArchetypeStorage<V>| #![trigger st.wf()] Self::cells_written(st, pre, a, k, k2, row) ==> st.wf(),
            forall|st: ArchetypeStorage<V>, c: u32| #![trigger st.is_table_component(c)] Self::cells_written(st, pre, a, k, k2, row)
                ==> st.is_table_component(c) == pre.is_table_component(c),
            forall|st: ArchetypeStorage<V>| #![trigger st.entry(slot, pre.sig(a)[k])] Self::cells_written(st, pre, a, k, k2, row)
                ==> st.entry(slot, pre.sig(a)[k]) == Some((
                    st.cols(a)[k].values()[row],
                    st.cols(a)[k].added_ticks()[row],
                    st.cols(a)[k].changed_ticks()[row],
                )),
            forall|st: ArchetypeStorage<V>| #![trigger st.entry(slot, pre.sig(a)[k2])] Self::cells_written(st, pre, a, k, k2, row)
                ==> st.entry(slot, pre.sig(a)[k2]) == Some((
                    st.cols(a)[k2].values()[row],
                    st.cols(a)[k2].added_ticks()[row],
                    st.cols(a)[k2].changed_ticks()[row],
                )),
            forall|st: ArchetypeStorage<V>, s: u32, c: u32| #![trigger st.entry(s, c)] Self::cells_written(st, pre, a, k, k2, row)
                && (s != slot || (c != pre.sig(a)[k] && c != pre.sig(a)[k2])) ==> st.entry(s, c) == pre.entry(s, c),
    {
        assert forall|st: ArchetypeStorage<V>| #![trigger st.wf()] Self::cells_written(st, pre, a, k, k2, row) implies st.wf() by {
            st.lemma_cells_write(&pre, a, k, k2, row, slot);
        }
        assert forall|st: ArchetypeStorage<V>, c: u32| #![trigger st.is_table_component(c)] Self::cells_written(st, pre, a, k, k2, row)
            implies st.is_table_component(c) == pre.is_table_component(c) by {
            st.lemma_cells_write(&pre, a, k, k2, row, slot);
        }
        assert forall|st: ArchetypeStorage<V>| #![trigger st.entry(slot, pre.sig(a)[k])] Self::cells_written(st, pre, a, k, k2, row)
            implies st.entry(slot, pre.sig(a)[k]) == Some((
                st.cols(a)[k].values()[row],
                st.cols(a)[k].added_ticks()[row],
                st.cols(a)[k].changed_ticks()[row],
            )) by {
            st.lemma_cells_write(&pre, a, k, k2, row, slot);
        }
        assert forall|st: ArchetypeStorage<V>| #![trigger st.entry(slot, pre.sig(a)[k2])] Self::cells_written(st, pre, a, k, k2, row)
            implies st.entry(slot, pre.sig(a)[k2]) == Some((
                st.cols(a)[k2].values()[row],
                st.cols(a)[k2].added_ticks()[row],
                st.cols(a)[k2].changed_ticks()[row],
            )) by {
            st.lemma_cells_write(&pre, a, k, k2, row, slot);
        }
        assert forall|st: ArchetypeStorage<V>, s: u32, c: u32| #![trigger st.entry(s, c)] Self::cells_written(st, pre, a, k, k2, row)
            && (s != slot || (c != pre.sig(a)[k] && c != pre.sig(a)[k2])) implies st.entry(s, c) == pre.entry(s, c) by {
            st.lemma_cells_write(&pre, a, k, k2, row, slot);
        }
    }

    /// Mutable access to two distinct table components of the entity, recording `tick` as
    /// the changed tick of both. `None`, with nothing changed, when the indices are equal or
    /// the entity lacks either component.
    pub fn get_two_table_mut(&mut self, entity: EntityId, index_a: u32, index_b: u32, tick: ChangeTick) -> (r: Option<(&mut V, &mut V)>)
        requires
            old(self).wf(),
        ensures
            final(self).wf(),
            forall|c: u32| #[trigger] final(self).is_table_component(c) == old(self).is_table_component(c),
            index_a == index_b ==> r is None && *final(self) == *old(self),
            index_a != index_b ==> match (old(self).entry(entity.spec_slot(), index_a), old(self).entry(entity.spec_slot(), index_b)) {
                (Some(ea), Some(eb)) => r matches Some((x, y)) && {
                    &&& *x == ea.0
                    &&& *y == eb.0
                    &&& final(self).entry(entity.spec_slot(), index_a) == Some((*final(x), ea.1, tick@))
                    &&& final(self).entry(entity.spec_slot(), index_b) == Some((*final(y), eb.1, tick@))
                    &&& forall|s: u32, c: u32| (s != entity.spec_slot() || (c != index_a && c != index_b))
                        ==> #[trigger] final(self).entry(s, c) == old(self).entry(s, c)
                },
                _ => r is None && *final(self) == *old(self),
            },
    {
        if index_a == index_b {
            return None;
        }
        let ghost slot = entity.spec_slot();
        let cell_a = self.cell(entity, index_a);
        let cell_b = self.cell(entity, index_b);
        match (cell_a, cell_b) {
            (Some((a, ka, row)), Some((_, kb, _))) => {
                proof {
                    assert(self.cols(a as int)[ka as int].wf());
                    assert(self.cols(a as int)[kb as int].wf());
                    self.cols(a as int)[ka as int].lemma_lengths();
                    self.cols(a as int)[kb as int].lemma_lengths();
                    lemma_column_of(self.sig(a as int), index_a, ka as int);
                    lemma_column_of(self.sig(a as int), index_b, kb as int);
                }
                let ghost pre = *self;
                let columns = self.columns[a].as_mut_slice();
                if ka < kb {
                    let (low, high) = columns.split_at_mut(kb);
                    let (_, middle) = low.split_at_mut(ka);
                    match (middle.first_mut(), high.first_mut()) {
                        (Some(col_a), Some(col_b)) => match (col_a.get_value_mut(row, tick), col_b.get_value_mut(row, tick)) {
                            (Some(x), Some(y)) => {
                                proof {
                                    Self::lemma_cells_write_all(pre, a as int, ka as int, kb as int, row as int, slot);
                                }
                                Some((x, y))
                            },
                            _ => None,
                        },
                        _ => None,
                    }
                } else {
                    let (low, high) = columns.split_at_mut(ka);
                    let (_, middle) = low.split_at_mut(kb);
                    match (high.first_mut(), middle.first_mut()) {
                        (Some(col_a), Some(col_b)) => match (col_a.get_value_mut(row, tick), col_b.get_value_mut(row, tick)) {
                            (Some(x), Some(y)) => {
                                proof {
                                    Self::lemma_cells_write_all(pre, a as int, ka as int, kb as int, row as int, slot);
                                }
                                Some((x, y))
                            },
                            _ => None,
                        },
                        _ => None,
                    }
                }
            },
            _ => None,
        }
    }

    /// Mutable access to table component `index_a` of the entity, recording `tick` as its
    /// changed tick, together with shared access to its distinct component `index_b`. `None`,
    /// with nothing changed, when the indices are equal or the entity lacks either component.
    pub fn get_mut_read_table(&mut self, entity: EntityId, index_a: u32, index_b: u32, tick: ChangeTick) -> (r: Option<(&mut V, &V)>)
        requires
            old(self).wf(),
        ensures
            final(self).wf(),
            forall|c: u32| #[trigger] final(self).is_table_component(c) == old(self).is_table_component(c),
            index_a == index_b ==> r is None && *final(self) == *old(self),
            index_a != index_b ==> match (old(self).entry(entity.spec_slot(), index_a), old(self).entry(entity.spec_slot(), index_b)) {
                (Some(ea), Some(eb)) => r matches Some((x, y)) && {
                    &&& *x == ea.0
                    &&& *y == eb.0
                    &&& final(self).entry(entity.spec_slot(), index_a) == Some((*final(x), ea.1, tick@))
                    &&& forall|s: u32, c: u32| (s != entity.spec_slot() || c != index_a) ==> #[trigger] final(self).entry(s, c)
                        == old(self).entry(s, c)
                },
                _ => r is None && *final(self) == *old(self),
            },
    {
        if index_a == index_b {
            return None;
        }
        let ghost slot = entity.spec_slot();
        let cell_a = self.cell(entity, index_a);
        let cell_b = self.cell(entity, index_b);
        match (cell_a, cell_b) {
            (Some((a, ka, row)), Some((_, kb, _))) => {
                proof {
                    assert(self.cols(a as int)[ka as int].wf());
                    assert(self.cols(a as int)[kb as int].wf());
                    self.cols(a as int)[ka as int].lemma_lengths();
                    self.cols(a as int)[kb as int].lemma_lengths();
                    lemma_column_of(self.sig(a as int), index_a, ka as int);
                    lemma_column_of(self.sig(a as int), index_b, kb as int);
                }
                let ghost pre = *self;
                let columns = self.columns[a].as_mut_slice();
                if ka < kb {
                    let (low, high) = columns.split_at_mut(kb);
                    let (_, middle) = low.split_at_mut(ka);
                    match (middle.first_mut(), high.first()) {
                        (Some(col_a), Some(col_b)) => match (col_a.get_value_mut(row, tick), col_b.get_value(row)) {
                            (Some(x), Some(y)) => {
                                proof {
                                    Self::lemma_cell_write_all(pre, a as int, ka as int, row as int, slot);
                                }
                                Some((x, y))
                            },
                            _ => None,
                        },
                        _ => None,
                    }
                } else {
                    let (low, high) = columns.split_at_mut(ka);
                    let (_, middle) = low.split_at_mut(kb);
                    match (high.first_mut(), middle.first()) {
                        (Some(col_a), Some(col_b)) => match (col_a.get_value_mut(row, tick), col_b.get_value(row)) {
                            (Some(x), Some(y)) => {
                                proof {
                                    Self::lemma_cell_write_all(pre, a as int, ka as int, row as int, slot);
                                }
                                Some((x, y))
                            },
                            _ => None,
                        },
                        _ => None,
                    }
                }
            },
            _ => None,
        }
    }

    /// Adds or replaces table component `component_index` of the entity. A new component
    /// moves the entity's row to the archetype of its enlarged signature.
    pub fn insert_table(&mut self, entity: EntityId, component_index: u32, value: V, tick: ChangeTick) -> (r: Option<V>)
        requires
            old(self).wf(),
            old(self).has_row_capacity(),
            old(self).is_table_component(component_index),
        ensures
            strictly_sorted(final(self).signature_of(entity.spec_slot())),
            final(self).signature_of(entity.spec_slot()).to_set() == old(self).signature_of(entity.spec_slot()).to_set().insert(component_index),
            forall|n: nat| old(self).has_headroom(n + 1) ==> #[trigger] final(self).has_headroom(n),
            final(self).wf(),
            forall|c: u32| #[trigger] final(self).is_table_component(c) == old(self).is_table_component(c),
            r == match old(self).entry(entity.spec_slot(), component_index) {
                Some(e) => Some(e.0),
                None => None::<V>,
            },
            final(self).entry(entity.spec_slot(), component_index) == Some((
                value,
                match old(self).entry(entity.spec_slot(), component_index) {
                    Some(e) => if e.1 == 0 && e.2 == 0 { tick@ } else { e.1 },
                    None => tick@,
                },
                tick@,
            )),
            forall|c: u32| c != component_index ==> #[trigger] final(self).entry(entity.spec_slot(), c)
                == old(self).entry(entity.spec_slot(), c),
            forall|s: u32, c: u32| s != entity.spec_slot() ==> #[trigger] final(self).entry(s, c) == old(self).entry(s, c),
    {
        let r = self.insert_table_entries(entity, component_index, value, tick);
        proof {
            let slot = entity.spec_slot();
            self.lemma_signature_entries(slot);
            old(self).lemma_signature_entries(slot);
            assert(self.signature_of(slot).to_set() =~= old(self).signature_of(slot).to_set().insert(component_index)) by {
                assert forall|c: u32| #[trigger] self.signature_of(slot).to_set().contains(c) == old(self).signature_of(slot).to_set().insert(component_index).contains(c) by {
                    assert(self.signature_of(slot).contains(c) == (self.entry(slot, c) is Some));
                    assert(old(self).signature_of(slot).contains(c) == (old(self).entry(slot, c) is Some));
                }
            }
        }
        r
    }

    /// The entry changes of [`ArchetypeStorage::insert_table`].
    fn insert_table_entries(&mut self, entity: EntityId, component_index: u32, value: V, tick: ChangeTick) -> (r: Option<V>)
        requires
            old(self).wf(),
            old(self).has_row_capacity(),
            old(self).is_table_component(component_index),
        ensures
            forall|n: nat| old(self).has_headroom(n + 1) ==> #[trigger] final(self).has_headroom(n),
            final(self).wf(),
            forall|c: u32| #[trigger] final(self).is_table_component(c) == old(self).is_table_component(c),
            r == match old(self).entry(entity.spec_slot(), component_index) {
                Some(e) => Some(e.0),
                None => None::<V>,
            },
            final(self).entry(entity.spec_slot(), component_index) == Some((
                value,
                match old(self).entry(entity.spec_slot(), component_index) {
                    Some(e) => if e.1 == 0 && e.2 == 0 { tick@ } else { e.1 },
                    None => tick@,
                },
                tick@,
            )),
            forall|c: u32| c != component_index ==> #[trigger] final(self).entry(entity.spec_slot(), c)
                == old(self).entry(entity.spec_slot(), c),
            forall|s: u32, c: u32| s != entity.spec_slot() ==> #[trigger] final(self).entry(s, c) == old(self).entry(s, c),
    {
        let ghost slot = entity.spec_slot();
        match self.cell(entity, component_index) {
            Some((a, k, row)) => {
                proof {
                    assert(self.cols(a as int)[k as int].wf());
                    self.cols(a as int)[k as int].lemma_lengths();
                }
                let replaced = self.columns[a][k].replace_value(row, value, tick);
                proof {
                    self.lemma_cell_write(old(self), a as int, k as int, row as int, slot);
                    assert(self.entity_slots@ == old(self).entity_slots@);
                }
                replaced
            },
            None => {
                proof {
                    old(self).lemma_loc(slot);
                }
                let mut row = match self.location(entity) {
                    Some(_) => self.detach(entity),
                    None => Vec::new(),
                };
                let ghost detached = row@;
                proof {
                    assert(!old(self).signature_of(slot).contains(component_index)) by {
                        if old(self).signature_of(slot).contains(component_index) {
                            let l = old(self).loc(slot)->0;
                            assert(old(self).sig(l.archetype as int).contains(component_index));
                        }
                    }
                    assert(detached.map_values(|e: (u32, V, u64, u64)| e.0) =~= old(self).signature_of(slot)) by {
                        if old(self).loc(slot) is Some {
                            let l = old(self).loc(slot)->0;
                            assert(old(self).arch_wf(l.archetype as int));
                        }
                    }
                    if old(self).loc(slot) is Some {
                        let l = old(self).loc(slot)->0;
                        assert(old(self).arch_wf(l.archetype as int));
                    }
                }
                let pos = insert_sorted(&mut row, (component_index, value, tick.raw(), tick.raw()));
                proof {
                    let comps = row@.map_values(|e: (u32, V, u64, u64)| e.0);
                    assert forall|j: int| 0 <= j < row@.len() implies old(self).is_table_component(#[trigger] row@[j].0) by {
                        if j != pos {
                            let jj = if j < pos { j } else { j - 1 };
                            assert(row@[j] == detached[jj]);
                            let l = old(self).loc(slot)->0;
                            assert(old(self).arch_wf(l.archetype as int));
                            assert(detached.map_values(|e: (u32, V, u64, u64)| e.0)[jj] == detached[jj].0);
                        }
                    }
                }
                let ghost mid = *self;
                self.attach(entity, row);
                proof {
                    Self::lemma_headroom_after(*old(self), mid, *self);
                }
                proof {
                    assert(row@[pos as int] == (component_index, value, tick@, tick@));
                    assert(final_entry_of_row(self, slot, row@, pos as int));
                    assert forall|c: u32| c != component_index implies #[trigger] self.entry(slot, c) == old(self).entry(slot, c) by {
                        if old(self).signature_of(slot).contains(c) {
                            let l = old(self).loc(slot)->0;
                            let j = column_of(old(self).sig(l.archetype as int), c);
                            assert(old(self).arch_wf(l.archetype as int));
                            let jj = if j < pos { j } else { j + 1 };
                            assert(row@[jj] == detached[j]);
                            assert(final_entry_of_row(self, slot, row@, jj));
                        } else {
                            assert(!self.signature_of(slot).contains(c)) by {
                                if self.signature_of(slot).contains(c) {
                                    let jj = choose|jj: int| 0 <= jj < self.signature_of(slot).len() && self.signature_of(slot)[jj] == c;
                                    assert(row@[jj].0 == c);
                                    if jj != pos {
                                        let j = if jj < pos { jj } else { jj - 1 };
                                        assert(row@[jj] == detached[j]);
                                        assert(old(self).signature_of(slot)[j] == c);
                                    }
                                }
                            }
                            let l = self.loc(slot)->0;
                            assert(!self.sig(l.archetype as int).contains(c));
                            if old(self).loc(slot) is Some {
                                let l0 = old(self).loc(slot)->0;
                                assert(!old(self).sig(l0.archetype as int).contains(c));
                            }
                        }
                    }
                }
                None
            },
        }
    }

    /// Removes table component `component_index` from the entity, moving its row to the
    /// archetype of the reduced signature, and returns the removed value.
    pub fn remove_table(&mut self, entity: EntityId, component_index: u32) -> (r: Option<V>)
        requires
            old(self).wf(),
            old(self).has_row_capacity(),
        ensures
            strictly_sorted(final(self).signature_of(entity.spec_slot())),
            final(self).signature_of(entity.spec_slot()).to_set() == old(self).signature_of(entity.spec_slot()).to_set().remove(component_index),
            forall|n: nat| old(self).has_headroom(n + 1) ==> #[trigger] final(self).has_headroom(n),
            final(self).wf(),
            forall|c: u32| #[trigger] final(self).is_table_component(c) == old(self).is_table_component(c),
            r == match old(self).entry(entity.spec_slot(), component_index) {
                Some(e) => Some(e.0),
                None => None::<V>,
            },
            final(self).entry(entity.spec_slot(), component_index) is None,
            forall|c: u32| c != component_index ==> #[trigger] final(self).entry(entity.spec_slot(), c)
                == old(self).entry(entity.spec_slot(), c),
            forall|s: u32, c: u32| s != entity.spec_slot() ==> #[trigger] final(self).entry(s, c) == old(self).entry(s, c),
    {
        let r = self.remove_table_entries(entity, component_index);
        proof {
            let slot = entity.spec_slot();
            self.lemma_signature_entries(slot);
            old(self).lemma_signature_entries(slot);
            assert(self.signature_of(slot).to_set() =~= old(self).signature_of(slot).to_set().remove(component_index)) by {
                assert forall|c: u32| #[trigger] self.signature_of(slot).to_set().contains(c) == old(self).signature_of(slot).to_set().remove(component_index).contains(c) by {
                    assert(self.signature_of(slot).contains(c) == (self.entry(slot, c) is Some));
                    assert(old(self).signature_of(slot).contains(c) == (old(self).entry(slot, c) is Some));
                }
            }
        }
        r
    }

    /// The entry changes of [`ArchetypeStorage::remove_table`].
    fn remove_table_entries(&mut self, entity: EntityId, component_index: u32) -> (r: Option<V>)
        requires
            old(self).wf(),
            old(self).has_row_capacity(),
        ensures
            forall|n: nat| old(self).has_headroom(n + 1) ==> #[trigger] final(self).has_headroom(n),
            final(self).wf(),
            forall|c: u32| #[trigger] final(self).is_table_component(c) == old(self).is_table_component(c),
            r == match old(self).entry(entity.spec_slot(), component_index) {
                Some(e) => Some(e.0),
                None => None::<V>,
            },
            final(self).entry(entity.spec_slot(), component_index) is None,
            forall|c: u32| c != component_index ==> #[trigger] final(self).entry(entity.spec_slot(), c)
                == old(self).entry(entity.spec_slot(), c),
            forall|s: u32, c: u32| s != entity.spec_slot() ==> #[trigger] final(self).entry(s, c) == old(self).entry(s, c),
    {
        let ghost slot = entity.spec_slot();
        if !self.has_component(entity, component_index) {
            proof {
                assert(old(self).entry(slot, component_index) is None);
                Self::lemma_headroom_after(*old(self), *old(self), *old(self));
            }
            return None;
        }
        proof {
            old(self).lemma_loc(slot);
        }
        let mut row = self.detach(entity);
        let ghost detached = row@;
        let ghost l = old(self).loc(slot)->0;
        proof {
            assert(old(self).arch_wf(l.archetype as int));
            assert(detached.map_values(|e: (u32, V, u64, u64)| e.0) =~= old(self).signature_of(slot));
        }
        let (pos, removed) = remove_entry(&mut row, component_index);
        proof {
            assert(old(self).entry(slot, component_index) == Some((removed.1, removed.2, removed.3)));
        }
        if row.len() > 0 {
            proof {
                assert forall|j: int| 0 <= j < row@.len() implies self.is_table_component(#[trigger] row@[j].0) by {
                    let jj = if j < pos { j } else { j + 1 };
                    assert(row@[j] == detached[jj]);
                    assert(detached.map_values(|e: (u32, V, u64, u64)| e.0)[jj] == detached[jj].0);
                    assert(old(self).is_table_component(old(self).sig(l.archetype as int)[jj]));
                }
            }
            let ghost mid = *self;
            self.attach(entity, row);
            proof {
                Self::lemma_headroom_after(*old(self), mid, *self);
            }
            proof {
                assert forall|c: u32| c != component_index implies #[trigger] self.entry(slot, c) == old(self).entry(slot, c) by {
                    if old(self).signature_of(slot).contains(c) {
                        let j = column_of(old(self).sig(l.archetype as int), c);
                        let jj = if j < pos { j } else { j - 1 };
                        assert(j != pos);
                        assert(row@[jj] == detached[j]);
                        assert(final_entry_of_row(self, slot, row@, jj));
                    } else {
                        assert(!self.signature_of(slot).contains(c)) by {
                            if self.signature_of(slot).contains(c) {
                                let jj = choose|jj: int| 0 <= jj < self.signature_of(slot).len() && self.signature_of(slot)[jj] == c;
                                let j = if jj < pos { jj } else { jj + 1 };
                                assert(row@[jj] == detached[j]);
                                assert(old(self).signature_of(slot)[j] == c);
                            }
                        }
                        let l2 = self.loc(slot)->0;
                        assert(!self.sig(l2.archetype as int).contains(c));
                        assert(!old(self).sig(l.archetype as int).contains(c));
                    }
                }
                assert(!self.signature_of(slot).contains(component_index)) by {
                    if self.signature_of(slot).contains(component_index) {
                        let jj = choose|jj: int| 0 <= jj < self.signature_of(slot).len() && self.signature_of(slot)[jj] == component_index;
                        let j = if jj < pos { jj } else { jj + 1 };
                        assert(row@[jj] == detached[j]);
                        assert(old(self).sig(l.archetype as int)[j] == component_index);
                        assert(old(self).sig(l.archetype as int)[pos as int] == component_index);
                    }
                }
                let l2 = self.loc(slot)->0;
                assert(!self.sig(l2.archetype as int).contains(component_index));
            }
        } else {
            proof {
                Self::lemma_headroom_after(*old(self), *self, *self);
                assert forall|c: u32| c != component_index implies #[trigger] self.entry(slot, c) == old(self).entry(slot, c) by {
                    if old(self).sig(l.archetype as int).contains(c) {
                        let j = column_of(old(self).sig(l.archetype as int), c);
                        assert(old(self).sig(l.archetype as int)[j] == c);
                        assert(detached.len() == 1);
                        assert(j == 0 && pos == 0);
                    }
                }
            }
        }
        Some(removed.1)
    }

    /// Removes table component `component_index` from the entity; returns whether it was present.
    pub fn remove_table_index(&mut self, entity: EntityId, component_index: u32) -> (r: bool)
        requires
            old(self).wf(),
            old(self).has_row_capacity(),
        ensures
            forall|n: nat| old(self).has_headroom(n + 1) ==> #[trigger] final(self).has_headroom(n),
            final(self).wf(),
            forall|c: u32| #[trigger] final(self).is_table_component(c) == old(self).is_table_component(c),
            r == (old(self).entry(entity.spec_slot(), component_index) is Some),
            final(self).entry(entity.spec_slot(), component_index) is None,
            forall|c: u32| c != component_index ==> #[trigger] final(self).entry(entity.spec_slot(), c)
                == old(self).entry(entity.spec_slot(), c),
            forall|s: u32, c: u32| s != entity.spec_slot() ==> #[trigger] final(self).entry(s, c) == old(self).entry(s, c),
            strictly_sorted(final(self).signature_of(entity.spec_slot())),
            final(self).signature_of(entity.spec_slot()).to_set() == old(self).signature_of(entity.spec_slot()).to_set().remove(
                component_index,
            ),
    {
        self.remove_table(entity, component_index).is_some()
    }

    /// Drops every table component of the entity.
    pub fn remove_entity(&mut self, entity: EntityId)
        requires
            old(self).wf(),
        ensures
            final(self).wf(),
            old(self).has_row_capacity() ==> final(self).has_row_capacity(),
            forall|c: u32| #[trigger] final(self).is_table_component(c) == old(self).is_table_component(c),
            final(self).loc(entity.spec_slot()) is None,
            forall|c: u32| #[trigger] final(self).entry(entity.spec_slot(), c) is None,
            forall|s: u32, c: u32| s != entity.spec_slot() ==> #[trigger] final(self).entry(s, c) == old(self).entry(s, c),
    {
        if self.location(entity).is_none() {
            return;
        }
        let _ = self.detach(entity);
    }

    /// `st` differs from `pre` only in cell (`a`, column `k`, `row`).
    pub closed spec fn cell_written(st: ArchetypeStorage<V>, pre: ArchetypeStorage<V>, a: int, k: int, row: int) -> bool {
        &&& st.signatures@ == pre.signatures@
        &&& st.entity_slots@ == pre.entity_slots@
        &&& st.locations@ == pre.locations@
        &&& st.column_factories@ == pre.column_factories@
        &&& st.columns@.len() == pre.columns@.len()
        &&& forall|b: int| 0 <= b < st.columns@.len() && b != a ==> #[trigger] st.columns@[b] == pre.columns@[b]
        &&& st.cols(a).len() == pre.cols(a).len()
        &&& forall|j: int| 0 <= j < st.cols(a).len() && j != k ==> #[trigger] st.cols(a)[j] == pre.cols(a)[j]
        &&& st.cols(a)[k].wf()
        &&& st.cols(a)[k].values().len() == pre.cols(a)[k].values().len()
        &&& forall|r: int| 0 <= r < st.cols(a)[k].values().len() && r != row ==> {
            &&& #[trigger] st.cols(a)[k].values()[r] == pre.cols(a)[k].values()[r]
            &&& st.cols(a)[k].added_ticks()[r] == pre.cols(a)[k].added_ticks()[r]
            &&& st.cols(a)[k].changed_ticks()[r] == pre.cols(a)[k].changed_ticks()[r]
        }
    }

    proof fn lemma_cell_write_all(pre: ArchetypeStorage<V>, a: int, k: int, row: int, slot: u32)
        requires
            pre.wf(),
            0 <= a < pre.archetype_count(),
            0 <= k < pre.sig(a).len(),
            0 <= row < pre.rows(a).len(),
            pre.loc(slot) == Some(Location { archetype: a as u32, row: row as u32 }),
        ensures
            forall|st: ArchetypeStorage<V>| #![trigger st.wf()] Self::cell_written(st, pre, a, k, row) ==> st.wf(),
            forall|st: ArchetypeStorage<V>| #![trigger st.has_row_capacity()] Self::cell_written(st, pre, a, k, row)
                ==> st.has_row_capacity() == pre.has_row_capacity(),
            forall|st: ArchetypeStorage<V>, c: u32| #![trigger st.is_table_component(c)] Self::cell_written(st, pre, a, k, row)
                ==> st.is_table_component(c) == pre.is_table_component(c),
            forall|st: ArchetypeStorage<V>| #![trigger st.entry(slot, pre.sig(a)[k])] Self::cell_written(st, pre, a, k, row)
                ==> st.entry(slot, pre.sig(a)[k]) == Some((
                    st.cols(a)[k].values()[row],
                    st.cols(a)[k].added_ticks()[row],
                    st.cols(a)[k].changed_ticks()[row],
                )),
            forall|st: ArchetypeStorage<V>, s: u32, c: u32| #![trigger st.entry(s, c)] Self::cell_written(st, pre, a, k, row)
                && (s != slot || c != pre.sig(a)[k]) ==> st.entry(s, c) == pre.entry(s, c),
    {
        assert forall|st: ArchetypeStorage<V>| #![trigger st.wf()] Self::cell_written(st, pre, a, k, row) implies st.wf() by {
            st.lemma_cell_write(&pre, a, k, row, slot);
        }
        assert forall|st: ArchetypeStorage<V>| #![trigger st.has_row_capacity()] Self::cell_written(st, pre, a, k, row)
            implies st.has_row_capacity() == pre.has_row_capacity() by {
            st.lemma_cell_write(&pre, a, k, row, slot);
        }
        assert forall|st: ArchetypeStorage<V>, c: u32| #![trigger st.is_table_component(c)] Self::cell_written(st, pre, a, k, row)
            implies st.is_table_component(c) == pre.is_table_component(c) by {
            st.lemma_cell_write(&pre, a, k, row, slot);
        }
        assert forall|st: ArchetypeStorage<V>| #![trigger st.entry(slot, pre.sig(a)[k])] Self::cell_written(st, pre, a, k, row)
            implies st.entry(slot, pre.sig(a)[k]) == Some((
                st.cols(a)[k].values()[row],
                st.cols(a)[k].added_ticks()[row],
                st.cols(a)[k].changed_ticks()[row],
            )) by {
            st.lemma_cell_write(&pre, a, k, row, slot);
        }
        assert forall|st: ArchetypeStorage<V>, s: u32, c: u32| #![trigger st.entry(s, c)] Self::cell_written(st, pre, a, k, row)
            && (s != slot || c != pre.sig(a)[k]) implies st.entry(s, c) == pre.entry(s, c) by {
            st.lemma_cell_write(&pre, a, k, row, slot);
        }
    }

    /// Mutable access to the entity's component, recording `tick` as its changed tick.
    pub fn get_table_mut(&mut self, entity: EntityId, component_index: u32, tick: ChangeTick) -> (r: Option<&mut V>)
        requires
            old(self).wf(),
        ensures
            final(self).wf(),
            old(self).has_row_capacity() ==> final(self).has_row_capacity(),
            forall|c: u32| #[trigger] final(self).is_table_component(c) == old(self).is_table_component(c),
            forall|s: u32, c: u32| (s != entity.spec_slot() || c != component_index) ==> #[trigger] final(self).entry(s, c)
                == old(self).entry(s, c),
            match old(self).entry(entity.spec_slot(), component_index) {
                Some(e) => r matches Some(v) && *v == e.0
                    && final(self).entry(entity.spec_slot(), component_index) == Some((*final(v), e.1, tick@)),
                None => r is None && final(self).entry(entity.spec_slot(), component_index) is None,
            },
    {
        let ghost slot = entity.spec_slot();
        match self.cell(entity, component_index) {
            Some((a, k, row)) => {
                proof {
                    assert(self.cols(a as int)[k as int].wf());
                    self.cols(a as int)[k as int].lemma_lengths();
                    Self::lemma_cell_write_all(*self, a as int, k as int, row as int, slot);
                    lemma_column_of(self.sig(a as int), component_index, k as int);
                }
                self.columns[a][k].get_value_mut(row, tick)
            },
            None => None,
        }
    }

    /// Writes a component value into an existing row of an archetype's column.
    pub fn write_migration_column_for_test(&mut self, archetype: usize, component_index: u32, row: usize, value: V, tick: ChangeTick)
        requires
            old(self).wf(),
            archetype < old(self).archetype_count(),
            old(self).sig(archetype as int).contains(component_index),
            row < old(self).rows(archetype as int).len(),
        ensures
            final(self).wf(),
            forall|s: u32, c: u32| (s != old(self).rows(archetype as int)[row as int] || c != component_index)
                ==> #[trigger] final(self).entry(s, c) == old(self).entry(s, c),
            final(self).entry(old(self).rows(archetype as int)[row as int], component_index) matches Some(e) && e.0 == value,
    {
        let ghost slot = old(self).rows(archetype as int)[row as int];
        proof {
            assert(self.arch_wf(archetype as int));
            assert(self.locations@[slot as int] == Some(Location { archetype: archetype as u32, row: row as u32 }));
        }
        let k = match sig_position(&self.signatures[archetype], component_index) {
            Some(k) => k,
            None => {
                return;
            },
        };
        proof {
            assert(self.cols(archetype as int)[k as int].wf());
            self.cols(archetype as int)[k as int].lemma_lengths();
        }
        let _ = self.columns[archetype][k].replace_value(row, value, tick);
        proof {
            self.lemma_cell_write(old(self), archetype as int, k as int, row as int, slot);
        }
    }

    /// Moves the entity's row to the archetype of `signature`, keeping the components
    /// the signature names; an empty signature drops the row. Returns the entity's row.
    pub fn place_entity(&mut self, entity: EntityId, signature: &Vec<u32>) -> (r: u32)
        requires
            old(self).wf(),
            old(self).has_row_capacity(),
            strictly_sorted(signature@),
            forall|c: u32| signature@.contains(c) ==> old(self).signature_of(entity.spec_slot()).contains(c),
        ensures
            forall|n: nat| old(self).has_headroom(n + 1) ==> #[trigger] final(self).has_headroom(n),
            final(self).wf(),
            forall|c: u32| #[trigger] final(self).is_table_component(c) == old(self).is_table_component(c),
            signature@.len() == 0 ==> r == 0 && final(self).loc(entity.spec_slot()) is None,
            signature@.len() > 0 ==> (final(self).loc(entity.spec_slot()) matches Some(l) && l.row == r),
            forall|c: u32| #[trigger] final(self).entry(entity.spec_slot(), c)
                == if signature@.contains(c) { old(self).entry(entity.spec_slot(), c) } else { None },
            forall|s: u32, c: u32| s != entity.spec_slot() ==> #[trigger] final(self).entry(s, c) == old(self).entry(s, c),
    {
        let ghost slot = entity.spec_slot();
        proof {
            old(self).lemma_loc(slot);
        }
        if signature.len() == 0 {
            if self.location(entity).is_some() {
                let _ = self.detach(entity);
            }
            proof {
                assert forall|c: u32| #[trigger] self.entry(slot, c) == if signature@.contains(c) { old(self).entry(slot, c) } else { None } by {
                }
                Self::lemma_headroom_after(*old(self), *self, *self);
            }
            return 0;
        }
        let l = match self.location(entity) {
            Some(l) => l,
            None => {
                proof {
                    assert(signature@.contains(signature@[0]));
                    Self::lemma_headroom_after(*old(self), *old(self), *old(self));
                }
                return 0;
            },
        };
        proof {
            assert(old(self).arch_wf(l.archetype as int));
        }
        if sig_equal(&self.signatures[l.archetype as usize], signature) {
            proof {
                Self::lemma_headroom_after(*old(self), *old(self), *old(self));
            }
            return l.row;
        }
        let mut row = self.detach(entity);
        let ghost detached = row@;
        let n0 = row.len();
        proof {
            assert(detached.map_values(|e: (u32, V, u64, u64)| e.0) =~= old(self).signature_of(slot));
            assert(detached.len() == n0);
        }
        let mut kept: Vec<(u32, V, u64, u64)> = Vec::new();
        let mut taken: usize = 0;
        let ghost mut kept_from: Seq<int> = Seq::empty();
        while row.len() > 0
            invariant
                row@ == detached.subrange(taken as int, detached.len() as int),
                0 <= taken <= detached.len(),
                detached.len() <= usize::MAX,
                kept@.len() == kept_from.len(),
                forall|j: int| 0 <= j < kept_from.len() ==> 0 <= #[trigger] kept_from[j] < taken
                    && kept@[j] == detached[kept_from[j]],
                forall|i: int, j: int| 0 <= i < j < kept_from.len() ==> kept_from[i] < kept_from[j],
                forall|i: int| 0 <= i < taken && signature@.contains(#[trigger] detached[i].0)
                    ==> exists|j: int| 0 <= j < kept_from.len() && kept_from[j] == i,
                forall|j: int| 0 <= j < kept_from.len() ==> signature@.contains(#[trigger] kept@[j].0),
            decreases row@.len(),
        {
            let entry = row.remove(0);
            proof {
                assert(entry == detached[taken as int]);
            }
            let ghost old_kept_from = kept_from;
            if sig_contains(signature, entry.0) {
                proof {
                    kept_from = kept_from.push(taken as int);
                }
                kept.push(entry);
            }
            proof {
                assert forall|i: int| 0 <= i < taken + 1 && signature@.contains(#[trigger] detached[i].0)
                    implies exists|j: int| 0 <= j < kept_from.len() && kept_from[j] == i by {
                    if i < taken {
                        let j = choose|j: int| 0 <= j < old_kept_from.len() && old_kept_from[j] == i;
                        assert(kept_from[j] == i);
                    } else {
                        assert(kept_from[kept_from.len() - 1] == i);
                    }
                }
            }
            taken = taken + 1;
            proof {
                assert(row@ =~= detached.subrange(taken as int, detached.len() as int));
            }
        }
        proof {
            let comps = kept@.map_values(|e: (u32, V, u64, u64)| e.0);
            let dc = detached.map_values(|e: (u32, V, u64, u64)| e.0);
            assert forall|i: int, j: int| 0 <= i < j < comps.len() implies comps[i] < comps[j] by {
                assert(comps[i] == dc[kept_from[i]]);
                assert(comps[j] == dc[kept_from[j]]);
            }
            let c0 = signature@[0];
            assert(signature@.contains(c0));
            let i0 = choose|i: int| 0 <= i < dc.len() && dc[i] == c0;
            assert(detached[i0].0 == c0);
            assert(kept@.len() > 0);
            assert forall|j: int| 0 <= j < kept@.len() implies old(self).is_table_component(#[trigger] kept@[j].0) by {
                assert(kept@[j] == detached[kept_from[j]]);
                assert(dc[kept_from[j]] == detached[kept_from[j]].0);
                assert(old(self).is_table_component(old(self).sig(l.archetype as int)[kept_from[j]]));
            }
        }
        let ghost mid = *self;
        let new_row = self.attach(entity, kept);
        proof {
            Self::lemma_headroom_after(*old(self), mid, *self);
        }
        proof {
            let dc = detached.map_values(|e: (u32, V, u64, u64)| e.0);
            assert forall|c: u32| #[trigger] self.entry(slot, c) == if signature@.contains(c) { old(self).entry(slot, c) } else { None } by {
                if signature@.contains(c) {
                    let i = choose|i: int| 0 <= i < dc.len() && dc[i] == c;
                    assert(detached[i].0 == c);
                    let j = choose|j: int| 0 <= j < kept_from.len() && kept_from[j] == i;
                    assert(kept@[j] == detached[i]);
                    assert(final_entry_of_row(self, slot, kept@, j));
                    lemma_column_of(old(self).sig(l.archetype as int), c, i);
                } else {
                    assert(!self.signature_of(slot).contains(c)) by {
                        if self.signature_of(slot).contains(c) {
                            let j = choose|j: int| 0 <= j < self.signature_of(slot).len() && self.signature_of(slot)[j] == c;
                            assert(kept@[j].0 == c);
                        }
                    }
                    let l2 = self.loc(slot)->0;
                    assert(!self.sig(l2.archetype as int).contains(c));
                }
            }
        }
        new_row
    }

    /// Number of rows in the first `n` archetypes whose signature holds `c`.
    pub closed spec fn population(&self, c: u32, n: int) -> nat
        decreases n,
    {
        if n <= 0 {
            0
        } else if self.sig(n - 1).contains(c) {
            self.population(c, n - 1) + self.rows(n - 1).len()
        } else {
            self.population(c, n - 1)
        }
    }

    /// Archetypes whose signature holds `component_index`, in increasing order.
    pub fn archetypes_with_component(&self, component_index: u32) -> (r: Vec<usize>)
        requires
            self.wf(),
        ensures
            forall|i: int, j: int| 0 <= i < j < r@.len() ==> r@[i] < r@[j],
            forall|i: int| 0 <= i < r@.len() ==> (#[trigger] r@[i] as int) < self.archetype_count()
                && self.sig(r@[i] as int).contains(component_index),
            forall|a: int| 0 <= a < self.archetype_count() && #[trigger] self.sig(a).contains(component_index)
                ==> r@.contains(a as usize),
    {
        let mut out: Vec<usize> = Vec::new();
        let mut a: usize = 0;
        while a < self.signatures.len()
            invariant
                0 <= a <= self.signatures@.len(),
                forall|i: int, j: int| 0 <= i < j < out@.len() ==> out@[i] < out@[j],
                forall|i: int| 0 <= i < out@.len() ==> (#[trigger] out@[i]) < a
                    && self.sig(out@[i] as int).contains(component_index),
                forall|b: int| 0 <= b < a && #[trigger] self.sig(b).contains(component_index) ==> out@.contains(b as usize),
            decreases self.signatures@.len() - a,
        {
            let ghost prev = out@;
            if sig_contains(&self.signatures[a], component_index) {
                out.push(a);
                proof {
                    assert(out@[out@.len() - 1] == a);
                }
            }
            proof {
                assert forall|b: int| 0 <= b < a + 1 && #[trigger] self.sig(b).contains(component_index)
                    implies out@.contains(b as usize) by {
                    if b == a {
                        assert(out@[out@.len() - 1] == a);
                    } else {
                        assert(prev.contains(b as usize));
                        let j = choose|j: int| 0 <= j < prev.len() && prev[j] == b as usize;
                        assert(out@[j] == b as usize);
                    }
                }
            }
            a = a + 1;
        }
        out
    }

    /// Number of entities whose table signature holds `component_index`.
    pub fn component_population(&self, component_index: u32) -> (r: usize)
        requires
            self.wf(),
            self.population(component_index, self.archetype_count() as int) <= usize::MAX,
        ensures
            r == self.population(component_index, self.archetype_count() as int),
    {
        let mut total: usize = 0;
        let mut a: usize = 0;
        while a < self.signatures.len()
            invariant
                self.wf(),
                0 <= a <= self.signatures@.len(),
                total == self.population(component_index, a as int),
                self.population(component_index, self.archetype_count() as int) <= usize::MAX,
            decreases self.signatures@.len() - a,
        {
            proof {
                self.lemma_population_monotonic(component_index, a as int + 1, self.archetype_count() as int);
            }
            if sig_contains(&self.signatures[a], component_index) {
                total = total + self.entity_slots[a].len();
            }
            a = a + 1;
        }
        total
    }

    proof fn lemma_population_monotonic(&self, c: u32, m: int, n: int)
        requires
            m <= n,
        ensures
            self.population(c, m) <= self.population(c, n),
        decreases n - m,
    {
        if m < n {
            self.lemma_population_monotonic(c, m, n - 1);
        }
    }

    /// Entity-slot slices of the archetypes whose signature holds `component_index`, in archetype order.
    pub fn entity_slot_slices_with_component(&self, component_index: u32) -> (r: Vec<&[u32]>)
        requires
            self.wf(),
        ensures
            r@.map_values(|x: &[u32]| x@) == self.holding_rows(component_index, self.archetype_count() as int),
    {
        let mut out: Vec<&[u32]> = Vec::new();
        let mut a: usize = 0;
        while a < self.signatures.len()
            invariant
                self.wf(),
                0 <= a <= self.signatures@.len(),
                out@.map_values(|x: &[u32]| x@) == self.holding_rows(component_index, a as int),
            decreases self.signatures@.len() - a,
        {
            let ghost prev = out@;
            if sig_contains(&self.signatures[a], component_index) {
                out.push(self.entity_slots[a].as_slice());
                proof {
                    assert(out@.map_values(|x: &[u32]| x@) =~= prev.map_values(|x: &[u32]| x@).push(self.rows(a as int)));
                }
            }
            a = a + 1;
        }
        out
    }

    /// Rows of the first `n` archetypes whose signature holds `c`, in archetype order.
    pub closed spec fn holding_rows(&self, c: u32, n: int) -> Seq<Seq<u32>>
        decreases n,
    {
        if n <= 0 {
            Seq::empty()
        } else if self.sig(n - 1).contains(c) {
            self.holding_rows(c, n - 1).push(self.rows(n - 1))
        } else {
            self.holding_rows(c, n - 1)
        }
    }

    /// Slots of the entities that hold table component `c`.
    pub open spec fn holders(&self, c: u32) -> Set<u32> {
        Set::new(|s: u32| self.entry(s, c) is Some)
    }

    /// Holders of `c` whose row lies in one of the first `n` archetypes.
    spec fn holders_below(&self, c: u32, n: int) -> Set<u32> {
        Set::new(|s: u32| self.entry(s, c) is Some && (self.loc(s) matches Some(l) && (l.archetype as int) < n))
    }

    /// The row of archetype `a` at position `r` belongs to the slot stored there.
    proof fn lemma_row_location(&self, a: int, r: int)
        requires
            self.wf(),
            0 <= a < self.archetype_count(),
            0 <= r < self.rows(a).len(),
        ensures
            self.loc(self.rows(a)[r]) == Some(Location { archetype: a as u32, row: r as u32 }),
            self.signature_of(self.rows(a)[r]) == self.sig(a),
    {
        assert(self.arch_wf(a));
    }

    /// The slots of one archetype are pairwise distinct.
    proof fn lemma_rows_unique(&self, a: int)
        requires
            self.wf(),
            0 <= a < self.archetype_count(),
        ensures
            self.rows(a).no_duplicates(),
    {
        assert forall|i: int, j: int| 0 <= i < self.rows(a).len() && 0 <= j < self.rows(a).len() && i != j implies self.rows(a)[i]
            != self.rows(a)[j] by {
            self.lemma_rows_distinct(a, i, j);
        }
    }

    /// The holders of `c` in the first `n` archetypes are finitely many, and as many as
    /// `population` counts.
    proof fn lemma_population_holders(&self, c: u32, n: int)
        requires
            self.wf(),
            0 <= n <= self.archetype_count(),
        ensures
            self.holders_below(c, n).finite(),
            self.holders_below(c, n).len() == self.population(c, n),
        decreases n,
    {
        if n == 0 {
            assert(self.holders_below(c, n) =~= Set::<u32>::empty());
        } else {
            let a = n - 1;
            self.lemma_population_holders(c, a);
            let prev = self.holders_below(c, a);
            let now = self.holders_below(c, n);
            if self.sig(a).contains(c) {
                let here = self.rows(a).to_set();
                assert forall|s: u32| now.contains(s) <==> (prev + here).contains(s) by {
                    if now.contains(s) {
                        self.lemma_loc(s);
                        let l = self.loc(s)->0;
                        if l.archetype as int == a {
                            assert(self.rows(a)[l.row as int] == s);
                            assert(here.contains(s));
                        }
                    }
                    if here.contains(s) {
                        let r = choose|r: int| 0 <= r < self.rows(a).len() && self.rows(a)[r] == s;
                        self.lemma_row_location(a, r);
                    }
                }
                assert(now =~= prev + here);
                assert(prev.disjoint(here)) by {
                    assert forall|s: u32| here.contains(s) implies !prev.contains(s) by {
                        let r = choose|r: int| 0 <= r < self.rows(a).len() && self.rows(a)[r] == s;
                        self.lemma_row_location(a, r);
                    }
                }
                self.lemma_rows_unique(a);
                self.rows(a).unique_seq_to_set();
                vstd::set_lib::lemma_set_disjoint_lens(prev, here);
            } else {
                assert forall|s: u32| now.contains(s) <==> prev.contains(s) by {
                    if now.contains(s) {
                        self.lemma_loc(s);
                    }
                }
                assert(now =~= prev);
            }
        }
    }

    /// `component_population(c)` counts the entities that hold `c`: it is the number of
    /// slots whose entity has a value for `c`.
    pub proof fn law_population_counts_holders(&self, c: u32)
        requires
            self.wf(),
        ensures
            self.holders(c).finite(),
            self.population(c, self.archetype_count() as int) == self.holders(c).len(),
    {
        self.lemma_population_holders(c, self.archetype_count() as int);
        assert forall|s: u32| self.holders(c).contains(s) <==> self.holders_below(c, self.archetype_count() as int).contains(s) by {
            self.lemma_loc(s);
        }
        assert(self.holders(c) =~= self.holders_below(c, self.archetype_count() as int));
    }

    /// Every slot in the first `n` archetypes' holding rows holds `c`, and every holder of
    /// `c` stored in those archetypes is among them.
    proof fn lemma_holding_rows_holders(&self, c: u32, n: int)
        requires
            self.wf(),
            0 <= n <= self.archetype_count(),
        ensures
            forall|k: int, j: int|
                0 <= k < self.holding_rows(c, n).len() && 0 <= j < self.holding_rows(c, n)[k].len() ==> self.entry(
                    #[trigger] self.holding_rows(c, n)[k][j],
                    c,
                ) is Some,
            forall|s: u32|
                #[trigger] self.holders_below(c, n).contains(s) ==> exists|k: int|
                    0 <= k < self.holding_rows(c, n).len() && #[trigger] self.holding_rows(c, n)[k].contains(s),
        decreases n,
    {
        if n > 0 {
            let a = n - 1;
            self.lemma_holding_rows_holders(c, a);
            let prev = self.holding_rows(c, a);
            let now = self.holding_rows(c, n);
            assert forall|k: int, j: int| 0 <= k < now.len() && 0 <= j < now[k].len() implies self.entry(#[trigger] now[k][j], c) is Some by {
                if k == prev.len() {
                    self.lemma_row_location(a, j);
                } else {
                    assert(now[k] == prev[k]);
                }
            }
            assert forall|s: u32| #[trigger] self.holders_below(c, n).contains(s) implies exists|k: int|
                0 <= k < now.len() && #[trigger] now[k].contains(s) by {
                self.lemma_loc(s);
                let l = self.loc(s)->0;
                if (l.archetype as int) < a {
                    assert(self.holders_below(c, a).contains(s));
                    let k = choose|k: int| 0 <= k < prev.len() && #[trigger] prev[k].contains(s);
                    assert(now[k] == prev[k]);
                } else {
                    assert(self.sig(a).contains(c));
                    assert(now[prev.len() as int] == self.rows(a));
                    assert(self.rows(a)[l.row as int] == s);
                    assert(now[prev.len() as int].contains(s));
                }
            }
        } else {
            assert forall|s: u32| #[trigger] self.holders_below(c, n).contains(s) implies false by {
                self.lemma_loc(s);
            }
        }
    }

    /// `entity_slot_slices_with_component(c)` hands out exactly the holders of `c`: every
    /// slot in its slices holds `c`, and every entity that holds `c` is in one of them.
    pub proof fn law_slices_hold_exactly_holders(&self, c: u32)
        requires
            self.wf(),
        ensures
            forall|k: int, j: int|
                0 <= k < self.holding_rows(c, self.archetype_count() as int).len() && 0 <= j < self.holding_rows(
                    c,
                    self.archetype_count() as int,
                )[k].len() ==> self.entry(#[trigger] self.holding_rows(c, self.archetype_count() as int)[k][j], c) is Some,
            forall|s: u32|
                self.entry(s, c) is Some ==> exists|k: int|
                    0 <= k < self.holding_rows(c, self.archetype_count() as int).len() && #[trigger] self.holding_rows(
                        c,
                        self.archetype_count() as int,
                    )[k].contains(s),
    {
        let n = self.archetype_count() as int;
        self.lemma_holding_rows_holders(c, n);
        assert forall|s: u32| self.entry(s, c) is Some implies exists|k: int|
            0 <= k < self.holding_rows(c, n).len() && #[trigger] self.holding_rows(c, n)[k].contains(s) by {
            self.lemma_loc(s);
            assert(self.holders_below(c, n).contains(s));
        }
    }

    /// Entity slots stored in archetype `archetype`, by row.
    pub fn entity_slots(&self, archetype: usize) -> (r: &[u32])
        requires
            archetype < self.archetype_count(),
            self.wf(),
        ensures
            r@ == self.rows(archetype as int),
    {
        self.entity_slots[archetype].as_slice()
    }
}

/// After attaching `row` for `slot`, the entity's entry for `row[j]`'s component is `row[j]`'s triple.
pub open spec fn final_entry_of_row<V>(st: &ArchetypeStorage<V>, slot: u32, row: Seq<(u32, V, u64, u64)>, j: int) -> bool {
    st.entry(slot, row[j].0) == Some((row[j].1, row[j].2, row[j].3))
}

/// Inserts `entry` into a row kept in increasing component order; returns its position.
fn insert_sorted<V>(row: &mut Vec<(u32, V, u64, u64)>, entry: (u32, V, u64, u64)) -> (pos: usize)
    requires
        strictly_sorted(old(row)@.map_values(|e: (u32, V, u64, u64)| e.0)),
        !old(row)@.map_values(|e: (u32, V, u64, u64)| e.0).contains(entry.0),
    ensures
        pos <= old(row)@.len(),
        final(row)@ == old(row)@.insert(pos as int, entry),
        strictly_sorted(final(row)@.map_values(|e: (u32, V, u64, u64)| e.0)),
{
    let ghost comps = old(row)@.map_values(|e: (u32, V, u64, u64)| e.0);
    let mut k: usize = 0;
    while k < row.len() && row[k].0 < entry.0
        invariant
            0 <= k <= row@.len(),
            row@ == old(row)@,
            comps == old(row)@.map_values(|e: (u32, V, u64, u64)| e.0),
            forall|j: int| 0 <= j < k ==> row@[j].0 < entry.0,
        decreases row@.len() - k,
    {
        k = k + 1;
    }
    proof {
        if k < row@.len() {
            assert(comps[k as int] == row@[k as int].0);
            assert(comps[k as int] != entry.0);
        }
    }
    row.insert(k, entry);
    proof {
        let nc = row@.map_values(|e: (u32, V, u64, u64)| e.0);
        assert forall|i: int, j: int| 0 <= i < j < nc.len() implies nc[i] < nc[j] by {
            if j < k {
                assert(nc[i] == comps[i] && nc[j] == comps[j]);
            } else if i < k && j == k {
                assert(nc[i] == old(row)@[i].0);
            } else if i < k {
                assert(nc[i] == comps[i] && nc[j] == comps[j - 1]);
                if i < j - 1 {
                } else {
                    assert(comps[i] < entry.0);
                    assert(comps[j - 1] >= entry.0);
                }
            } else if i == k {
                assert(nc[j] == comps[j - 1]);
                if k < old(row)@.len() {
                    assert(comps[k as int] > entry.0);
                    if j - 1 > k {
                        assert(comps[k as int] < comps[j - 1]);
                    }
                }
            } else {
                assert(nc[i] == comps[i - 1] && nc[j] == comps[j - 1]);
            }
        }
    }
    k
}

/// Removes the entry for component `c` from a row kept in increasing component order.
fn remove_entry<V>(row: &mut Vec<(u32, V, u64, u64)>, c: u32) -> (r: (usize, (u32, V, u64, u64)))
    requires
        strictly_sorted(old(row)@.map_values(|e: (u32, V, u64, u64)| e.0)),
        old(row)@.map_values(|e: (u32, V, u64, u64)| e.0).contains(c),
    ensures
        r.0 < old(row)@.len(),
        r.1 == old(row)@[r.0 as int],
        r.1.0 == c,
        final(row)@ == old(row)@.remove(r.0 as int),
        strictly_sorted(final(row)@.map_values(|e: (u32, V, u64, u64)| e.0)),
{
    let ghost comps = old(row)@.map_values(|e: (u32, V, u64, u64)| e.0);
    let mut k: usize = 0;
    while k < row.len() && row[k].0 != c
        invariant
            0 <= k <= row@.len(),
            row@ == old(row)@,
            comps == old(row)@.map_values(|e: (u32, V, u64, u64)| e.0),
            forall|j: int| 0 <= j < k ==> row@[j].0 != c,
        decreases row@.len() - k,
    {
        k = k + 1;
    }
    proof {
        if k == row@.len() {
            let j = choose|j: int| 0 <= j < comps.len() && comps[j] == c;
            assert(row@[j].0 == c);
        }
    }
    let removed = row.remove(k);
    proof {
        let nc = row@.map_values(|e: (u32, V, u64, u64)| e.0);
        assert forall|i: int, j: int| 0 <= i < j < nc.len() implies nc[i] < nc[j] by {
            if j < k {
                assert(nc[i] == comps[i] && nc[j] == comps[j]);
            } else if i < k {
                assert(nc[i] == comps[i] && nc[j] == comps[j + 1]);
            } else {
                assert(nc[i] == comps[i + 1] && nc[j] == comps[j + 1]);
            }
        }
    }
    (k, removed)
}

} // verus!
