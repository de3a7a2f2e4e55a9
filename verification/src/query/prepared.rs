//! Prepared-query policies, execution windows, and incrementally maintained membership.
use vstd::prelude::*;

use crate::entity::EntityId;
use crate::query::cursor::{cursor_checked, wrong_fingerprint, QueryCursor};
use crate::query::error::QueryError;
use crate::query::iter::{select_walk, selected_walk, tagged, CandidateFilter, Query1, Query2};
use crate::time::ChangeTick;
use crate::world::WorldOwner;

verus! {

/// Execution policy for a prepared query.
#[derive(Clone, Copy, Debug, Eq, PartialEq, Structural)]
#[non_exhaustive]
pub enum QueryPolicy {
    /// Reuse only the resolved query plan and traverse storage directly.
    Prepared,
    /// Materialize structural membership and apply the active window per execution.
    Membership,
    /// Maintain structural membership incrementally through a reverse slot index.
    DeltaMembership,
    /// Materialize the complete result set. Temporal selectors are unsupported.
    Result,
}

impl Default for QueryPolicy {
    /// Plan reuse only.
    fn default() -> (r: QueryPolicy)
        ensures
            r == QueryPolicy::Prepared,
    {
        QueryPolicy::Prepared
    }
}

/// Whether `r` succeeded, and its error if not.
pub open spec fn outcome_of<T>(r: Result<T, QueryError>) -> Result<(), QueryError> {
    match r {
        Ok(_) => Ok(()),
        Err(e) => Err(e),
    }
}

/// Temporal window used for one prepared-query execution.
pub enum QueryWindow<'a> {
    All,
    Since(ChangeTick),
    Cursor(&'a mut QueryCursor),
}

impl<'a> QueryWindow<'a> {
    /// Every change since the beginning of time.
    pub fn all() -> (r: QueryWindow<'a>)
        ensures
            r is All,
    {
        QueryWindow::All
    }

    /// Changes after `tick`.
    pub fn since(tick: ChangeTick) -> (r: QueryWindow<'a>)
        ensures
            r == QueryWindow::<'a>::Since(tick),
    {
        QueryWindow::Since(tick)
    }

    /// Changes after the cursor's tick; the cursor is committed after a full traversal.
    pub fn cursor(cursor: &'a mut QueryCursor) -> (r: QueryWindow<'a>)
        ensures
            r matches QueryWindow::Cursor(c) && *c == *old(cursor) && *final(c) == *final(cursor),
    {
        QueryWindow::Cursor(cursor)
    }

    /// The window start and the cursor to commit, after checking a cursor against the world
    /// `owner` and the query `fingerprint`.
    pub fn into_parts(self, owner: &WorldOwner, fingerprint: u64) -> (r: Result<
        (ChangeTick, Option<&'a mut QueryCursor>),
        QueryError,
    >)
        ensures
            self is All ==> (r matches Ok((t, c)) && t@ == 0 && c is None),
            self matches QueryWindow::Since(tick) ==> (r matches Ok((t, c)) && t == tick && c is None),
            self matches QueryWindow::Cursor(cur) ==> exists|owner_matches: bool| #[trigger]
                cursor_checked(
                    outcome_of(r),
                    owner_matches,
                    cur.spec_fingerprint(),
                    fingerprint,
                ),
            self matches QueryWindow::Cursor(cur) ==> match r {
                Ok((t, c)) => t == cur.spec_since() && (c matches Some(k) && *k == *cur) && cur.spec_fingerprint()
                    == fingerprint,
                Err(e) => e is WrongOwner || (cur.spec_fingerprint() != fingerprint && wrong_fingerprint(e)),
            },
    {
        match self {
            QueryWindow::All => Ok((ChangeTick::zero(), None)),
            QueryWindow::Since(tick) => Ok((tick, None)),
            QueryWindow::Cursor(cursor) => {
                let checked = cursor.validate(owner, fingerprint);
                let ghost m = choose|m: bool| #[trigger] cursor_checked(checked, m, cursor.spec_fingerprint(), fingerprint);
                match checked {
                    Ok(()) => {},
                    Err(e) => {
                        let r = Err(e);
                        proof {
                            assert(outcome_of::<(ChangeTick, Option<&'a mut QueryCursor>)>(r) == checked);
                            assert(cursor_checked(outcome_of(r), m, cursor.spec_fingerprint(), fingerprint));
                        }
                        return r;
                    },
                }
                let since = cursor.since();
                let r = Ok((since, Some(cursor)));
                proof {
                    assert(checked is Ok);
                    assert(checked == Ok::<(), QueryError>(())) by {
                        let x: () = checked->Ok_0;
                        assert(x == ());
                    }
                    assert(outcome_of(r) == checked);
                    assert(cursor_checked(outcome_of(r), m, cursor.spec_fingerprint(), fingerprint));
                }
                r
            },
        }
    }
}

/// Largest slot among `ids`.
pub open spec fn max_slot(ids: Seq<EntityId>) -> int
    decreases ids.len(),
{
    if ids.len() == 0 {
        -1
    } else {
        let rest = max_slot(ids.drop_last());
        if ids.last().spec_slot() as int > rest {
            ids.last().spec_slot() as int
        } else {
            rest
        }
    }
}

/// `i` is the last position of `ids` whose slot is `s`.
pub open spec fn last_with_slot(ids: Seq<EntityId>, s: int, i: int) -> bool {
    &&& 0 <= i < ids.len()
    &&& ids[i].spec_slot() == s
    &&& forall|j: int| i < j < ids.len() ==> (#[trigger] ids[j]).spec_slot() != s
}

/// Slot index of `ids`: entry `s` holds the last position whose slot is `s`, and the index
/// is one past the largest slot long.
pub fn build_reverse(ids: &[EntityId]) -> (r: Vec<Option<usize>>)
    requires
        forall|j: int| 0 <= j < ids@.len() ==> ((#[trigger] ids@[j]).spec_slot() as int) < usize::MAX,
    ensures
        r@.len() == max_slot(ids@) + 1,
        forall|s: int| 0 <= s < r@.len() ==> match #[trigger] r@[s] {
            Some(i) => last_with_slot(ids@, s, i as int),
            None => forall|j: int| 0 <= j < ids@.len() ==> (#[trigger] ids@[j]).spec_slot() != s,
        },
{
    let mut max: usize = 0;
    let mut any = false;
    let mut i: usize = 0;
    while i < ids.len()
        invariant
            i <= ids@.len(),
            any == (i > 0),
            any ==> max == max_slot(ids@.take(i as int)),
        decreases ids@.len() - i,
    {
        proof {
            assert(ids@.take(i + 1).drop_last() =~= ids@.take(i as int));
            assert(ids@.take(i + 1).last() == ids@[i as int]);
            if i == 0 {
                assert(ids@.take(0).len() == 0);
                assert(max_slot(ids@.take(0)) == -1);
            }
        }
        let slot = ids[i].slot() as usize;
        if !any || slot > max {
            max = slot;
        }
        any = true;
        i = i + 1;
    }
    proof {
        assert(ids@.take(ids@.len() as int) =~= ids@);
    }
    if !any {
        return Vec::new();
    }
    proof {
        lemma_max_slot_attained(ids@);
    }
    let mut reverse: Vec<Option<usize>> = Vec::new();
    let mut k: usize = 0;
    while k <= max
        invariant
            k <= max + 1,
            max < usize::MAX,
            reverse@.len() == k,
            forall|s: int| 0 <= s < k ==> reverse@[s] is None,
        decreases max + 1 - k,
    {
        reverse.push(None);
        k = k + 1;
    }
    proof {
        lemma_max_slot_bound(ids@);
    }
    let mut index: usize = 0;
    while index < ids.len()
        invariant
            index <= ids@.len(),
            reverse@.len() == max + 1,
            max == max_slot(ids@),
            forall|j: int| 0 <= j < ids@.len() ==> (#[trigger] ids@[j]).spec_slot() <= max,
            forall|s: int| 0 <= s < reverse@.len() ==> match #[trigger] reverse@[s] {
                Some(p) => last_with_slot(ids@.take(index as int), s, p as int),
                None => forall|j: int| 0 <= j < index ==> (#[trigger] ids@[j]).spec_slot() != s,
            },
        decreases ids@.len() - index,
    {
        let slot = ids[index].slot() as usize;
        reverse.set(slot, Some(index));
        proof {
            let t1 = ids@.take(index + 1);
            let t0 = ids@.take(index as int);
            assert forall|s: int| 0 <= s < reverse@.len() implies match #[trigger] reverse@[s] {
                Some(p) => last_with_slot(t1, s, p as int),
                None => forall|j: int| 0 <= j < index + 1 ==> (#[trigger] ids@[j]).spec_slot() != s,
            } by {
                if s != slot as int {
                    match reverse@[s] {
                        Some(p) => {
                            assert(last_with_slot(t0, s, p as int));
                            assert(t1[p as int] == t0[p as int]);
                            assert forall|j: int| p < j < t1.len() implies (#[trigger] t1[j]).spec_slot() != s by {
                                if j < index {
                                    assert(t1[j] == t0[j]);
                                }
                            }
                        },
                        None => {},
                    }
                }
            }
        }
        index = index + 1;
    }
    proof {
        assert(ids@.take(ids@.len() as int) =~= ids@);
    }
    reverse
}

/// A nonempty list attains its largest slot.
proof fn lemma_max_slot_attained(ids: Seq<EntityId>)
    ensures
        ids.len() > 0 ==> exists|j: int| 0 <= j < ids.len() && (#[trigger] ids[j]).spec_slot() == max_slot(ids),
    decreases ids.len(),
{
    if ids.len() > 0 {
        let rest = ids.drop_last();
        lemma_max_slot_attained(rest);
        let last = ids.len() - 1;
        assert(ids[last] == ids.last());
        if ids.last().spec_slot() as int > max_slot(rest) {
            assert(ids[last].spec_slot() == max_slot(ids));
        } else {
            if rest.len() == 0 {
                assert(max_slot(rest) == -1);
            }
            let j = choose|j: int| 0 <= j < rest.len() && (#[trigger] rest[j]).spec_slot() == max_slot(rest);
            assert(ids[j] == rest[j]);
            assert(ids[j].spec_slot() == max_slot(ids));
        }
    }
}

/// Every slot of `ids` is at most [`max_slot`], which fits below `u32::MAX`.
proof fn lemma_max_slot_bound(ids: Seq<EntityId>)
    ensures
        forall|j: int| 0 <= j < ids.len() ==> (#[trigger] ids[j]).spec_slot() <= max_slot(ids),
        max_slot(ids) <= u32::MAX,
    decreases ids.len(),
{
    if ids.len() > 0 {
        lemma_max_slot_bound(ids.drop_last());
        assert forall|j: int| 0 <= j < ids.len() implies (#[trigger] ids[j]).spec_slot() <= max_slot(ids) by {
            if j < ids.len() - 1 {
                assert(ids.drop_last()[j] == ids[j]);
            }
        }
    }
}

/// Incrementally maintained structural membership: matching entities in a dense list, with
/// a reverse index from slot to position.
pub struct DeltaMembership {
    ids: Vec<EntityId>,
    reverse: Vec<Option<usize>>,
}

impl DeltaMembership {
    /// Member entities, in list order.
    pub closed spec fn spec_ids(&self) -> Seq<EntityId> {
        self.ids@
    }

    /// The reverse index and the list agree.
    pub closed spec fn wf(&self) -> bool {
        &&& self.ids@.len() <= usize::MAX
        &&& forall|i: int|
            0 <= i < self.ids@.len() ==> {
                &&& ((#[trigger] self.ids@[i]).spec_slot() as int) < self.reverse@.len()
                &&& self.reverse@[self.ids@[i].spec_slot() as int] == Some(i as usize)
            }
        &&& forall|s: int|
            0 <= s < self.reverse@.len() ==> (#[trigger] self.reverse@[s] matches Some(i) ==> {
                &&& i < self.ids@.len()
                &&& self.ids@[i as int].spec_slot() == s
            })
    }

    /// Position of the member with slot `slot`.
    pub closed spec fn position(&self, slot: u32) -> Option<int> {
        if (slot as int) < self.reverse@.len() {
            match self.reverse@[slot as int] {
                Some(i) => Some(i as int),
                None => None,
            }
        } else {
            None
        }
    }

    /// The member with slot `slot`, if any.
    pub open spec fn member(&self, slot: u32) -> Option<EntityId> {
        match self.position(slot) {
            Some(i) => Some(self.spec_ids()[i]),
            None => None,
        }
    }

    /// A member's position holds it, and every listed entity is the member of its slot.
    pub proof fn lemma_member(&self, slot: u32)
        requires
            self.wf(),
        ensures
            self.position(slot) matches Some(i) ==> 0 <= i < self.spec_ids().len() && self.spec_ids()[i].spec_slot()
                == slot,
            forall|i: int| 0 <= i < self.spec_ids().len() && self.spec_ids()[i].spec_slot() == slot ==> self.position(slot)
                == Some(i),
    {
        if (slot as int) < self.reverse@.len() {
            let _ = self.reverse@[slot as int];
        }
        assert forall|i: int| 0 <= i < self.spec_ids().len() && self.spec_ids()[i].spec_slot() == slot implies self.position(slot)
            == Some(i) by {
            assert(((self.ids@[i]).spec_slot() as int) < self.reverse@.len());
            assert(self.reverse@[self.ids@[i].spec_slot() as int] == Some(i as usize));
            assert(self.ids@[i].spec_slot() == slot);
        }
    }

    /// An empty membership.
    pub fn new() -> (r: DeltaMembership)
        ensures
            r.wf(),
            r.spec_ids() == Seq::<EntityId>::empty(),
    {
        DeltaMembership { ids: Vec::new(), reverse: Vec::new() }
    }

    /// Membership over `ids`, whose slots are pairwise distinct.
    pub fn from_ids(ids: Vec<EntityId>) -> (r: DeltaMembership)
        requires
            forall|j: int| 0 <= j < ids@.len() ==> ((#[trigger] ids@[j]).spec_slot() as int) < usize::MAX,
            forall|a: int, b: int|
                0 <= a < ids@.len() && 0 <= b < ids@.len() && a != b ==> (#[trigger] ids@[a]).spec_slot()
                    != (#[trigger] ids@[b]).spec_slot(),
        ensures
            r.wf(),
            r.spec_ids() == ids@,
    {
        let reverse = build_reverse(ids.as_slice());
        let count = ids.len();
        let r = DeltaMembership { ids, reverse };
        proof {
            lemma_max_slot_bound(r.ids@);
            assert forall|i: int| 0 <= i < r.ids@.len() implies {
                &&& ((#[trigger] r.ids@[i]).spec_slot() as int) < r.reverse@.len()
                &&& r.reverse@[r.ids@[i].spec_slot() as int] == Some(i as usize)
            } by {
                let s = r.ids@[i].spec_slot() as int;
                match r.reverse@[s] {
                    Some(p) => {
                        assert(last_with_slot(r.ids@, s, p as int));
                        if p as int != i {
                            assert(r.ids@[p as int].spec_slot() == r.ids@[i].spec_slot());
                        }
                    },
                    None => {
                        assert(r.ids@[i].spec_slot() != s);
                    },
                }
            }
            assert forall|s: int| 0 <= s < r.reverse@.len() implies (#[trigger] r.reverse@[s] matches Some(i) ==> {
                &&& i < r.ids@.len()
                &&& r.ids@[i as int].spec_slot() == s
            }) by {
                if let Some(p) = r.reverse@[s] {
                    assert(last_with_slot(r.ids@, s, p as int));
                }
            }
        }
        r
    }

    /// Member entities, in list order.
    pub fn ids(&self) -> (r: &[EntityId])
        ensures
            r@ == self.spec_ids(),
    {
        self.ids.as_slice()
    }

    /// Drops the member at `index`, moving the last member into its place.
    pub fn remove_delta_index(&mut self, index: usize)
        requires
            old(self).wf(),
            index < old(self).spec_ids().len(),
        ensures
            final(self).wf(),
            final(self).spec_ids() == old(self).spec_ids().update(
                index as int,
                old(self).spec_ids().last(),
            ).drop_last(),
    {
        let ghost pre = self.ids@;
        let removed = self.ids.swap_remove(index);
        let removed_slot = removed.slot() as usize;
        proof {
            let _ = pre[index as int];
        }
        self.reverse.set(removed_slot, None);
        if index < self.ids.len() {
            let moved = self.ids[index];
            let moved_slot = moved.slot() as usize;
            proof {
                let last = pre.len() - 1;
                assert(moved == pre[last]);
                let _ = pre[last];
            }
            self.reverse.set(moved_slot, Some(index));
        }
        proof {
            let last = pre.len() - 1;
            assert forall|i: int| 0 <= i < self.ids@.len() implies {
                &&& ((#[trigger] self.ids@[i]).spec_slot() as int) < self.reverse@.len()
                &&& self.reverse@[self.ids@[i].spec_slot() as int] == Some(i as usize)
            } by {
                if i == index as int {
                    let _ = pre[last];
                } else {
                    let _ = pre[i];
                    assert(pre[i].spec_slot() != pre[index as int].spec_slot());
                    assert(pre[i].spec_slot() != pre[last].spec_slot());
                }
            }
            assert forall|s: int| 0 <= s < self.reverse@.len() implies (#[trigger] self.reverse@[s] matches Some(i) ==> {
                &&& i < self.ids@.len()
                &&& self.ids@[i as int].spec_slot() == s
            }) by {
                let _ = old(self).reverse@[s];
                if let Some(i) = old(self).reverse@[s] {
                    let _ = pre[i as int];
                }
            }
        }
    }

    /// Brings the membership of `entity` up to date: with `matches`, `entity` becomes the
    /// member of its slot; without, its slot has no member. Other slots keep their members.
    pub fn update_delta_entity(&mut self, entity: EntityId, matches: bool)
        requires
            old(self).wf(),
            (entity.spec_slot() as int) < usize::MAX,
            old(self).spec_ids().len() < usize::MAX,
        ensures
            final(self).wf(),
            matches ==> final(self).member(entity.spec_slot()) == Some(entity),
            !matches ==> final(self).member(entity.spec_slot()) is None,
            forall|s: u32| s != entity.spec_slot() ==> #[trigger] final(self).member(s) == old(self).member(s),
            final(self).spec_ids().len() <= old(self).spec_ids().len() + 1,
    {
        let slot = entity.slot() as usize;
        let existing = if slot < self.reverse.len() {
            self.reverse[slot]
        } else {
            None
        };
        proof {
            self.lemma_member(entity.spec_slot());
        }
        if let Some(index) = existing {
            if self.ids[index] == entity && matches {
                return;
            }
            let ghost pre = *self;
            self.remove_delta_index(index);
            proof {
                assert forall|s: u32| s != entity.spec_slot() implies #[trigger] self.member(s) == pre.member(s) by {
                    pre.lemma_member(s);
                    self.lemma_member(s);
                    let last = pre.spec_ids().len() - 1;
                    if let Some(p) = pre.position(s) {
                        if p == last {
                            assert(self.spec_ids()[index as int] == pre.spec_ids()[last]);
                        } else {
                            assert(self.spec_ids()[p] == pre.spec_ids()[p]);
                        }
                    }
                    if let Some(q) = self.position(s) {
                        if q == index as int {
                            assert(pre.spec_ids()[last].spec_slot() == s);
                        } else {
                            assert(pre.spec_ids()[q].spec_slot() == s);
                        }
                    }
                }
                self.lemma_member(entity.spec_slot());
                if let Some(q) = self.position(entity.spec_slot()) {
                    if q == index as int {
                        assert(pre.spec_ids()[pre.spec_ids().len() - 1].spec_slot() == entity.spec_slot());
                    } else {
                        assert(pre.spec_ids()[q].spec_slot() == entity.spec_slot());
                    }
                }
            }
        }
        if matches {
            let ghost mid = *self;
            proof {
                mid.lemma_member(entity.spec_slot());
            }
            while self.reverse.len() <= slot
                invariant
                    self.ids@ == mid.ids@,
                    self.reverse@.len() >= mid.reverse@.len(),
                    forall|s: int| 0 <= s < mid.reverse@.len() ==> self.reverse@[s] == mid.reverse@[s],
                    forall|s: int| mid.reverse@.len() <= s < self.reverse@.len() ==> self.reverse@[s] is None,
                    slot < usize::MAX,
                decreases slot + 1 - self.reverse@.len(),
            {
                self.reverse.push(None);
            }
            let index = self.ids.len();
            self.ids.push(entity);
            self.reverse.set(slot, Some(index));
            proof {
                assert forall|i: int| 0 <= i < self.ids@.len() implies {
                    &&& ((#[trigger] self.ids@[i]).spec_slot() as int) < self.reverse@.len()
                    &&& self.reverse@[self.ids@[i].spec_slot() as int] == Some(i as usize)
                } by {
                    if i < index {
                        let _ = mid.ids@[i];
                        assert(mid.ids@[i].spec_slot() != entity.spec_slot());
                    }
                }
                assert forall|s: int| 0 <= s < self.reverse@.len() implies (#[trigger] self.reverse@[s] matches Some(i) ==> {
                    &&& i < self.ids@.len()
                    &&& self.ids@[i as int].spec_slot() == s
                }) by {
                    if s < mid.reverse@.len() {
                        let _ = mid.reverse@[s];
                    }
                }
                assert forall|s: u32| s != entity.spec_slot() implies #[trigger] self.member(s) == mid.member(s) by {
                    mid.lemma_member(s);
                    if (s as int) < mid.reverse@.len() {
                        let _ = mid.reverse@[s as int];
                    }
                }
            }
        }
    }
}


/// Where a resolved query finds its candidates: every entity, the members of one sparse or
/// table component, or an exact id list.
#[derive(Clone, Debug)]
pub enum TraversalSource {
    All,
    Sparse { component_index: u32 },
    Table { component_index: u32 },
    Exact { ids: Vec<EntityId> },
}

/// Two traversal sources visit the same candidates in the same order: the same kind, over
/// the same component or the same id list.
pub open spec fn traversal_equal(left: TraversalSource, right: TraversalSource) -> bool {
    match (left, right) {
        (TraversalSource::All, TraversalSource::All) => true,
        (TraversalSource::Sparse { component_index: a }, TraversalSource::Sparse { component_index: b }) => a == b,
        (TraversalSource::Table { component_index: a }, TraversalSource::Table { component_index: b }) => a == b,
        (TraversalSource::Exact { ids: a }, TraversalSource::Exact { ids: b }) => a@ == b@,
        _ => false,
    }
}

/// Whether two id lists are equal, entry by entry.
fn same_ids(a: &Vec<EntityId>, b: &Vec<EntityId>) -> (r: bool)
    ensures
        r == (a@ == b@),
{
    if a.len() != b.len() {
        return false;
    }
    let mut i: usize = 0;
    while i < a.len()
        invariant
            a@.len() == b@.len(),
            i <= a@.len(),
            forall|j: int| 0 <= j < i ==> a@[j] == b@[j],
        decreases a@.len() - i,
    {
        if a[i] != b[i] {
            return false;
        }
        i = i + 1;
    }
    proof {
        assert(a@ =~= b@);
    }
    true
}

/// Whether two traversal sources visit the same candidates in the same order.
pub fn same_traversal(left: &TraversalSource, right: &TraversalSource) -> (r: bool)
    ensures
        r == traversal_equal(*left, *right),
{
    match (left, right) {
        (TraversalSource::All, TraversalSource::All) => true,
        (TraversalSource::Sparse { component_index: a }, TraversalSource::Sparse { component_index: b }) => *a == *b,
        (TraversalSource::Table { component_index: a }, TraversalSource::Table { component_index: b }) => *a == *b,
        (TraversalSource::Exact { ids: a }, TraversalSource::Exact { ids: b }) => same_ids(a, b),
        _ => false,
    }
}


/// Checks that `policy` can materialize a query with this traversal: materializing policies
/// cannot keep an exact-id order (`UnsupportedCachePolicy`), and a materialized result set
/// cannot follow added or changed selectors (`MovingChangeWindow`).
pub fn check_materialization_policy(policy: QueryPolicy, traversal: &TraversalSource, temporal: bool) -> (r: Result<(), QueryError>)
    ensures
        policy != QueryPolicy::Prepared && traversal is Exact ==> (r matches Err(QueryError::UnsupportedCachePolicy { detail })
            && detail@ == "materialized policies do not support exact-id query order"@),
        !(policy != QueryPolicy::Prepared && traversal is Exact) && policy == QueryPolicy::Result && temporal ==> r
            == Err::<(), QueryError>(QueryError::MovingChangeWindow),
        !(policy != QueryPolicy::Prepared && traversal is Exact) && !(policy == QueryPolicy::Result && temporal) ==> r is Ok,
{
    let exact = match traversal {
        TraversalSource::Exact { .. } => true,
        _ => false,
    };
    if policy != QueryPolicy::Prepared && exact {
        return Err(
            QueryError::UnsupportedCachePolicy { detail: "materialized policies do not support exact-id query order".to_owned() },
        );
    }
    if policy == QueryPolicy::Result && temporal {
        return Err(QueryError::MovingChangeWindow);
    }
    Ok(())
}

/// Whether a snapshot of a query's topology observed at revision `observed` is stale at the
/// world's revision `current`: the revision moved and the query's own dependencies changed.
/// When the revision moved but the dependencies are current, the snapshot catches up to
/// `current` instead.
pub fn topology_changed(observed: &mut u64, current: u64, dependencies_current: bool) -> (r: bool)
    ensures
        r == (*old(observed) != current && !dependencies_current),
        r ==> *final(observed) == *old(observed),
        !r ==> *final(observed) == current,
{
    if *observed == current {
        return false;
    }
    if dependencies_current {
        *observed = current;
        false
    } else {
        true
    }
}

/// The member of `slot` after applying `changes` in order to a membership whose member of
/// `slot` was `before`: the last change to an entity of that slot decides.
pub open spec fn member_after(before: Option<EntityId>, changes: Seq<(EntityId, bool)>, slot: u32) -> Option<EntityId>
    decreases changes.len(),
{
    if changes.len() == 0 {
        before
    } else {
        let (e, matches) = changes.last();
        if e.spec_slot() == slot {
            if matches {
                Some(e)
            } else {
                None
            }
        } else {
            member_after(before, changes.drop_last(), slot)
        }
    }
}

/// The last entry of `changes` for an entity of `slot`, if any.
pub open spec fn last_change_for(changes: Seq<(EntityId, bool)>, slot: u32) -> Option<(EntityId, bool)>
    decreases changes.len(),
{
    if changes.len() == 0 {
        None
    } else if changes.last().0.spec_slot() == slot {
        Some(changes.last())
    } else {
        last_change_for(changes.drop_last(), slot)
    }
}

/// An incremental membership stays exact: if the member of `slot` was `before` and the
/// change log's last entry for that slot, if any, reports the slot's current state `now`
/// (and without an entry the slot kept its member), applying the log gives `now`.
pub proof fn law_delta_log_keeps_membership_exact(
    before: Option<EntityId>,
    now: Option<EntityId>,
    changes: Seq<(EntityId, bool)>,
    slot: u32,
)
    requires
        last_change_for(changes, slot) is None ==> now == before,
        last_change_for(changes, slot) matches Some((e, m)) ==> now == (if m {
            Some(e)
        } else {
            None
        }),
    ensures
        member_after(before, changes, slot) == now,
    decreases changes.len(),
{
    if changes.len() > 0 && changes.last().0.spec_slot() != slot {
        law_delta_log_keeps_membership_exact(before, now, changes.drop_last(), slot);
    }
}

/// `changes` can be applied to a membership of `count` members without overflow.
pub open spec fn changes_fit(changes: Seq<(EntityId, bool)>, count: int) -> bool {
    &&& count + changes.len() < usize::MAX
    &&& forall|i: int| 0 <= i < changes.len() ==> ((#[trigger] changes[i]).0.spec_slot() as int) < usize::MAX
}

/// Ids with pairwise distinct slots, each below `usize::MAX`.
pub open spec fn distinct_slots(ids: Seq<EntityId>) -> bool {
    &&& forall|j: int| 0 <= j < ids.len() ==> ((#[trigger] ids[j]).spec_slot() as int) < usize::MAX
    &&& forall|a: int, b: int|
        0 <= a < ids.len() && 0 <= b < ids.len() && a != b ==> (#[trigger] ids[a]).spec_slot() != (#[trigger] ids[b]).spec_slot()
}

/// Ids a prepared query keeps between executions under its policy, with the query topology
/// revision they were collected at.
pub enum Materialization {
    /// Nothing kept: storage is traversed on each execution.
    Prepared,
    /// The structural members.
    Membership { ids: Vec<EntityId>, observed: u64 },
    /// The structural members, kept up to date from the world's structural change log.
    DeltaMembership { set: DeltaMembership, observed: u64 },
    /// The complete result set.
    Result { ids: Vec<EntityId>, observed: u64 },
}

impl Materialization {
    /// The incremental membership is consistent.
    pub open spec fn wf(&self) -> bool {
        match *self {
            Materialization::DeltaMembership { set, .. } => set.wf(),
            _ => true,
        }
    }

    /// The kept ids, if the policy keeps any.
    pub open spec fn kept(&self) -> Option<Seq<EntityId>> {
        match *self {
            Materialization::Prepared => None,
            Materialization::Membership { ids, .. } => Some(ids@),
            Materialization::DeltaMembership { set, .. } => Some(set.spec_ids()),
            Materialization::Result { ids, .. } => Some(ids@),
        }
    }

    /// The topology revision the kept ids were collected at.
    pub open spec fn observed(&self) -> Option<u64> {
        match *self {
            Materialization::Prepared => None,
            Materialization::Membership { observed, .. } => Some(observed),
            Materialization::DeltaMembership { observed, .. } => Some(observed),
            Materialization::Result { observed, .. } => Some(observed),
        }
    }

    /// `m` is what [`Materialization::build`] makes under `policy` at `revision`, keeping
    /// what `structural` or `results` collects.
    pub open spec fn built<F: Fn() -> Vec<EntityId>, G: Fn() -> Vec<EntityId>>(
        m: Materialization,
        policy: QueryPolicy,
        revision: u64,
        structural: F,
        results: G,
    ) -> bool {
        &&& m.wf()
        &&& match policy {
            QueryPolicy::Prepared => m is Prepared,
            QueryPolicy::Membership => m is Membership && m.observed() == Some(revision) && exists|v: Vec<EntityId>|
                #[trigger] call_ensures(structural, (), v) && m.kept() == Some(v@),
            QueryPolicy::DeltaMembership => m is DeltaMembership && m.observed() == Some(revision) && exists|
                v: Vec<EntityId>,
            | #[trigger] call_ensures(structural, (), v) && m.kept() == Some(v@),
            QueryPolicy::Result => m is Result && m.observed() == Some(revision) && exists|v: Vec<EntityId>|
                #[trigger] call_ensures(results, (), v) && m.kept() == Some(v@),
        }
    }

    /// Materializes a query under `policy` at topology revision `revision`, after
    /// [`check_materialization_policy`]. The membership policies keep what `structural`
    /// collects (the entities matching the query's structural selectors); the result policy
    /// keeps what `results` collects (the full result set over all time).
    pub fn build<F: Fn() -> Vec<EntityId>, G: Fn() -> Vec<EntityId>>(
        policy: QueryPolicy,
        traversal: &TraversalSource,
        temporal: bool,
        revision: u64,
        structural: &F,
        results: &G,
    ) -> (r: Result<Materialization, QueryError>)
        requires
            call_requires(*structural, ()),
            call_requires(*results, ()),
            forall|v: Vec<EntityId>| #[trigger] call_ensures(*structural, (), v) ==> distinct_slots(v@),
        ensures
            policy != QueryPolicy::Prepared && traversal is Exact ==> (r matches Err(QueryError::UnsupportedCachePolicy { detail })
                && detail@ == "materialized policies do not support exact-id query order"@),
            !(policy != QueryPolicy::Prepared && traversal is Exact) && policy == QueryPolicy::Result && temporal ==> r
                matches Err(QueryError::MovingChangeWindow),
            !(policy != QueryPolicy::Prepared && traversal is Exact) && !(policy == QueryPolicy::Result && temporal) ==> (
            r matches Ok(m) && Materialization::built(m, policy, revision, *structural, *results)),
    {
        match check_materialization_policy(policy, traversal, temporal) {
            Ok(()) => {},
            Err(e) => {
                return Err(e);
            },
        }
        match policy {
            QueryPolicy::Prepared => Ok(Materialization::Prepared),
            QueryPolicy::Membership => {
                let ids = structural();
                Ok(Materialization::Membership { ids, observed: revision })
            },
            QueryPolicy::DeltaMembership => {
                let ids = structural();
                let set = DeltaMembership::from_ids(ids);
                Ok(Materialization::DeltaMembership { set, observed: revision })
            },
            QueryPolicy::Result => {
                let ids = results();
                Ok(Materialization::Result { ids, observed: revision })
            },
        }
    }

    /// The kept ids and whether an execution must still apply the change window to them:
    /// membership ids do when the query is `temporal`, a result set never does.
    pub fn ids_and_temporal_filter(&self, temporal: bool) -> (r: Option<(&[EntityId], bool)>)
        ensures
            match r {
                None => self is Prepared,
                Some((ids, apply)) => self.kept() == Some(ids@) && apply == (temporal && !(self is Result)),
            },
    {
        match self {
            Materialization::Prepared => None,
            Materialization::Membership { ids, .. } => Some((ids.as_slice(), temporal)),
            Materialization::DeltaMembership { set, .. } => Some((set.ids(), temporal)),
            Materialization::Result { ids, .. } => Some((ids.as_slice(), false)),
        }
    }

    /// `after` is `before` brought up to date at topology revision `current`, as
    /// [`Materialization::refresh`] does with these collections.
    pub open spec fn refreshed<F: Fn() -> Vec<EntityId>, G: Fn() -> Vec<EntityId>, H: Fn() -> Vec<(EntityId, bool)>>(
        before: Materialization,
        updated: Materialization,
        current: u64,
        dependencies_current: bool,
        structural: F,
        results: G,
        changes: H,
    ) -> bool {
        match (before, updated) {
            (Materialization::Prepared, Materialization::Prepared) => true,
            (
                Materialization::Membership { ids, observed },
                Materialization::Membership { ids: after, observed: now },
            ) => now == current && if observed != current && !dependencies_current {
                exists|v: Vec<EntityId>| #[trigger] call_ensures(structural, (), v) && after@ == v@
            } else {
                after@ == ids@
            },
            (Materialization::Result { ids, observed }, Materialization::Result { ids: after, observed: now }) => now
                == current && if observed != current && !dependencies_current {
                exists|v: Vec<EntityId>| #[trigger] call_ensures(results, (), v) && after@ == v@
            } else {
                after@ == ids@
            },
            (
                Materialization::DeltaMembership { set, observed },
                Materialization::DeltaMembership { set: after, observed: now },
            ) => now == current && if observed != current {
                exists|v: Vec<(EntityId, bool)>|
                    call_ensures(changes, (), v) && forall|s: u32| #[trigger]
                        after.member(s) == member_after(set.member(s), v@, s)
            } else {
                after.spec_ids() == set.spec_ids()
            },
            _ => false,
        }
    }

    /// Brings the kept ids up to date with the world at topology revision `current`; they
    /// are then as of `current`. Membership and result sets are collected again, by
    /// `structural` and `results`, when [`topology_changed`] finds the snapshot stale
    /// (`dependencies_current` tells whether the query's own dependencies are unchanged).
    /// The incremental membership applies, whenever the revision moved, each entry of
    /// `changes`: an entity whose structure changed since it last looked, with whether it now
    /// matches the query's structural selectors.
    pub fn refresh<F: Fn() -> Vec<EntityId>, G: Fn() -> Vec<EntityId>, H: Fn() -> Vec<(EntityId, bool)>>(
        &mut self,
        current: u64,
        dependencies_current: bool,
        structural: &F,
        results: &G,
        changes: &H,
    )
        requires
            old(self).wf(),
            call_requires(*structural, ()),
            call_requires(*results, ()),
            call_requires(*changes, ()),
            forall|v: Vec<(EntityId, bool)>| #[trigger]
                call_ensures(*changes, (), v) ==> (old(self).kept() matches Some(k) ==> changes_fit(v@, k.len() as int)),
        ensures
            final(self).wf(),
            Materialization::refreshed(*old(self), *final(self), current, dependencies_current, *structural, *results, *changes),
    {
        let mut taken = Materialization::Prepared;
        std::mem::swap(self, &mut taken);
        match taken {
            Materialization::Prepared => {
                *self = Materialization::Prepared;
            },
            Materialization::Membership { ids, observed } => {
                let mut observed = observed;
                if topology_changed(&mut observed, current, dependencies_current) {
                    let fresh = structural();
                    *self = Materialization::Membership { ids: fresh, observed: current };
                } else {
                    *self = Materialization::Membership { ids, observed };
                }
            },
            Materialization::Result { ids, observed } => {
                let mut observed = observed;
                if topology_changed(&mut observed, current, dependencies_current) {
                    let fresh = results();
                    *self = Materialization::Result { ids: fresh, observed: current };
                } else {
                    *self = Materialization::Result { ids, observed };
                }
            },
            Materialization::DeltaMembership { set, observed } => {
                let mut set = set;
                if observed != current {
                    let changed = changes();
                    let ghost start = set;
                    let mut i: usize = 0;
                    while i < changed.len()
                        invariant
                            set.wf(),
                            i <= changed@.len(),
                            changes_fit(changed@, start.spec_ids().len() as int),
                            set.spec_ids().len() <= start.spec_ids().len() + i,
                            forall|s: u32| #[trigger] set.member(s) == member_after(start.member(s), changed@.take(i as int), s),
                        decreases changed@.len() - i,
                    {
                        let (e, m) = changed[i];
                        let ghost before = set;
                        proof {
                            let _ = changed@[i as int];
                        }
                        set.update_delta_entity(e, m);
                        proof {
                            assert(changed@.take(i + 1).drop_last() =~= changed@.take(i as int));
                            assert(changed@.take(i + 1).last() == changed@[i as int]);
                            assert forall|s: u32| #[trigger] set.member(s) == member_after(start.member(s), changed@.take(i + 1), s) by {
                                if s != e.spec_slot() {
                                    assert(set.member(s) == before.member(s));
                                }
                            }
                        }
                        i = i + 1;
                    }
                    proof {
                        assert(changed@.take(changed@.len() as int) =~= changed@);
                    }
                }
                *self = Materialization::DeltaMembership { set, observed: current };
            },
        }
    }
}

/// What query resolution settled for a prepared query: its fingerprint, where it draws
/// candidates from, which component drives it, and whether it has added/changed selectors.
pub struct QueryPlan {
    pub fingerprint: u64,
    pub traversal: TraversalSource,
    pub primary_index: u32,
    pub primary_is_table: bool,
    pub temporal: bool,
}

/// What an execution of a prepared query reads of the world: its identity and change tick,
/// its query topology revision and whether the query's own dependencies are unchanged at
/// it, and the candidates of the plan's sparse store or tables.
pub struct QueryWorldView {
    pub owner: WorldOwner,
    pub change_tick: ChangeTick,
    pub topology_revision: u64,
    pub dependencies_current: bool,
    pub sparse_entities: Option<Vec<EntityId>>,
    pub table_rows: Option<Vec<Vec<EntityId>>>,
}

/// The walk an execution starts with: the kept ids when the materialization keeps any
/// (re-checked against the window when the query is temporal and the ids are not a result
/// set), else the plan's traversal over the world's candidates.
pub open spec fn execution_walk(
    materialization: Materialization,
    plan_traversal: TraversalSource,
    temporal: bool,
    sparse_entities: Option<Vec<EntityId>>,
    table_rows: Option<Vec<Vec<EntityId>>>,
) -> Seq<(EntityId, CandidateFilter)> {
    match materialization.kept() {
        Some(ids) => tagged(
            ids,
            if temporal && !(materialization is Result) {
                CandidateFilter::Temporal
            } else {
                CandidateFilter::Trusted
            },
        ),
        None => match selected_walk(plan_traversal, None, None, sparse_entities, table_rows) {
            Ok(w) => w.remaining(),
            Err(_) => Seq::empty(),
        },
    }
}

/// A copy of `ids`.
pub(crate) fn copy_ids(ids: &[EntityId]) -> (r: Vec<EntityId>)
    ensures
        r@ == ids@,
{
    let mut out: Vec<EntityId> = Vec::new();
    let mut i: usize = 0;
    while i < ids.len()
        invariant
            i <= ids@.len(),
            out@ == ids@.take(i as int),
        decreases ids@.len() - i,
    {
        out.push(ids[i]);
        proof {
            assert(ids@.take(i as int).push(ids@[i as int]) =~= ids@.take(i + 1));
        }
        i = i + 1;
    }
    proof {
        assert(ids@.take(i as int) =~= ids@);
    }
    out
}

/// What checking the world a prepared query runs on gives when the owner comparison
/// answered `owner_matches`.
pub open spec fn world_check_result(owner_matches: bool) -> Result<(), QueryError> {
    if owner_matches {
        Ok(())
    } else {
        Err(QueryError::WrongOwner)
    }
}

/// Checks the world a prepared query runs on, given whether it is the world the query was
/// prepared for.
pub fn check_world(owner_matches: bool) -> (r: Result<(), QueryError>)
    ensures
        r == world_check_result(owner_matches),
{
    if owner_matches {
        Ok(())
    } else {
        Err(QueryError::WrongOwner)
    }
}

/// Checks that a query prepared for the world `prepared_for` runs on the world `owner`
/// (`WrongOwner` otherwise). Which world is which is allocation identity, which is not
/// modelled: the result is [`check_world`]'s for the answer of the owner comparison,
/// whichever it was.
fn validate_world(prepared_for: &WorldOwner, owner: &WorldOwner) -> (r: Result<(), QueryError>)
    ensures
        exists|owner_matches: bool| r == #[trigger] world_check_result(owner_matches),
{
    let owner_matches = prepared_for.same(owner);
    let r = check_world(owner_matches);
    proof {
        assert(r == world_check_result(owner_matches));
    }
    r
}

/// Reusable single-component query for one world: its resolved plan and what its policy
/// keeps between executions.
pub struct PreparedQuery1 {
    owner: WorldOwner,
    plan: QueryPlan,
    materialization: Materialization,
}

impl PreparedQuery1 {
    /// The resolved plan.
    pub closed spec fn spec_plan(&self) -> QueryPlan {
        self.plan
    }

    /// What the policy keeps.
    pub closed spec fn spec_materialization(&self) -> Materialization {
        self.materialization
    }

    /// The kept ids are consistent.
    pub closed spec fn wf(&self) -> bool {
        self.materialization.wf()
    }

    /// Prepares `plan` for the world `owner` under `policy` at topology revision
    /// `revision`; see [`Materialization::build`].
    pub fn new<F: Fn() -> Vec<EntityId>, G: Fn() -> Vec<EntityId>>(
        owner: WorldOwner,
        plan: QueryPlan,
        policy: QueryPolicy,
        revision: u64,
        structural: &F,
        results: &G,
    ) -> (r: Result<PreparedQuery1, QueryError>)
        requires
            call_requires(*structural, ()),
            call_requires(*results, ()),
            forall|v: Vec<EntityId>| #[trigger] call_ensures(*structural, (), v) ==> distinct_slots(v@),
        ensures
            policy != QueryPolicy::Prepared && plan.traversal is Exact ==> (r matches Err(
                QueryError::UnsupportedCachePolicy { detail },
            ) && detail@ == "materialized policies do not support exact-id query order"@),
            !(policy != QueryPolicy::Prepared && plan.traversal is Exact) && policy == QueryPolicy::Result && plan.temporal
                ==> r matches Err(QueryError::MovingChangeWindow),
            !(policy != QueryPolicy::Prepared && plan.traversal is Exact) && !(policy == QueryPolicy::Result
                && plan.temporal) ==> (r matches Ok(q) && q.wf() && q.spec_plan() == plan && Materialization::built(
                q.spec_materialization(),
                policy,
                revision,
                *structural,
                *results,
            )),
    {
        match Materialization::build(policy, &plan.traversal, plan.temporal, revision, structural, results) {
            Ok(materialization) => Ok(PreparedQuery1 { owner, plan, materialization }),
            Err(e) => Err(e),
        }
    }

    /// Starts an execution over `window`: checks the world and the window's cursor, brings
    /// the kept ids up to date (see [`Materialization::refresh`]), and walks
    /// [`execution_walk`] with the change window ending at the world's change tick.
    pub fn iter<'c, F: Fn() -> Vec<EntityId>, G: Fn() -> Vec<EntityId>, H: Fn() -> Vec<(EntityId, bool)>>(
        &mut self,
        world: QueryWorldView,
        window: QueryWindow<'c>,
        structural: &F,
        results: &G,
        changes: &H,
    ) -> (r: Result<Query1<'c>, QueryError>)
        requires
            old(self).wf(),
            old(self).spec_plan().traversal is Table ==> world.table_rows is Some,
            call_requires(*structural, ()),
            call_requires(*results, ()),
            call_requires(*changes, ()),
            forall|v: Vec<(EntityId, bool)>| #[trigger]
                call_ensures(*changes, (), v) ==> (old(self).spec_materialization().kept() matches Some(k) ==> changes_fit(
                    v@,
                    k.len() as int,
                )),
        ensures
            final(self).wf(),
            final(self).spec_plan() == old(self).spec_plan(),
            match r {
                Ok(q) => {
                    &&& q.wf()
                    &&& !q.spec_committed()
                    &&& q.spec_fingerprint() == old(self).spec_plan().fingerprint
                    &&& q.spec_now() == world.change_tick
                    &&& Materialization::refreshed(
                        old(self).spec_materialization(),
                        final(self).spec_materialization(),
                        world.topology_revision,
                        world.dependencies_current,
                        *structural,
                        *results,
                        *changes,
                    )
                    &&& q.spec_remaining() == execution_walk(
                        final(self).spec_materialization(),
                        old(self).spec_plan().traversal,
                        old(self).spec_plan().temporal,
                        world.sparse_entities,
                        world.table_rows,
                    )
                    &&& match window {
                        QueryWindow::All => q.spec_since()@ == 0 && q.spec_cursor() is None,
                        QueryWindow::Since(t) => q.spec_since() == t && q.spec_cursor() is None,
                        QueryWindow::Cursor(c) => q.spec_since() == c.spec_since() && q.spec_cursor() == Some(*c)
                            && c.spec_fingerprint() == old(self).spec_plan().fingerprint,
                    }
                },
                Err(e) => {
                    ||| e is WrongOwner
                    ||| (window matches QueryWindow::Cursor(c) && c.spec_fingerprint() != old(self).spec_plan().fingerprint
                        && wrong_fingerprint(e))
                    ||| final(self).spec_materialization().kept() is None && old(self).spec_plan().traversal is All
                        && (e matches QueryError::WrongQuery { detail } && detail@
                        == "entity-only plan cannot back a typed query"@)
                    ||| final(self).spec_materialization().kept() is None && old(self).spec_plan().traversal is Sparse
                        && world.sparse_entities is None && e is WrongStorageKind
                },
            },
    {
        match validate_world(&self.owner, &world.owner) {
            Ok(()) => {},
            Err(e) => {
                return Err(e);
            },
        }
        let captured_now = world.change_tick;
        let (since, cursor) = match window.into_parts(&world.owner, self.plan.fingerprint) {
            Ok(parts) => parts,
            Err(e) => {
                return Err(e);
            },
        };
        self.materialization.refresh(world.topology_revision, world.dependencies_current, structural, results, changes);
        let materialized = match self.materialization.ids_and_temporal_filter(self.plan.temporal) {
            Some((ids, apply_temporal)) => Some((copy_ids(ids), apply_temporal)),
            None => None,
        };
        let walk = match select_walk(&self.plan.traversal, None, materialized, world.sparse_entities, world.table_rows) {
            Ok(walk) => walk,
            Err(e) => {
                return Err(e);
            },
        };
        Ok(Query1::new(world.owner, self.plan.fingerprint, since, captured_now, cursor, walk))
    }
}

/// The world's candidates for one component of a two-component query, by storage kind.
pub struct ComponentCandidates {
    pub sparse_entities: Option<Vec<EntityId>>,
    pub table_rows: Option<Vec<Vec<EntityId>>>,
}

/// What an execution of a two-component prepared query reads of the world: its identity,
/// change tick, query topology revision and whether the query's own dependencies are
/// unchanged at it, the candidates of both components, their topology revisions, and how
/// many entities hold each.
pub struct PairWorldView {
    pub owner: WorldOwner,
    pub change_tick: ChangeTick,
    pub topology_revision: u64,
    pub dependencies_current: bool,
    pub primary: ComponentCandidates,
    pub second: ComponentCandidates,
    pub revisions: (u64, u64),
    pub primary_population: usize,
    pub second_population: usize,
}

/// The candidates of the component that `traversal` walks: the primary's when it walks
/// component `primary_index` (or no component), the second's otherwise.
pub open spec fn driver_candidates(world: PairWorldView, primary_index: u32, traversal: TraversalSource) -> ComponentCandidates {
    match traversal {
        TraversalSource::Sparse { component_index } => if component_index == primary_index {
            world.primary
        } else {
            world.second
        },
        TraversalSource::Table { component_index } => if component_index == primary_index {
            world.primary
        } else {
            world.second
        },
        _ => world.primary,
    }
}

/// The traversal over component `index` in its storage kind.
pub open spec fn component_traversal(index: u32, is_table: bool) -> TraversalSource {
    if is_table {
        TraversalSource::Table { component_index: index }
    } else {
        TraversalSource::Sparse { component_index: index }
    }
}

/// Reusable two-component query for one world: its resolved plan, its second component,
/// the component revisions its driver was chosen at, and what its policy keeps.
pub struct PreparedQuery2 {
    owner: WorldOwner,
    plan: QueryPlan,
    second_index: u32,
    second_is_table: bool,
    driver_revisions: (u64, u64),
    materialization: Materialization,
}

impl PreparedQuery2 {
    /// The resolved plan; its traversal is the current driver.
    pub closed spec fn spec_plan(&self) -> QueryPlan {
        self.plan
    }

    /// The second component and whether it is table-stored.
    pub closed spec fn spec_second(&self) -> (u32, bool) {
        (self.second_index, self.second_is_table)
    }

    /// The component revisions the driver was chosen at.
    pub closed spec fn spec_driver_revisions(&self) -> (u64, u64) {
        self.driver_revisions
    }

    /// What the policy keeps.
    pub closed spec fn spec_materialization(&self) -> Materialization {
        self.materialization
    }

    /// The kept ids are consistent.
    pub closed spec fn wf(&self) -> bool {
        self.materialization.wf()
    }

    /// Prepares `plan` with second component `second_index` for the world `owner` under
    /// `policy` at topology revision `revision`, its driver chosen at component revisions
    /// `revisions`; see [`Materialization::build`].
    pub fn new<F: Fn() -> Vec<EntityId>, G: Fn() -> Vec<EntityId>>(
        owner: WorldOwner,
        plan: QueryPlan,
        second_index: u32,
        second_is_table: bool,
        revisions: (u64, u64),
        policy: QueryPolicy,
        revision: u64,
        structural: &F,
        results: &G,
    ) -> (r: Result<PreparedQuery2, QueryError>)
        requires
            call_requires(*structural, ()),
            call_requires(*results, ()),
            forall|v: Vec<EntityId>| #[trigger] call_ensures(*structural, (), v) ==> distinct_slots(v@),
        ensures
            policy != QueryPolicy::Prepared && plan.traversal is Exact ==> (r matches Err(
                QueryError::UnsupportedCachePolicy { detail },
            ) && detail@ == "materialized policies do not support exact-id query order"@),
            !(policy != QueryPolicy::Prepared && plan.traversal is Exact) && policy == QueryPolicy::Result && plan.temporal
                ==> r matches Err(QueryError::MovingChangeWindow),
            !(policy != QueryPolicy::Prepared && plan.traversal is Exact) && !(policy == QueryPolicy::Result
                && plan.temporal) ==> (r matches Ok(q) && q.wf() && q.spec_plan() == plan && q.spec_second() == (
                second_index,
                second_is_table,
            ) && q.spec_driver_revisions() == revisions && Materialization::built(
                q.spec_materialization(),
                policy,
                revision,
                *structural,
                *results,
            )),
    {
        match Materialization::build(policy, &plan.traversal, plan.temporal, revision, structural, results) {
            Ok(materialization) => Ok(
                PreparedQuery2 {
                    owner,
                    plan,
                    second_index,
                    second_is_table,
                    driver_revisions: revisions,
                    materialization,
                },
            ),
            Err(e) => Err(e),
        }
    }

    /// The driver after [`PreparedQuery2::refresh_physical_plan`] with these revisions and
    /// populations.
    pub open spec fn driver_after(&self, revisions: (u64, u64), primary_population: usize, second_population: usize) -> TraversalSource {
        if self.spec_plan().traversal is Exact || self.spec_driver_revisions() == revisions {
            self.spec_plan().traversal
        } else if second_population < primary_population {
            component_traversal(self.spec_second().0, self.spec_second().1)
        } else {
            component_traversal(self.spec_plan().primary_index, self.spec_plan().primary_is_table)
        }
    }

    /// Re-chooses the driving component when either component's topology revision moved
    /// from `driver_revisions`: the second component drives when it has fewer entities than
    /// the primary (`second_population < primary_population`), the primary otherwise. An
    /// exact-id plan keeps its order and is never re-chosen.
    pub fn refresh_physical_plan(&mut self, revisions: (u64, u64), primary_population: usize, second_population: usize)
        requires
            old(self).wf(),
        ensures
            final(self).wf(),
            final(self).spec_second() == old(self).spec_second(),
            final(self).spec_materialization() == old(self).spec_materialization(),
            final(self).spec_plan().fingerprint == old(self).spec_plan().fingerprint,
            final(self).spec_plan().primary_index == old(self).spec_plan().primary_index,
            final(self).spec_plan().primary_is_table == old(self).spec_plan().primary_is_table,
            final(self).spec_plan().temporal == old(self).spec_plan().temporal,
            old(self).spec_plan().traversal is Exact || old(self).spec_driver_revisions() == revisions ==> final(self).spec_plan()
                == old(self).spec_plan() && final(self).spec_driver_revisions() == old(self).spec_driver_revisions(),
            !(old(self).spec_plan().traversal is Exact) && old(self).spec_driver_revisions() != revisions ==> {
                &&& final(self).spec_driver_revisions() == revisions
                &&& traversal_equal(
                    final(self).spec_plan().traversal,
                    old(self).driver_after(revisions, primary_population, second_population),
                )
            },
    {
        if let TraversalSource::Exact { .. } = self.plan.traversal {
            return;
        }
        if self.driver_revisions.0 == revisions.0 && self.driver_revisions.1 == revisions.1 {
            return;
        }
        let (component_index, is_table) = if second_population < primary_population {
            (self.second_index, self.second_is_table)
        } else {
            (self.plan.primary_index, self.plan.primary_is_table)
        };
        let traversal = if is_table {
            TraversalSource::Table { component_index }
        } else {
            TraversalSource::Sparse { component_index }
        };
        if !same_traversal(&self.plan.traversal, &traversal) {
            self.plan.traversal = traversal;
        }
        self.driver_revisions = revisions;
    }

    /// Starts an execution over `window`: checks the world, re-chooses the driver (see
    /// [`PreparedQuery2::refresh_physical_plan`]), checks the window's cursor, brings the
    /// kept ids up to date (see [`Materialization::refresh`]), and walks
    /// [`execution_walk`] over the driver's candidates with the change window ending at the
    /// world's change tick.
    pub fn iter<'c, F: Fn() -> Vec<EntityId>, G: Fn() -> Vec<EntityId>, H: Fn() -> Vec<(EntityId, bool)>>(
        &mut self,
        world: PairWorldView,
        window: QueryWindow<'c>,
        structural: &F,
        results: &G,
        changes: &H,
    ) -> (r: Result<Query2<'c>, QueryError>)
        requires
            old(self).wf(),
            old(self).driver_after(world.revisions, world.primary_population, world.second_population) is Table
                ==> driver_candidates(
                world,
                old(self).spec_plan().primary_index,
                old(self).driver_after(world.revisions, world.primary_population, world.second_population),
            ).table_rows is Some,
            call_requires(*structural, ()),
            call_requires(*results, ()),
            call_requires(*changes, ()),
            forall|v: Vec<(EntityId, bool)>| #[trigger]
                call_ensures(*changes, (), v) ==> (old(self).spec_materialization().kept() matches Some(k) ==> changes_fit(
                    v@,
                    k.len() as int,
                )),
        ensures
            final(self).wf(),
            final(self).spec_second() == old(self).spec_second(),
            final(self).spec_plan().fingerprint == old(self).spec_plan().fingerprint,
            final(self).spec_plan().primary_index == old(self).spec_plan().primary_index,
            final(self).spec_plan().temporal == old(self).spec_plan().temporal,
            match r {
                Ok(q) => {
                    let candidates = driver_candidates(world, old(self).spec_plan().primary_index, final(self).spec_plan().traversal);
                    &&& !(old(self).spec_plan().traversal is Exact) ==> final(self).spec_driver_revisions() == world.revisions
                    &&& traversal_equal(
                        final(self).spec_plan().traversal,
                        old(self).driver_after(world.revisions, world.primary_population, world.second_population),
                    )
                    &&& q.spec_inner().wf()
                    &&& !q.spec_inner().spec_committed()
                    &&& q.spec_inner().spec_fingerprint() == old(self).spec_plan().fingerprint
                    &&& q.spec_inner().spec_now() == world.change_tick
                    &&& Materialization::refreshed(
                        old(self).spec_materialization(),
                        final(self).spec_materialization(),
                        world.topology_revision,
                        world.dependencies_current,
                        *structural,
                        *results,
                        *changes,
                    )
                    &&& q.spec_inner().spec_remaining() == execution_walk(
                        final(self).spec_materialization(),
                        final(self).spec_plan().traversal,
                        old(self).spec_plan().temporal,
                        candidates.sparse_entities,
                        candidates.table_rows,
                    )
                    &&& match window {
                        QueryWindow::All => q.spec_inner().spec_since()@ == 0 && q.spec_inner().spec_cursor() is None,
                        QueryWindow::Since(t) => q.spec_inner().spec_since() == t && q.spec_inner().spec_cursor() is None,
                        QueryWindow::Cursor(c) => q.spec_inner().spec_since() == c.spec_since() && q.spec_inner().spec_cursor()
                            == Some(*c) && c.spec_fingerprint() == old(self).spec_plan().fingerprint,
                    }
                },
                Err(e) => {
                    ||| e is WrongOwner
                    ||| (window matches QueryWindow::Cursor(c) && c.spec_fingerprint() != old(self).spec_plan().fingerprint
                        && wrong_fingerprint(e))
                    ||| final(self).spec_materialization().kept() is None && final(self).spec_plan().traversal is All
                        && (e matches QueryError::WrongQuery { detail } && detail@
                        == "entity-only plan cannot back a typed query"@)
                    ||| final(self).spec_materialization().kept() is None && final(self).spec_plan().traversal is Sparse
                        && driver_candidates(world, old(self).spec_plan().primary_index, final(self).spec_plan().traversal).sparse_entities is None
                        && e is WrongStorageKind
                },
            },
    {
        match validate_world(&self.owner, &world.owner) {
            Ok(()) => {},
            Err(e) => {
                return Err(e);
            },
        }
        self.refresh_physical_plan(world.revisions, world.primary_population, world.second_population);
        let captured_now = world.change_tick;
        let (since, cursor) = match window.into_parts(&world.owner, self.plan.fingerprint) {
            Ok(parts) => parts,
            Err(e) => {
                return Err(e);
            },
        };
        self.materialization.refresh(world.topology_revision, world.dependencies_current, structural, results, changes);
        let materialized = match self.materialization.ids_and_temporal_filter(self.plan.temporal) {
            Some((ids, apply_temporal)) => Some((copy_ids(ids), apply_temporal)),
            None => None,
        };
        let drives_primary = match self.plan.traversal {
            TraversalSource::Sparse { component_index } => component_index == self.plan.primary_index,
            TraversalSource::Table { component_index } => component_index == self.plan.primary_index,
            _ => true,
        };
        let candidates = if drives_primary {
            world.primary
        } else {
            world.second
        };
        let walk = match select_walk(&self.plan.traversal, None, materialized, candidates.sparse_entities, candidates.table_rows) {
            Ok(walk) => walk,
            Err(e) => {
                return Err(e);
            },
        };
        Ok(Query2::new(world.owner, self.plan.fingerprint, since, captured_now, cursor, walk))
    }
}

} // verus!
