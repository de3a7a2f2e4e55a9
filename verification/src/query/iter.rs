//! Typed query traversal: which candidates a query visits, in which order, what is left to
//! check of each, and when its change cursor moves.
use vstd::prelude::*;

use crate::entity::EntityId;
use crate::query::cursor::{committed_since, QueryCursor};
use crate::query::error::QueryError;
use crate::query::prepared::{copy_ids, TraversalSource};
use crate::text::cat2;
use crate::time::{decimal_digits, u64_to_decimal};
use crate::time::ChangeTick;
use crate::world::WorldOwner;

verus! {

/// What a traversal candidate still has to be checked against before it is yielded.
#[derive(Copy, Clone, Debug, Eq, PartialEq, Structural)]
pub enum CandidateFilter {
    /// Every selector of the query.
    Full,
    /// Only the added/changed window; the structural part was settled when the ids were
    /// materialized.
    Temporal,
    /// Nothing: the materialized ids are already exact.
    Trusted,
}

/// The entities of `rows[from]`, `rows[from + 1]`, ... in order.
pub open spec fn rows_from(rows: Seq<Vec<EntityId>>, from: int) -> Seq<EntityId>
    decreases rows.len() - from,
{
    if from < 0 || from >= rows.len() {
        Seq::empty()
    } else {
        rows[from]@ + rows_from(rows, from + 1)
    }
}

/// `ids`, each paired with `filter`.
pub open spec fn tagged(ids: Seq<EntityId>, filter: CandidateFilter) -> Seq<(EntityId, CandidateFilter)> {
    ids.map_values(|e: EntityId| (e, filter))
}

/// Where a typed query draws its candidates from, and how far it has walked.
pub enum QueryWalk {
    /// The dense entities of a sparse store.
    Sparse { entities: Vec<EntityId>, index: usize },
    /// The rows of each matching archetype table, archetype by archetype.
    Table { rows: Vec<Vec<EntityId>>, archetype_index: usize, row: usize },
    /// A caller-ordered id list.
    Exact { ids: Vec<EntityId>, index: usize },
    /// Ids looked up in a membership or result cache.
    Cached { ids: Vec<EntityId>, index: usize, filter: CandidateFilter },
    /// Ids materialized by a prepared query, re-checked against the change window when
    /// `apply_temporal` holds.
    Borrowed { ids: Vec<EntityId>, index: usize, apply_temporal: bool },
    /// Nothing left to visit.
    Done,
}

impl QueryWalk {
    /// The positions are within the walked lists.
    pub open spec fn wf(&self) -> bool {
        match *self {
            QueryWalk::Sparse { entities, index } => index <= entities@.len(),
            QueryWalk::Table { rows, archetype_index, row } => {
                &&& archetype_index <= rows@.len()
                &&& archetype_index < rows@.len() ==> row <= rows@[archetype_index as int]@.len()
            },
            QueryWalk::Exact { ids, index } => index <= ids@.len(),
            QueryWalk::Cached { ids, index, .. } => index <= ids@.len(),
            QueryWalk::Borrowed { ids, index, .. } => index <= ids@.len(),
            QueryWalk::Done => true,
        }
    }

    /// The candidates still to be visited, in visiting order, each with what is left to
    /// check of it.
    pub open spec fn remaining(&self) -> Seq<(EntityId, CandidateFilter)> {
        match *self {
            QueryWalk::Sparse { entities, index } => tagged(entities@.skip(index as int), CandidateFilter::Full),
            QueryWalk::Table { rows, archetype_index, row } => if archetype_index < rows@.len() {
                tagged(
                    rows@[archetype_index as int]@.skip(row as int) + rows_from(rows@, archetype_index + 1),
                    CandidateFilter::Full,
                )
            } else {
                Seq::empty()
            },
            QueryWalk::Exact { ids, index } => tagged(ids@.skip(index as int), CandidateFilter::Full),
            QueryWalk::Cached { ids, index, filter } => tagged(ids@.skip(index as int), filter),
            QueryWalk::Borrowed { ids, index, apply_temporal } => tagged(
                ids@.skip(index as int),
                if apply_temporal {
                    CandidateFilter::Temporal
                } else {
                    CandidateFilter::Trusted
                },
            ),
            QueryWalk::Done => Seq::empty(),
        }
    }

    /// Takes the next candidate; once none is left the walk is `Done`.
    pub fn next_candidate(&mut self) -> (r: Option<(EntityId, CandidateFilter)>)
        requires
            old(self).wf(),
        ensures
            final(self).wf(),
            old(self).remaining().len() > 0 ==> r == Some(old(self).remaining()[0]) && final(self).remaining()
                == old(self).remaining().drop_first(),
            old(self).remaining().len() == 0 ==> r is None && *final(self) is Done,
            *final(self) is Done || same_kind(*old(self), *final(self)),
    {
        let mut taken = QueryWalk::Done;
        std::mem::swap(self, &mut taken);
        match taken {
            QueryWalk::Sparse { entities, index } => {
                if index < entities.len() {
                    let e = entities[index];
                    proof {
                        assert(entities@.skip(index as int).drop_first() =~= entities@.skip(index + 1));
                    }
                    *self = QueryWalk::Sparse { entities, index: index + 1 };
                    Some((e, CandidateFilter::Full))
                } else {
                    None
                }
            },
            QueryWalk::Table { rows, archetype_index, row } => Self::next_row(rows, archetype_index, row, self),
            QueryWalk::Exact { ids, index } => {
                if index < ids.len() {
                    let e = ids[index];
                    proof {
                        assert(ids@.skip(index as int).drop_first() =~= ids@.skip(index + 1));
                    }
                    *self = QueryWalk::Exact { ids, index: index + 1 };
                    Some((e, CandidateFilter::Full))
                } else {
                    None
                }
            },
            QueryWalk::Cached { ids, index, filter } => {
                if index < ids.len() {
                    let e = ids[index];
                    proof {
                        assert(ids@.skip(index as int).drop_first() =~= ids@.skip(index + 1));
                    }
                    *self = QueryWalk::Cached { ids, index: index + 1, filter };
                    Some((e, filter))
                } else {
                    None
                }
            },
            QueryWalk::Borrowed { ids, index, apply_temporal } => {
                if index < ids.len() {
                    let e = ids[index];
                    proof {
                        assert(ids@.skip(index as int).drop_first() =~= ids@.skip(index + 1));
                    }
                    *self = QueryWalk::Borrowed { ids, index: index + 1, apply_temporal };
                    let filter = if apply_temporal {
                        CandidateFilter::Temporal
                    } else {
                        CandidateFilter::Trusted
                    };
                    Some((e, filter))
                } else {
                    None
                }
            },
            QueryWalk::Done => None,
        }
    }

    /// The table case of [`QueryWalk::next_candidate`]: skips exhausted archetypes and
    /// leaves `out` positioned after the yielded row, or `Done`.
    fn next_row(rows: Vec<Vec<EntityId>>, archetype_index: usize, row: usize, out: &mut QueryWalk) -> (r: Option<
        (EntityId, CandidateFilter),
    >)
        requires
            (QueryWalk::Table { rows, archetype_index, row }).wf(),
            *old(out) is Done,
        ensures
            final(out).wf(),
            *final(out) is Done || *final(out) is Table,
            ({
                let before = (QueryWalk::Table { rows, archetype_index, row }).remaining();
                &&& before.len() > 0 ==> r == Some(before[0]) && final(out).remaining() == before.drop_first()
                &&& before.len() == 0 ==> r is None && *final(out) is Done
            }),
    {
        let ghost before = (QueryWalk::Table { rows, archetype_index, row }).remaining();
        let mut ai = archetype_index;
        let mut r = row;
        while ai < rows.len()
            invariant
                (QueryWalk::Table { rows, archetype_index: ai, row: r }).wf(),
                (QueryWalk::Table { rows, archetype_index: ai, row: r }).remaining() == before,
                before == (QueryWalk::Table { rows, archetype_index, row }).remaining(),
                *out is Done,
            decreases rows@.len() - ai,
        {
            if r < rows[ai].len() {
                let e = rows[ai][r];
                proof {
                    let cur = rows@[ai as int]@;
                    let rest = rows_from(rows@, ai + 1);
                    assert((cur.skip(r as int) + rest)[0] == e);
                    assert(before == tagged(cur.skip(r as int) + rest, CandidateFilter::Full));
                    assert(before[0] == (e, CandidateFilter::Full));
                    assert((cur.skip(r as int) + rest).drop_first() =~= cur.skip(r + 1) + rest);
                    assert(tagged(cur.skip(r as int) + rest, CandidateFilter::Full).drop_first() =~= tagged(
                        cur.skip(r + 1) + rest,
                        CandidateFilter::Full,
                    ));
                }
                *out = QueryWalk::Table { rows, archetype_index: ai, row: r + 1 };
                proof {
                    let cur = rows@[ai as int]@;
                    let rest = rows_from(rows@, ai + 1);
                    assert(out.remaining() == tagged(cur.skip(r + 1) + rest, CandidateFilter::Full));
                    assert(out.remaining() == before.drop_first());
                }
                return Some((e, CandidateFilter::Full));
            }
            proof {
                let cur = rows@[ai as int]@;
                assert(cur.skip(r as int) =~= Seq::<EntityId>::empty());
                assert(rows_from(rows@, ai as int) == cur + rows_from(rows@, ai + 1));
                if ai + 1 < rows@.len() {
                    assert(rows@[ai + 1]@.skip(0) =~= rows@[ai + 1]@);
                    assert(rows_from(rows@, ai + 1) == rows@[ai + 1]@ + rows_from(rows@, ai + 2));
                } else {
                    assert(rows_from(rows@, ai + 1) =~= Seq::<EntityId>::empty());
                }
                assert(Seq::<EntityId>::empty() + rows_from(rows@, ai + 1) =~= rows_from(rows@, ai + 1));
            }
            ai = ai + 1;
            r = 0;
        }
        None
    }
}

/// The cursor `after` is what committing `before` to `captured_now` for the query
/// `fingerprint` leaves: no cursor stays none; otherwise the cursor is committed as
/// [`QueryCursor::commit_checked`] does for the answer of the owner comparison (which world
/// a cursor belongs to is allocation identity, which is not modelled): it moves to
/// `captured_now` when it follows this query and world, and stays where it was otherwise.
pub open spec fn committed_cursor(
    before: Option<QueryCursor>,
    after: Option<QueryCursor>,
    fingerprint: u64,
    captured_now: ChangeTick,
) -> bool {
    match before {
        None => after is None,
        Some(c) => after matches Some(a) && a.spec_fingerprint() == c.spec_fingerprint() && exists|owner_matches: bool|
            a.spec_since() == #[trigger] committed_since(
                c.spec_since(),
                owner_matches,
                c.spec_fingerprint(),
                fingerprint,
                captured_now,
            ),
    }
}

/// One call of `next` on a query with fingerprint `fingerprint` and end of window `now`
/// took its cursor from `before` to `after`, and its committed flag from
/// `before_committed` to `after_committed`, returning an item when `produced`: a call that
/// yields an item leaves both alone; one that finds nothing marks the query committed and
/// commits the cursor unless it was committed already.
pub open spec fn cursor_transition(
    before_committed: bool,
    before: Option<QueryCursor>,
    after_committed: bool,
    after: Option<QueryCursor>,
    produced: bool,
    fingerprint: u64,
    now: ChangeTick,
) -> bool {
    &&& produced ==> after_committed == before_committed && after == before
    &&& !produced ==> after_committed
    &&& !produced && before_committed ==> after == before
    &&& !produced && !before_committed ==> committed_cursor(before, after, fingerprint, now)
}

/// Along any run of `next` calls on a query that has not committed yet, the cursor keeps
/// its value while items come, is committed by the first call that finds none, and keeps
/// that value from then on: it is committed at most once. `committed[k]` and `cursors[k]`
/// are the query's state before call `k`, and `produced[k]` whether that call yielded.
pub proof fn law_cursor_commits_at_most_once(
    committed: Seq<bool>,
    cursors: Seq<Option<QueryCursor>>,
    produced: Seq<bool>,
    fingerprint: u64,
    now: ChangeTick,
)
    requires
        committed.len() == produced.len() + 1,
        cursors.len() == produced.len() + 1,
        !committed[0],
        forall|k: int|
            0 <= k < produced.len() ==> cursor_transition(
                committed[k],
                cursors[k],
                committed[k + 1],
                cursors[k + 1],
                #[trigger] produced[k],
                fingerprint,
                now,
            ),
    ensures
        forall|k: int|
            0 <= k < cursors.len() && (forall|j: int| 0 <= j < k ==> #[trigger] produced[j]) ==> #[trigger] cursors[k]
                == cursors[0] && !committed[k],
        forall|m: int|
            0 <= m < produced.len() && !#[trigger] produced[m] && (forall|j: int| 0 <= j < m ==> #[trigger] produced[j])
                ==> committed_cursor(cursors[0], cursors[m + 1], fingerprint, now) && forall|k: int|
                m < k < cursors.len() ==> #[trigger] cursors[k] == cursors[m + 1] && committed[k],
{
    assert forall|k: int| 0 <= k < cursors.len() && (forall|j: int| 0 <= j < k ==> #[trigger] produced[j]) implies #[trigger] cursors[k]
        == cursors[0] && !committed[k] by {
        lemma_cursor_untouched(committed, cursors, produced, fingerprint, now, k);
    }
    assert forall|m: int|
        0 <= m < produced.len() && !#[trigger] produced[m] && (forall|j: int| 0 <= j < m ==> #[trigger] produced[j]) implies committed_cursor(
        cursors[0],
        cursors[m + 1],
        fingerprint,
        now,
    ) && forall|k: int| m < k < cursors.len() ==> #[trigger] cursors[k] == cursors[m + 1] && committed[k] by {
        lemma_cursor_untouched(committed, cursors, produced, fingerprint, now, m);
        assert forall|k: int| m < k < cursors.len() implies #[trigger] cursors[k] == cursors[m + 1] && committed[k] by {
            lemma_cursor_kept(committed, cursors, produced, fingerprint, now, m, k);
        }
    }
}

/// While every call so far yielded, the cursor is untouched and the query uncommitted.
proof fn lemma_cursor_untouched(
    committed: Seq<bool>,
    cursors: Seq<Option<QueryCursor>>,
    produced: Seq<bool>,
    fingerprint: u64,
    now: ChangeTick,
    k: int,
)
    requires
        committed.len() == produced.len() + 1,
        cursors.len() == produced.len() + 1,
        !committed[0],
        forall|x: int|
            0 <= x < produced.len() ==> cursor_transition(
                committed[x],
                cursors[x],
                committed[x + 1],
                cursors[x + 1],
                #[trigger] produced[x],
                fingerprint,
                now,
            ),
        0 <= k < cursors.len(),
        forall|j: int| 0 <= j < k ==> #[trigger] produced[j],
    ensures
        cursors[k] == cursors[0],
        !committed[k],
    decreases k,
{
    if k > 0 {
        lemma_cursor_untouched(committed, cursors, produced, fingerprint, now, k - 1);
        assert(produced[k - 1]);
    }
}

/// Once committed by call `m`, the cursor keeps its value at every later state `k`.
proof fn lemma_cursor_kept(
    committed: Seq<bool>,
    cursors: Seq<Option<QueryCursor>>,
    produced: Seq<bool>,
    fingerprint: u64,
    now: ChangeTick,
    m: int,
    k: int,
)
    requires
        committed.len() == produced.len() + 1,
        cursors.len() == produced.len() + 1,
        forall|x: int|
            0 <= x < produced.len() ==> cursor_transition(
                committed[x],
                cursors[x],
                committed[x + 1],
                cursors[x + 1],
                #[trigger] produced[x],
                fingerprint,
                now,
            ),
        0 <= m < produced.len(),
        !produced[m],
        m < k < cursors.len(),
    ensures
        cursors[k] == cursors[m + 1],
        committed[k],
    decreases k,
{
    if k > m + 1 {
        lemma_cursor_kept(committed, cursors, produced, fingerprint, now, m, k - 1);
        assert(cursor_transition(committed[k - 1], cursors[k - 1], committed[k], cursors[k], produced[k - 1], fingerprint, now));
    } else {
        assert(cursor_transition(committed[m], cursors[m], committed[m + 1], cursors[m + 1], produced[m], fingerprint, now));
    }
}

/// The value behind an optional cursor borrow.
pub open spec fn cursor_value(cursor: Option<&mut QueryCursor>) -> Option<QueryCursor> {
    match cursor {
        Some(c) => Some(*c),
        None => None,
    }
}

/// Single-component query iteration: walks the candidates of its traversal in order, has
/// each one checked by the world for the change window `since`..`captured_now`, and moves
/// its cursor, once, when the walk is exhausted.
pub struct Query1<'c> {
    owner: WorldOwner,
    fingerprint: u64,
    since: ChangeTick,
    captured_now: ChangeTick,
    cursor_committed: bool,
    cursor: Option<&'c mut QueryCursor>,
    walk: QueryWalk,
}

impl<'c> Query1<'c> {
    /// The candidates still to be visited.
    pub closed spec fn spec_remaining(&self) -> Seq<(EntityId, CandidateFilter)> {
        self.walk.remaining()
    }

    /// Whether the walk is finished and its cursor already committed.
    pub closed spec fn spec_committed(&self) -> bool {
        self.cursor_committed
    }

    /// The traversal and how far it has gone.
    pub closed spec fn spec_walk(&self) -> QueryWalk {
        self.walk
    }

    /// The cursor the query moves when it is exhausted.
    pub closed spec fn spec_cursor(&self) -> Option<QueryCursor> {
        cursor_value(self.cursor)
    }

    /// Fingerprint of the query's parameters.
    pub closed spec fn spec_fingerprint(&self) -> u64 {
        self.fingerprint
    }

    /// Start of the change window.
    pub closed spec fn spec_since(&self) -> ChangeTick {
        self.since
    }

    /// End of the change window, and the tick the cursor moves to.
    pub closed spec fn spec_now(&self) -> ChangeTick {
        self.captured_now
    }

    /// The walk positions are valid.
    pub closed spec fn wf(&self) -> bool {
        self.walk.wf()
    }

    /// A query over `walk` for the world `owner`, with the change window
    /// `since`..`captured_now`, moving `cursor` when exhausted.
    pub fn new(
        owner: WorldOwner,
        fingerprint: u64,
        since: ChangeTick,
        captured_now: ChangeTick,
        cursor: Option<&'c mut QueryCursor>,
        walk: QueryWalk,
    ) -> (r: Query1<'c>)
        requires
            walk.wf(),
        ensures
            r.wf(),
            r.spec_walk() == walk,
            r.spec_remaining() == walk.remaining(),
            !r.spec_committed(),
            r.spec_cursor() == cursor_value(cursor),
            r.spec_fingerprint() == fingerprint,
            r.spec_since() == since,
            r.spec_now() == captured_now,
    {
        Query1 { owner, fingerprint, since, captured_now, cursor_committed: false, cursor, walk }
    }

    /// Start of the change window.
    pub fn since(&self) -> (r: ChangeTick)
        ensures
            r == self.spec_since(),
    {
        self.since
    }

    /// End of the change window.
    pub fn captured_now(&self) -> (r: ChangeTick)
        ensures
            r == self.spec_now(),
    {
        self.captured_now
    }

    /// Moves the cursor to the end of the window the first time it is called, when the
    /// cursor follows this query and this world.
    fn commit_cursor_if_needed(&mut self)
        requires
            old(self).wf(),
        ensures
            final(self).wf(),
            final(self).spec_committed(),
            final(self).spec_walk() == old(self).spec_walk(),
            final(self).spec_remaining() == old(self).spec_remaining(),
            final(self).spec_fingerprint() == old(self).spec_fingerprint(),
            final(self).spec_since() == old(self).spec_since(),
            final(self).spec_now() == old(self).spec_now(),
            old(self).spec_committed() ==> final(self).spec_cursor() == old(self).spec_cursor(),
            !old(self).spec_committed() ==> committed_cursor(
                old(self).spec_cursor(),
                final(self).spec_cursor(),
                old(self).spec_fingerprint(),
                old(self).spec_now(),
            ),
    {
        if self.cursor_committed {
            return;
        }
        let ghost mut witness = false;
        match &mut self.cursor {
            Some(cursor) => {
                let owner_matches = cursor.same_owner(&self.owner);
                cursor.commit_checked(owner_matches, self.fingerprint, self.captured_now);
                proof {
                    witness = owner_matches;
                }
            },
            None => {},
        }
        self.cursor_committed = true;
        proof {
            if let Some(c) = old(self).spec_cursor() {
                let a = self.spec_cursor()->0;
                assert(a.spec_since() == committed_since(
                    c.spec_since(),
                    witness,
                    c.spec_fingerprint(),
                    self.fingerprint,
                    self.captured_now,
                ));
            }
        }
    }

    /// The next candidate that `matcher` accepts, with what it produced for it; `None` once
    /// the walk is exhausted, which commits the cursor. `matcher` is handed each candidate,
    /// what is left to check of it, and the change window.
    pub fn next<T, F: Fn(EntityId, CandidateFilter, ChangeTick, ChangeTick) -> Option<T>>(&mut self, matcher: &F) -> (r:
        Option<(EntityId, T)>)
        requires
            old(self).wf(),
            forall|e: EntityId, f: CandidateFilter| call_requires(*matcher, (e, f, old(self).spec_since(), old(self).spec_now())),
        ensures
            final(self).wf(),
            final(self).spec_fingerprint() == old(self).spec_fingerprint(),
            final(self).spec_since() == old(self).spec_since(),
            final(self).spec_now() == old(self).spec_now(),
            match r {
                Some((e, v)) => exists|k: int|
                    0 <= k < old(self).spec_remaining().len() && #[trigger] old(self).spec_remaining()[k].0 == e
                        && call_ensures(
                        *matcher,
                        (e, old(self).spec_remaining()[k].1, old(self).spec_since(), old(self).spec_now()),
                        Some(v),
                    ) && (forall|j: int|
                        0 <= j < k ==> call_ensures(
                            *matcher,
                            (
                                #[trigger] old(self).spec_remaining()[j].0,
                                old(self).spec_remaining()[j].1,
                                old(self).spec_since(),
                                old(self).spec_now(),
                            ),
                            None,
                        )) && final(self).spec_remaining() == old(self).spec_remaining().skip(k + 1),
                None => forall|j: int|
                    0 <= j < old(self).spec_remaining().len() ==> call_ensures(
                        *matcher,
                        (
                            #[trigger] old(self).spec_remaining()[j].0,
                            old(self).spec_remaining()[j].1,
                            old(self).spec_since(),
                            old(self).spec_now(),
                        ),
                        None,
                    ),
            },
            r is None ==> final(self).spec_remaining().len() == 0,
            cursor_transition(
                old(self).spec_committed(),
                old(self).spec_cursor(),
                final(self).spec_committed(),
                final(self).spec_cursor(),
                r is Some,
                old(self).spec_fingerprint(),
                old(self).spec_now(),
            ),
    {
        let ghost start = self.walk.remaining();
        let ghost visited: int = 0;
        loop
            invariant
                self.wf(),
                self.fingerprint == old(self).spec_fingerprint(),
                self.since == old(self).spec_since(),
                self.captured_now == old(self).spec_now(),
                self.cursor_committed == old(self).spec_committed(),
                cursor_value(self.cursor) == old(self).spec_cursor(),
                start == old(self).spec_remaining(),
                0 <= visited <= start.len(),
                self.walk.remaining() == start.skip(visited),
                forall|e: EntityId, f: CandidateFilter|
                    call_requires(*matcher, (e, f, old(self).spec_since(), old(self).spec_now())),
                forall|j: int|
                    0 <= j < visited ==> call_ensures(
                        *matcher,
                        (#[trigger] start[j].0, start[j].1, self.since, self.captured_now),
                        None,
                    ),
            decreases start.len() - visited,
        {
            match self.walk.next_candidate() {
                Some((e, filter)) => {
                    proof {
                        assert(start.skip(visited)[0] == start[visited]);
                        assert(start.skip(visited).drop_first() =~= start.skip(visited + 1));
                    }
                    let found = matcher(e, filter, self.since, self.captured_now);
                    match found {
                        Some(v) => {
                            proof {
                                assert(start[visited].0 == e);
                            }
                            return Some((e, v));
                        },
                        None => {
                            proof {
                                visited = visited + 1;
                            }
                        },
                    }
                },
                None => {
                    self.commit_cursor_if_needed();
                    return None;
                },
            }
        }
    }
}

/// Two-component query iteration: a [`Query1`] walk whose matcher produces both
/// components of each accepted candidate.
pub struct Query2<'c> {
    inner: Query1<'c>,
}

impl<'c> Query2<'c> {
    /// The single-component walk underneath.
    pub closed spec fn spec_inner(&self) -> Query1<'c> {
        self.inner
    }

    /// A two-component query over `walk`; see [`Query1::new`].
    pub fn new(
        owner: WorldOwner,
        fingerprint: u64,
        since: ChangeTick,
        captured_now: ChangeTick,
        cursor: Option<&'c mut QueryCursor>,
        walk: QueryWalk,
    ) -> (r: Query2<'c>)
        requires
            walk.wf(),
        ensures
            r.spec_inner().wf(),
            r.spec_inner().spec_remaining() == walk.remaining(),
            !r.spec_inner().spec_committed(),
            r.spec_inner().spec_cursor() == cursor_value(cursor),
            r.spec_inner().spec_fingerprint() == fingerprint,
            r.spec_inner().spec_since() == since,
            r.spec_inner().spec_now() == captured_now,
    {
        Query2 { inner: Query1::new(owner, fingerprint, since, captured_now, cursor, walk) }
    }

    /// The next candidate that `matcher` accepts, with both components it produced for it;
    /// `None` once the walk is exhausted, which commits the cursor. See [`Query1::next`].
    pub fn next<A, B, F: Fn(EntityId, CandidateFilter, ChangeTick, ChangeTick) -> Option<(A, B)>>(
        &mut self,
        matcher: &F,
    ) -> (r: Option<(EntityId, A, B)>)
        requires
            old(self).spec_inner().wf(),
            forall|e: EntityId, f: CandidateFilter|
                call_requires(*matcher, (e, f, old(self).spec_inner().spec_since(), old(self).spec_inner().spec_now())),
        ensures
            ({
                let before = old(self).spec_inner();
                let after = final(self).spec_inner();
                &&& after.wf()
                &&& after.spec_fingerprint() == before.spec_fingerprint()
                &&& after.spec_since() == before.spec_since()
                &&& after.spec_now() == before.spec_now()
                &&& match r {
                    Some((e, a, b)) => exists|k: int|
                        0 <= k < before.spec_remaining().len() && #[trigger] before.spec_remaining()[k].0 == e
                            && call_ensures(
                            *matcher,
                            (e, before.spec_remaining()[k].1, before.spec_since(), before.spec_now()),
                            Some((a, b)),
                        ) && (forall|j: int|
                            0 <= j < k ==> call_ensures(
                                *matcher,
                                (
                                    #[trigger] before.spec_remaining()[j].0,
                                    before.spec_remaining()[j].1,
                                    before.spec_since(),
                                    before.spec_now(),
                                ),
                                None,
                            )) && after.spec_remaining() == before.spec_remaining().skip(k + 1),
                    None => forall|j: int|
                        0 <= j < before.spec_remaining().len() ==> call_ensures(
                            *matcher,
                            (
                                #[trigger] before.spec_remaining()[j].0,
                                before.spec_remaining()[j].1,
                                before.spec_since(),
                                before.spec_now(),
                            ),
                            None,
                        ),
                }
                &&& r is None ==> after.spec_remaining().len() == 0
                &&& cursor_transition(
                    before.spec_committed(),
                    before.spec_cursor(),
                    after.spec_committed(),
                    after.spec_cursor(),
                    r is Some,
                    before.spec_fingerprint(),
                    before.spec_now(),
                )
            }),
    {
        match self.inner.next(matcher) {
            Some((e, (a, b))) => Some((e, a, b)),
            None => None,
        }
    }
}

/// `a` and `b` are walks of the same kind.
pub open spec fn same_kind(a: QueryWalk, b: QueryWalk) -> bool {
    match (a, b) {
        (QueryWalk::Sparse { .. }, QueryWalk::Sparse { .. }) => true,
        (QueryWalk::Table { .. }, QueryWalk::Table { .. }) => true,
        (QueryWalk::Exact { .. }, QueryWalk::Exact { .. }) => true,
        (QueryWalk::Cached { .. }, QueryWalk::Cached { .. }) => true,
        (QueryWalk::Borrowed { .. }, QueryWalk::Borrowed { .. }) => true,
        (QueryWalk::Done, QueryWalk::Done) => true,
        _ => false,
    }
}

/// `a` and `b` are the same kind of walk over the same lists at the same position.
pub open spec fn same_walk(a: QueryWalk, b: QueryWalk) -> bool {
    match (a, b) {
        (QueryWalk::Sparse { entities: x, index: i }, QueryWalk::Sparse { entities: y, index: j }) => x@ == y@ && i == j,
        (
            QueryWalk::Table { rows: x, archetype_index: i, row: r },
            QueryWalk::Table { rows: y, archetype_index: j, row: q },
        ) => x@ == y@ && i == j && r == q,
        (QueryWalk::Exact { ids: x, index: i }, QueryWalk::Exact { ids: y, index: j }) => x@ == y@ && i == j,
        (QueryWalk::Cached { ids: x, index: i, filter: f }, QueryWalk::Cached { ids: y, index: j, filter: g }) => x@ == y@
            && i == j && f == g,
        (
            QueryWalk::Borrowed { ids: x, index: i, apply_temporal: t },
            QueryWalk::Borrowed { ids: y, index: j, apply_temporal: u },
        ) => x@ == y@ && i == j && t == u,
        (QueryWalk::Done, QueryWalk::Done) => true,
        _ => false,
    }
}

/// The walk a typed query starts with: ids materialized by a prepared query first, then ids
/// from a cache, else the plan's traversal. `sparse_entities` are the dense entities of
/// the traversal's sparse store, `None` when that component is not sparse-stored;
/// `table_rows` are the entity rows of the archetypes the table traversal visits.
pub open spec fn selected_walk(
    traversal: TraversalSource,
    cached: Option<Vec<EntityId>>,
    materialized: Option<(Vec<EntityId>, bool)>,
    sparse_entities: Option<Vec<EntityId>>,
    table_rows: Option<Vec<Vec<EntityId>>>,
) -> Result<QueryWalk, QueryError> {
    if let Some((ids, apply_temporal)) = materialized {
        Ok(QueryWalk::Borrowed { ids, index: 0, apply_temporal })
    } else if let Some(ids) = cached {
        Ok(QueryWalk::Cached { ids, index: 0, filter: CandidateFilter::Full })
    } else {
        match traversal {
            TraversalSource::All => Err(
                QueryError::WrongQuery { detail: arbitrary() },
            ),
            TraversalSource::Sparse { component_index } => match sparse_entities {
                Some(entities) => Ok(QueryWalk::Sparse { entities, index: 0 }),
                None => Err(QueryError::WrongStorageKind { name: arbitrary() }),
            },
            TraversalSource::Table { .. } => Ok(QueryWalk::Table { rows: table_rows.unwrap(), archetype_index: 0, row: 0 }),
            TraversalSource::Exact { ids } => Ok(QueryWalk::Exact { ids, index: 0 }),
        }
    }
}

/// Chooses the walk of a typed query; see [`selected_walk`]. An entity-only plan cannot back
/// a typed query (`WrongQuery`), and a sparse traversal over a component that is not
/// sparse-stored is `WrongStorageKind`.
pub fn select_walk(
    traversal: &TraversalSource,
    cached: Option<Vec<EntityId>>,
    materialized: Option<(Vec<EntityId>, bool)>,
    sparse_entities: Option<Vec<EntityId>>,
    table_rows: Option<Vec<Vec<EntityId>>>,
) -> (r: Result<QueryWalk, QueryError>)
    requires
        materialized is None && cached is None && traversal is Table ==> table_rows is Some,
    ensures
        match (r, selected_walk(*traversal, cached, materialized, sparse_entities, table_rows)) {
            (Ok(w), Ok(s)) => w.wf() && same_walk(w, s) && w.remaining() == s.remaining(),
            (Err(QueryError::WrongQuery { detail }), Err(QueryError::WrongQuery { .. })) => detail@
                == "entity-only plan cannot back a typed query"@,
            (Err(QueryError::WrongStorageKind { name }), Err(QueryError::WrongStorageKind { .. })) => ({
                let index = traversal->Sparse_component_index;
                name@ == "component "@ + decimal_digits(index as nat)
            }),
            _ => false,
        },
{
    if let Some((ids, apply_temporal)) = materialized {
        return Ok(QueryWalk::Borrowed { ids, index: 0, apply_temporal });
    }
    if let Some(ids) = cached {
        return Ok(QueryWalk::Cached { ids, index: 0, filter: CandidateFilter::Full });
    }
    match traversal {
        TraversalSource::All => Err(QueryError::WrongQuery { detail: "entity-only plan cannot back a typed query".to_owned() }),
        TraversalSource::Sparse { component_index } => match sparse_entities {
            Some(entities) => Ok(QueryWalk::Sparse { entities, index: 0 }),
            None => {
                let digits = u64_to_decimal(*component_index as u64);
                Err(QueryError::WrongStorageKind { name: cat2("component ", digits.as_str()) })
            },
        },
        TraversalSource::Table { .. } => {
            match table_rows {
                Some(rows) => Ok(QueryWalk::Table { rows, archetype_index: 0, row: 0 }),
                None => Ok(QueryWalk::Done),
            }
        },
        TraversalSource::Exact { ids } => Ok(QueryWalk::Exact { ids: copy_ids(ids.as_slice()), index: 0 }),
    }
}

/// Entity ids of an entity-only query, in order; moves its cursor, once, when exhausted.
pub struct QueryIds<'c> {
    inner: Query1<'c>,
}

impl<'c> QueryIds<'c> {
    /// The ids still to be yielded.
    pub closed spec fn spec_remaining(&self) -> Seq<EntityId> {
        self.inner.spec_remaining().map_values(|c: (EntityId, CandidateFilter)| c.0)
    }

    /// Whether the ids are exhausted and the cursor already committed.
    pub closed spec fn spec_committed(&self) -> bool {
        self.inner.spec_committed()
    }

    /// The cursor moved when the ids are exhausted.
    pub closed spec fn spec_cursor(&self) -> Option<QueryCursor> {
        self.inner.spec_cursor()
    }

    /// Fingerprint of the query's parameters.
    pub closed spec fn spec_fingerprint(&self) -> u64 {
        self.inner.spec_fingerprint()
    }

    /// The tick the cursor moves to.
    pub closed spec fn spec_now(&self) -> ChangeTick {
        self.inner.spec_now()
    }

    /// The positions are valid, over a plain id list.
    pub closed spec fn wf(&self) -> bool {
        &&& self.inner.wf()
        &&& (self.inner.walk is Exact || self.inner.walk is Done)
    }

    /// Yields `ids` in order for the world `owner`, then moves `cursor` to `captured_now`.
    pub fn new(
        owner: WorldOwner,
        fingerprint: u64,
        captured_now: ChangeTick,
        cursor: Option<&'c mut QueryCursor>,
        ids: Vec<EntityId>,
    ) -> (r: QueryIds<'c>)
        ensures
            r.wf(),
            r.spec_remaining() == ids@,
            !r.spec_committed(),
            r.spec_cursor() == cursor_value(cursor),
            r.spec_fingerprint() == fingerprint,
            r.spec_now() == captured_now,
    {
        let ghost v = ids@;
        let walk = QueryWalk::Exact { ids, index: 0 };
        let r = QueryIds { inner: Query1::new(owner, fingerprint, captured_now, captured_now, cursor, walk) };
        proof {
            assert(v.skip(0) =~= v);
            assert(r.spec_remaining() =~= v);
        }
        r
    }

    /// Number of ids still to be yielded.
    pub fn len(&self) -> (r: usize)
        requires
            self.wf(),
        ensures
            r == self.spec_remaining().len(),
    {
        match &self.inner.walk {
            QueryWalk::Exact { ids, index } => ids.len() - *index,
            QueryWalk::Sparse { entities, index } => entities.len() - *index,
            QueryWalk::Cached { ids, index, .. } => ids.len() - *index,
            QueryWalk::Borrowed { ids, index, .. } => ids.len() - *index,
            QueryWalk::Done => 0,
            QueryWalk::Table { .. } => 0,
        }
    }

    /// The next id; `None` once exhausted, which commits the cursor.
    pub fn next(&mut self) -> (r: Option<EntityId>)
        requires
            old(self).wf(),
        ensures
            final(self).wf(),
            final(self).spec_fingerprint() == old(self).spec_fingerprint(),
            final(self).spec_now() == old(self).spec_now(),
            old(self).spec_remaining().len() > 0 ==> r == Some(old(self).spec_remaining()[0]) && final(self).spec_remaining()
                == old(self).spec_remaining().drop_first() && final(self).spec_committed() == old(self).spec_committed()
                && final(self).spec_cursor() == old(self).spec_cursor(),
            old(self).spec_remaining().len() == 0 ==> r is None && final(self).spec_remaining().len() == 0
                && final(self).spec_committed(),
            old(self).spec_remaining().len() == 0 && old(self).spec_committed() ==> final(self).spec_cursor() == old(
                self,
            ).spec_cursor(),
            old(self).spec_remaining().len() == 0 && !old(self).spec_committed() ==> committed_cursor(
                old(self).spec_cursor(),
                final(self).spec_cursor(),
                old(self).spec_fingerprint(),
                old(self).spec_now(),
            ),
    {
        match self.inner.walk.next_candidate() {
            Some((e, _)) => {
                proof {
                    assert(self.spec_remaining() =~= old(self).spec_remaining().drop_first());
                }
                Some(e)
            },
            None => {
                self.inner.commit_cursor_if_needed();
                None
            },
        }
    }
}

} // verus!
