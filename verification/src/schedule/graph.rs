//! Ordering graphs of systems: edge counting, walks, and what a valid run order is.
use vstd::prelude::*;

verus! {

/// Number of edges into `m` whose source is not in `done`.
pub open spec fn pending_in(edges: Seq<(usize, usize)>, m: usize, done: Set<usize>) -> nat
    decreases edges.len(),
{
    if edges.len() == 0 {
        0
    } else {
        pending_in(edges.drop_last(), m, done) + if edges.last().1 == m && !done.contains(edges.last().0) {
            1nat
        } else {
            0nat
        }
    }
}

/// Number of occurrences of the edge `(a, b)`.
pub open spec fn edge_count(edges: Seq<(usize, usize)>, a: usize, b: usize) -> nat
    decreases edges.len(),
{
    if edges.len() == 0 {
        0
    } else {
        edge_count(edges.drop_last(), a, b) + if edges.last() == (a, b) {
            1nat
        } else {
            0nat
        }
    }
}

/// Every edge into `m` starts in `done`.
pub open spec fn preds_within(edges: Seq<(usize, usize)>, m: usize, done: Set<usize>) -> bool {
    forall|k: int| 0 <= k < edges.len() && (#[trigger] edges[k]).1 == m ==> done.contains(edges[k].0)
}

/// `order` runs every member once, and runs each system only after every system with an
/// edge into it: every edge source into a scheduled system is scheduled earlier.
pub open spec fn respects_edges(order: Seq<usize>, edges: Seq<(usize, usize)>) -> bool {
    forall|j: int, k: int|
        0 <= j < order.len() && 0 <= k < edges.len() && (#[trigger] edges[k]).1 == #[trigger] order[j] ==> exists|i: int|
            0 <= i < j && order[i] == edges[k].0
}

/// `order` is a run order of exactly the `members`, respecting every edge.
pub open spec fn is_run_order(order: Seq<usize>, members: Seq<usize>, edges: Seq<(usize, usize)>) -> bool {
    &&& order.no_duplicates()
    &&& order.len() == members.len()
    &&& forall|i: int| 0 <= i < order.len() ==> members.contains(#[trigger] order[i])
    &&& respects_edges(order, edges)
}

/// At each position, `order` runs the smallest member that is not yet run and whose
/// predecessors are all run.
pub open spec fn smallest_first(order: Seq<usize>, members: Seq<usize>, edges: Seq<(usize, usize)>) -> bool {
    forall|j: int, m: usize|
        0 <= j < order.len() && #[trigger] members.contains(m) && !(#[trigger] order.take(j)).contains(m) && preds_within(
            edges,
            m,
            order.take(j).to_set(),
        ) ==> order[j] <= m
}

/// Removing a source from the pending set removes exactly its edges into `m`.
pub proof fn lemma_pending_insert(edges: Seq<(usize, usize)>, m: usize, done: Set<usize>, x: usize)
    requires
        !done.contains(x),
    ensures
        pending_in(edges, m, done.insert(x)) + edge_count(edges, x, m) == pending_in(edges, m, done),
    decreases edges.len(),
{
    if edges.len() > 0 {
        lemma_pending_insert(edges.drop_last(), m, done, x);
    }
}

/// The edges into `m` all start in `done` exactly when none is pending.
pub proof fn lemma_pending_zero(edges: Seq<(usize, usize)>, m: usize, done: Set<usize>)
    ensures
        (pending_in(edges, m, done) == 0) == preds_within(edges, m, done),
    decreases edges.len(),
{
    if edges.len() > 0 {
        let init = edges.drop_last();
        lemma_pending_zero(init, m, done);
        if preds_within(edges, m, done) {
            assert forall|k: int| 0 <= k < init.len() && (#[trigger] init[k]).1 == m implies done.contains(init[k].0) by {
                assert(init[k] == edges[k]);
            }
            let last = edges.len() - 1;
            assert(edges[last] == edges.last());
        }
        if pending_in(edges, m, done) == 0 {
            assert forall|k: int| 0 <= k < edges.len() && (#[trigger] edges[k]).1 == m implies done.contains(edges[k].0) by {
                if k < init.len() {
                    assert(init[k] == edges[k]);
                }
            }
        }
    }
}

/// A prefix one longer counts its last edge once more.
pub proof fn lemma_edge_count_take(edges: Seq<(usize, usize)>, a: usize, b: usize, k: int)
    requires
        0 <= k < edges.len(),
    ensures
        edge_count(edges.take(k + 1), a, b) == edge_count(edges.take(k), a, b) + if edges[k] == (a, b) {
            1nat
        } else {
            0nat
        },
{
    assert(edges.take(k + 1).drop_last() =~= edges.take(k));
}

/// Occurrences of `(a, b)` in a prefix never exceed those in the whole list.
pub proof fn lemma_edge_count_prefix(edges: Seq<(usize, usize)>, a: usize, b: usize, k: int)
    requires
        0 <= k <= edges.len(),
    ensures
        edge_count(edges.take(k), a, b) <= edge_count(edges, a, b),
    decreases edges.len() - k,
{
    if k < edges.len() {
        lemma_edge_count_take(edges, a, b, k);
        lemma_edge_count_prefix(edges, a, b, k + 1);
    } else {
        assert(edges.take(k) =~= edges);
    }
}

/// When every unscheduled member has an edge from an unscheduled system, no run order of
/// the members exists.
pub proof fn lemma_stuck_has_no_order(
    members: Seq<usize>,
    edges: Seq<(usize, usize)>,
    done: Set<usize>,
    order: Seq<usize>,
    witness: usize,
)
    requires
        members.contains(witness),
        !done.contains(witness),
        forall|m: usize|
            #[trigger] members.contains(m) && !done.contains(m) ==> exists|k: int|
                0 <= k < edges.len() && edges[k].1 == m && !done.contains(edges[k].0),
        members.no_duplicates(),
    ensures
        !is_run_order(order, members, edges),
{
    if is_run_order(order, members, edges) {
        lemma_all_members_in_order(members, order);
        lemma_order_within(members, edges, done, order, order.len() as int);
        let p = choose|p: int| 0 <= p < order.len() && order[p] == witness;
        assert(done.contains(order[p]));
    }
}

/// A run order holds every member.
pub proof fn lemma_all_members_in_order(members: Seq<usize>, order: Seq<usize>)
    requires
        members.no_duplicates(),
        order.no_duplicates(),
        order.len() == members.len(),
        forall|i: int| 0 <= i < order.len() ==> members.contains(#[trigger] order[i]),
    ensures
        forall|m: usize| #[trigger] members.contains(m) ==> exists|p: int| 0 <= p < order.len() && order[p] == m,
{
    assert forall|m: usize| #[trigger] members.contains(m) implies exists|p: int| 0 <= p < order.len() && order[p] == m by {
        if !(exists|p: int| 0 <= p < order.len() && order[p] == m) {
            assert(!order.to_set().contains(m));
            assert(order.to_set().subset_of(members.to_set())) by {
                assert forall|x: usize| order.to_set().contains(x) implies members.to_set().contains(x) by {
                    let p = choose|p: int| 0 <= p < order.len() && order[p] == x;
                    assert(members.contains(order[p]));
                }
            }
            assert(members.to_set().contains(m));
            order.to_set().lemma_subset_not_in_lt(members.to_set(), m);
            order.unique_seq_to_set();
            members.unique_seq_to_set();
        }
    }
}

/// In a run order of `members` where every unscheduled member has an edge from an
/// unscheduled system, the first `j` positions are all scheduled.
proof fn lemma_order_within(
    members: Seq<usize>,
    edges: Seq<(usize, usize)>,
    done: Set<usize>,
    order: Seq<usize>,
    j: int,
)
    requires
        0 <= j <= order.len(),
        forall|m: usize|
            #[trigger] members.contains(m) && !done.contains(m) ==> exists|k: int|
                0 <= k < edges.len() && edges[k].1 == m && !done.contains(edges[k].0),
        is_run_order(order, members, edges),
    ensures
        forall|i: int| 0 <= i < j ==> done.contains(#[trigger] order[i]),
    decreases j,
{
    if j > 0 {
        lemma_order_within(members, edges, done, order, j - 1);
        let m = order[j - 1];
        if !done.contains(m) {
            assert(members.contains(order[j - 1]));
            let k = choose|k: int| 0 <= k < edges.len() && edges[k].1 == m && !done.contains(edges[k].0);
            assert(edges[k].1 == order[j - 1]);
            let i = choose|i: int| 0 <= i < j - 1 && order[i] == edges[k].0;
            assert(done.contains(order[i]));
        }
    }
}

/// `p` is a walk: consecutive systems are joined by an edge.
pub open spec fn is_walk(edges: Seq<(usize, usize)>, p: Seq<usize>) -> bool
    decreases p.len(),
{
    if p.len() <= 1 {
        true
    } else {
        edges.contains((p[0], p[1])) && is_walk(edges, p.drop_first())
    }
}

/// There is a walk of one edge or more from `from` to `to`.
pub open spec fn reaches(edges: Seq<(usize, usize)>, from: usize, to: usize) -> bool {
    exists|p: Seq<usize>| #[trigger] is_walk(edges, p) && p.len() >= 2 && p[0] == from && p.last() == to
}

/// There is a walk of zero edges or more from `from` to `to`.
pub open spec fn reaches_or_is(edges: Seq<(usize, usize)>, from: usize, to: usize) -> bool {
    exists|p: Seq<usize>| #[trigger] is_walk(edges, p) && p.len() >= 1 && p[0] == from && p.last() == to
}

/// A walk extended by an edge from its end is a walk.
pub proof fn lemma_walk_push(edges: Seq<(usize, usize)>, p: Seq<usize>, y: usize)
    requires
        is_walk(edges, p),
        p.len() >= 1,
        edges.contains((p.last(), y)),
    ensures
        is_walk(edges, p.push(y)),
    decreases p.len(),
{
    let q = p.push(y);
    if p.len() == 1 {
        assert(q.drop_first() =~= seq![y]);
        assert(q[0] == p.last() && q[1] == y);
        assert(is_walk(edges, q.drop_first()));
    } else {
        assert(p.drop_first().last() == p.last());
        lemma_walk_push(edges, p.drop_first(), y);
        assert(q.drop_first() =~= p.drop_first().push(y));
        assert(q[0] == p[0] && q[1] == p[1]);
    }
}

/// A walk that starts in a set closed under edges stays in it.
pub proof fn lemma_walk_stays(edges: Seq<(usize, usize)>, p: Seq<usize>, within: Set<usize>)
    requires
        is_walk(edges, p),
        p.len() >= 1,
        within.contains(p[0]),
        forall|k: int| 0 <= k < edges.len() && within.contains((#[trigger] edges[k]).0) ==> within.contains(edges[k].1),
    ensures
        forall|i: int| 0 <= i < p.len() ==> within.contains(#[trigger] p[i]),
    decreases p.len(),
{
    if p.len() > 1 {
        let k = choose|k: int| 0 <= k < edges.len() && edges[k] == (p[0], p[1]);
        assert(within.contains(edges[k].1));
        lemma_walk_stays(edges, p.drop_first(), within);
        assert forall|i: int| 0 <= i < p.len() implies within.contains(#[trigger] p[i]) by {
            if i > 0 {
                assert(p[i] == p.drop_first()[i - 1]);
            }
        }
    }
}

/// Consecutive systems of a walk are joined by an edge.
pub proof fn lemma_walk_edge(edges: Seq<(usize, usize)>, p: Seq<usize>, i: int)
    requires
        is_walk(edges, p),
        0 <= i < p.len() - 1,
    ensures
        edges.contains((p[i], p[i + 1])),
    decreases p.len(),
{
    if i > 0 {
        lemma_walk_edge(edges, p.drop_first(), i - 1);
        assert(p.drop_first()[i - 1] == p[i] && p.drop_first()[i] == p[i + 1]);
    }
}

/// Number of `true` entries.
pub open spec fn count_true(s: Seq<bool>) -> nat
    decreases s.len(),
{
    if s.len() == 0 {
        0
    } else {
        count_true(s.drop_last()) + if s.last() {
            1nat
        } else {
            0nat
        }
    }
}

/// Setting a `false` entry to `true` counts one more.
pub proof fn lemma_count_true_set(s: Seq<bool>, i: int)
    requires
        0 <= i < s.len(),
        !s[i],
    ensures
        count_true(s.update(i, true)) == count_true(s) + 1,
    decreases s.len(),
{
    let t = s.update(i, true);
    if i == s.len() - 1 {
        assert(t.drop_last() =~= s.drop_last());
    } else {
        lemma_count_true_set(s.drop_last(), i);
        assert(t.drop_last() =~= s.drop_last().update(i, true));
    }
}

/// No more entries are `true` than there are entries.
pub proof fn lemma_count_true_bound(s: Seq<bool>)
    ensures
        count_true(s) <= s.len(),
    decreases s.len(),
{
    if s.len() > 0 {
        lemma_count_true_bound(s.drop_last());
    }
}

/// A list without repeats whose items all occur in `sup` is no longer than `sup`.
pub proof fn lemma_distinct_within_len(sub: Seq<usize>, sup: Seq<usize>)
    requires
        sub.no_duplicates(),
        forall|i: int| 0 <= i < sub.len() ==> sup.contains(#[trigger] sub[i]),
    ensures
        sub.len() <= sup.len(),
{
    assert(sub.to_set().subset_of(sup.to_set())) by {
        assert forall|x: usize| sub.to_set().contains(x) implies sup.to_set().contains(x) by {
            let p = choose|p: int| 0 <= p < sub.len() && sub[p] == x;
            assert(sup.contains(sub[p]));
        }
    }
    vstd::set_lib::lemma_len_subset(sub.to_set(), sup.to_set());
    sub.unique_seq_to_set();
    sup.lemma_cardinality_of_set();
}

/// A pending count never exceeds the number of edges.
pub proof fn lemma_pending_bound(edges: Seq<(usize, usize)>, m: usize, done: Set<usize>)
    ensures
        pending_in(edges, m, done) <= edges.len(),
    decreases edges.len(),
{
    if edges.len() > 0 {
        lemma_pending_bound(edges.drop_last(), m, done);
    }
}

/// A prefix one longer adds its last edge to the pending count when it is pending.
pub proof fn lemma_pending_take(edges: Seq<(usize, usize)>, m: usize, done: Set<usize>, k: int)
    requires
        0 <= k < edges.len(),
    ensures
        pending_in(edges.take(k + 1), m, done) == pending_in(edges.take(k), m, done) + if edges[k].1 == m
            && !done.contains(edges[k].0) {
            1nat
        } else {
            0nat
        },
{
    assert(edges.take(k + 1).drop_last() =~= edges.take(k));
}


/// A run order that takes the smallest ready member at each position never runs a later
/// member before another run order's member at that position.
proof fn lemma_smallest_first_bound(
    o1: Seq<usize>,
    o2: Seq<usize>,
    members: Seq<usize>,
    edges: Seq<(usize, usize)>,
    j: int,
)
    requires
        is_run_order(o1, members, edges),
        is_run_order(o2, members, edges),
        smallest_first(o2, members, edges),
        0 <= j < o1.len(),
        o1.take(j) == o2.take(j),
    ensures
        o2[j] <= o1[j],
{
    let x = o1[j];
    assert(members.contains(x));
    if o2.take(j).contains(x) {
        let i = choose|i: int| 0 <= i < o2.take(j).len() && o2.take(j)[i] == x;
        assert(o1.take(j)[i] == x);
        assert(o1[i] == x);
    }
    assert forall|k: int| 0 <= k < edges.len() && (#[trigger] edges[k]).1 == x implies o2.take(j).to_set().contains(
        edges[k].0,
    ) by {
        let i = choose|i: int| 0 <= i < j && o1[i] == edges[k].0;
        assert(o1.take(j)[i] == edges[k].0);
        assert(o2.take(j)[i] == edges[k].0);
        assert(o2.take(j).contains(edges[k].0));
    }
    assert(preds_within(edges, x, o2.take(j).to_set()));
}

/// Two smallest-first run orders agree on their first `j` entries.
proof fn lemma_prefixes_agree(o1: Seq<usize>, o2: Seq<usize>, members: Seq<usize>, edges: Seq<(usize, usize)>, j: int)
    requires
        is_run_order(o1, members, edges),
        smallest_first(o1, members, edges),
        is_run_order(o2, members, edges),
        smallest_first(o2, members, edges),
        0 <= j <= o1.len(),
    ensures
        o1.take(j) == o2.take(j),
    decreases j,
{
    if j == 0 {
        assert(o1.take(0) =~= o2.take(0));
    } else {
        lemma_prefixes_agree(o1, o2, members, edges, j - 1);
        lemma_smallest_first_bound(o1, o2, members, edges, j - 1);
        lemma_smallest_first_bound(o2, o1, members, edges, j - 1);
        assert(o1.take(j) =~= o1.take(j - 1).push(o1[j - 1]));
        assert(o2.take(j) =~= o2.take(j - 1).push(o2[j - 1]));
    }
}

/// Run orders are deterministic: there is only one run order of a stage's members that takes
/// the smallest ready member at every position.
pub proof fn law_run_order_unique(o1: Seq<usize>, o2: Seq<usize>, members: Seq<usize>, edges: Seq<(usize, usize)>)
    requires
        is_run_order(o1, members, edges),
        smallest_first(o1, members, edges),
        is_run_order(o2, members, edges),
        smallest_first(o2, members, edges),
    ensures
        o1 == o2,
{
    let n = o1.len() as int;
    lemma_prefixes_agree(o1, o2, members, edges, n);
    assert(o1.take(n) =~= o1);
    assert(o2.take(n) =~= o2);
}

} // verus!
