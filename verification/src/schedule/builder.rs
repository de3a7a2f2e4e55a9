//! Authoring graph of a schedule and its validation into a run order.
use vstd::prelude::*;

use core::any::TypeId;

use crate::operation::StageOperation;
use crate::resource::store::ResourceStore;
use crate::schedule::compiled::{CompiledSchedule, CompiledStage, CompiledSystem, Schedule};
use crate::schedule::condition::Condition;
use crate::schedule::error::BuildError;
use crate::schedule::owner::ScheduleOwner;
use crate::schedule::stage::{StageDescriptor, FIXED_UPDATE, RENDER, STARTUP, UPDATE};
use crate::schedule::system::{SystemId, SystemSet};
use crate::time::{FixedAccumulator, FixedConfig};
use crate::typeid::same_type_id;
use crate::schedule::graph::{
    edge_count, is_run_order, lemma_distinct_within_len, lemma_edge_count_prefix, lemma_edge_count_take,
    lemma_pending_bound, lemma_pending_insert, lemma_pending_take, lemma_pending_zero, lemma_stuck_has_no_order,
    pending_in, preds_within, respects_edges, smallest_first, count_true, is_walk, lemma_count_true_bound,
    lemma_count_true_set, lemma_walk_edge, lemma_walk_push, lemma_walk_stays, reaches, reaches_or_is,
};
use crate::schedule::system::{EventRole, EventRoleKind, FlushMode, System};
use crate::text::{same_text, string_views};
use crate::world::{RunGuard, WorldState};

verus! {

/// Names of the systems at `members`, in that order.
pub open spec fn member_names<B>(members: Seq<usize>, systems: Seq<System<B>>) -> Seq<Seq<char>> {
    members.map_values(|m: usize| systems[m as int].spec_name())
}

/// `e` reports a cycle among `members`, listing their names in member order.
pub open spec fn is_cycle_error<B>(e: BuildError, members: Seq<usize>, systems: Seq<System<B>>) -> bool {
    e matches BuildError::Cycle { path } && string_views(path@) == member_names(members, systems)
}

/// Removes and returns the smallest entry.
fn take_smallest(ready: &mut Vec<usize>) -> (r: usize)
    requires
        old(ready).len() > 0,
    ensures
        forall|i: int| 0 <= i < old(ready).len() ==> r <= old(ready)@[i],
        exists|p: int| 0 <= p < old(ready).len() && old(ready)@[p] == r && final(ready)@ == old(ready)@.remove(p),
{
    let mut best: usize = 0;
    let mut i: usize = 1;
    while i < ready.len()
        invariant
            best < i <= ready@.len(),
            forall|j: int| 0 <= j < i ==> ready@[best as int] <= ready@[j],
        decreases ready@.len() - i,
    {
        if ready[i] < ready[best] {
            best = i;
        }
        i = i + 1;
    }
    ready.remove(best)
}

/// The names of the systems at `members`.
fn names_of<B>(members: &Vec<usize>, systems: &Vec<System<B>>) -> (r: Vec<String>)
    requires
        forall|i: int| 0 <= i < members.len() ==> members@[i] < systems.len(),
    ensures
        string_views(r@) == member_names(members@, systems@),
{
    let mut names: Vec<String> = Vec::new();
    let mut i: usize = 0;
    while i < members.len()
        invariant
            i <= members@.len(),
            forall|j: int| 0 <= j < members.len() ==> members@[j] < systems.len(),
            names@.len() == i,
            string_views(names@) == member_names(members@.take(i as int), systems@),
        decreases members@.len() - i,
    {
        let name = systems[members[i]].name().to_owned();
        let ghost before = names@;
        names.push(name);
        proof {
            let t1 = members@.take(i + 1);
            let t0 = members@.take(i as int);
            assert(t1.drop_last() =~= t0);
            assert forall|j: int| 0 <= j < names@.len() implies #[trigger] string_views(names@)[j] == member_names(t1, systems@)[j] by {
                if j < i {
                    assert(names@[j] == before[j]);
                    assert(string_views(before)[j] == member_names(t0, systems@)[j]);
                    assert(t1[j] == t0[j]);
                } else {
                    assert(t1[j] == members@[i as int]);
                }
            }
            assert(string_views(names@) =~= member_names(t1, systems@));
        }
        i = i + 1;
    }
    proof {
        assert(members@.take(members@.len() as int) =~= members@);
    }
    names
}

/// Orders the systems of one stage so that every ordering edge is respected, always
/// running the smallest system index whose predecessors have all run. Fails with a cycle
/// naming the stage's systems when no such order exists.
pub fn topological_sort<B>(
    stage_members: &Vec<usize>,
    systems: &Vec<System<B>>,
    ordering_edges: &Vec<(usize, usize)>,
) -> (r: Result<Vec<usize>, BuildError>)
    requires
        stage_members@.no_duplicates(),
        forall|i: int| 0 <= i < stage_members.len() ==> stage_members@[i] < systems.len(),
        forall|k: int|
            0 <= k < ordering_edges.len() && stage_members@.contains((#[trigger] ordering_edges@[k]).0)
                ==> stage_members@.contains(ordering_edges@[k].1),
    ensures
        r matches Ok(order) ==> is_run_order(order@, stage_members@, ordering_edges@) && smallest_first(
            order@,
            stage_members@,
            ordering_edges@,
        ),
        r is Ok <==> exists|o: Seq<usize>| is_run_order(o, stage_members@, ordering_edges@),
        r matches Err(e) ==> is_cycle_error(e, stage_members@, systems@),
{
    let ghost members = stage_members@;
    let ghost edges = ordering_edges@;
    let n = systems.len();
    let mut is_member: Vec<bool> = Vec::new();
    let mut indeg: Vec<usize> = Vec::new();
    let mut i: usize = 0;
    while i < n
        invariant
            i <= n,
            is_member@.len() == i,
            indeg@.len() == i,
            forall|x: int| 0 <= x < i ==> !is_member@[x] && indeg@[x] == 0,
        decreases n - i,
    {
        is_member.push(false);
        indeg.push(0);
        i = i + 1;
    }
    i = 0;
    while i < stage_members.len()
        invariant
            n == systems.len(),
            i <= members.len(),
            members == stage_members@,
            forall|j: int| 0 <= j < members.len() ==> members[j] < n,
            is_member@.len() == n,
            indeg@.len() == n,
            forall|x: int| 0 <= x < n ==> indeg@[x] == 0,
            forall|x: usize| x < n ==> (is_member@[x as int] == members.take(i as int).contains(x)),
        decreases members.len() - i,
    {
        let m = stage_members[i];
        is_member.set(m, true);
        proof {
            let t0 = members.take(i as int);
            let t1 = members.take(i + 1);
            assert forall|x: usize| x < n implies (is_member@[x as int] == t1.contains(x)) by {
                if t1.contains(x) {
                    let p = choose|p: int| 0 <= p < t1.len() && t1[p] == x;
                    if p < i {
                        assert(t0[p] == x);
                    }
                }
                if t0.contains(x) {
                    let p = choose|p: int| 0 <= p < t0.len() && t0[p] == x;
                    assert(t1[p] == x);
                }
                if x == m {
                    assert(t1[i as int] == x);
                }
            }
        }
        i = i + 1;
    }
    proof {
        assert(members.take(members.len() as int) =~= members);
    }
    let mut k: usize = 0;
    while k < ordering_edges.len()
        invariant
            n == systems.len(),
            k <= edges.len(),
            edges == ordering_edges@,
            members == stage_members@,
            forall|j: int| 0 <= j < members.len() ==> members[j] < n,
            is_member@.len() == n,
            indeg@.len() == n,
            forall|x: usize| x < n ==> (is_member@[x as int] == members.contains(x)),
            forall|m: usize| #[trigger] members.contains(m) ==> indeg@[m as int] == pending_in(
                edges.take(k as int),
                m,
                Set::empty(),
            ),
        decreases edges.len() - k,
    {
        let to = ordering_edges[k].1;
        proof {
            assert forall|m: usize| #[trigger] members.contains(m) implies pending_in(edges.take(k + 1), m, Set::empty())
                == pending_in(edges.take(k as int), m, Set::empty()) + if edges[k as int].1 == m {
                1nat
            } else {
                0nat
            } by {
                lemma_pending_take(edges, m, Set::empty(), k as int);
            }
        }
        if to < n && is_member[to] {
            proof {
                assert(members.contains(to));
                lemma_pending_bound(edges.take(k as int), to, Set::empty());
                assert(edges.take(k as int).len() == k);
            }
            let next = indeg[to] + 1;
            indeg.set(to, next);
        }
        k = k + 1;
    }
    proof {
        assert(edges.take(edges.len() as int) =~= edges);
    }
    let mut ready: Vec<usize> = Vec::new();
    i = 0;
    while i < stage_members.len()
        invariant
            n == systems.len(),
            i <= members.len(),
            members == stage_members@,
            members.no_duplicates(),
            forall|j: int| 0 <= j < members.len() ==> members[j] < n,
            indeg@.len() == n,
            ready@.no_duplicates(),
            forall|x: usize| ready@.contains(x) <==> (members.take(i as int).contains(x) && indeg@[x as int] == 0),
        decreases members.len() - i,
    {
        let m = stage_members[i];
        let ghost before = ready@;
        let ghost t0 = members.take(i as int);
        let ghost t1 = members.take(i + 1);
        proof {
            assert(t1 =~= t0.push(m));
            assert(!t0.contains(m)) by {
                if t0.contains(m) {
                    let p = choose|p: int| 0 <= p < t0.len() && t0[p] == m;
                    assert(members[p] == members[i as int]);
                }
            }
        }
        if indeg[m] == 0 {
            ready.push(m);
            proof {
                assert(ready@ == before.push(m));
                assert forall|a: int, b: int| 0 <= a < ready@.len() && 0 <= b < ready@.len() && a != b implies ready@[a] != ready@[b] by {
                    if a < before.len() && b < before.len() {
                        assert(before[a] != before[b]);
                    } else if a < before.len() {
                        assert(before.contains(before[a]));
                    } else if b < before.len() {
                        assert(before.contains(before[b]));
                    }
                }
                assert forall|x: usize| ready@.contains(x) <==> (t1.contains(x) && indeg@[x as int] == 0) by {
                    if ready@.contains(x) {
                        let p = choose|p: int| 0 <= p < ready@.len() && ready@[p] == x;
                        if p < before.len() {
                            assert(before.contains(before[p]));
                            let q = choose|q: int| 0 <= q < t0.len() && t0[q] == x;
                            assert(t1[q] == x);
                        } else {
                            assert(t1[i as int] == x);
                        }
                    }
                    if t1.contains(x) && indeg@[x as int] == 0 {
                        let q = choose|q: int| 0 <= q < t1.len() && t1[q] == x;
                        if q < i {
                            assert(t0[q] == x);
                            assert(before.contains(x));
                            let p = choose|p: int| 0 <= p < before.len() && before[p] == x;
                            assert(ready@[p] == x);
                        } else {
                            assert(ready@[before.len() as int] == x);
                        }
                    }
                }
            }
        } else {
            proof {
                assert forall|x: usize| ready@.contains(x) <==> (t1.contains(x) && indeg@[x as int] == 0) by {
                    if ready@.contains(x) {
                        let q = choose|q: int| 0 <= q < t0.len() && t0[q] == x;
                        assert(t1[q] == x);
                    }
                    if t1.contains(x) && indeg@[x as int] == 0 {
                        let q = choose|q: int| 0 <= q < t1.len() && t1[q] == x;
                        if q < i {
                            assert(t0[q] == x);
                        }
                    }
                }
            }
        }
        i = i + 1;
    }
    proof {
        assert(members.take(members.len() as int) =~= members);
    }
    let mut order: Vec<usize> = Vec::new();
    let ghost mut done: Set<usize> = Set::empty();
    proof {
        assert(order@.to_set() =~= done);
        assert forall|j: int| 0 <= j < ready.len() implies members.contains(#[trigger] ready@[j]) && !done.contains(ready@[j])
            && indeg@[ready@[j] as int] == 0 by {
            assert(ready@.contains(ready@[j]));
        }
        assert forall|m: usize| #[trigger] members.contains(m) && !done.contains(m) && indeg@[m as int] == 0 implies ready@.contains(m) by {
            assert(members.take(members.len() as int).contains(m));
        }
        assert forall|m: usize| #[trigger] members.contains(m) && !done.contains(m) implies indeg@[m as int] == pending_in(edges, m, done) by {
            assert(done =~= Set::<usize>::empty());
        }
    }
    while ready.len() > 0
        invariant
            n == systems.len(),
            members == stage_members@,
            edges == ordering_edges@,
            members.no_duplicates(),
            forall|j: int| 0 <= j < members.len() ==> members[j] < n,
            forall|kk: int| 0 <= kk < edges.len() && members.contains((#[trigger] edges[kk]).0) ==> members.contains(edges[kk].1),
            indeg@.len() == n,
            order@.no_duplicates(),
            forall|j: int| 0 <= j < order.len() ==> members.contains(#[trigger] order@[j]),
            done == order@.to_set(),
            forall|m: usize| #[trigger] members.contains(m) && !done.contains(m) ==> indeg@[m as int] == pending_in(
                edges,
                m,
                done,
            ),
            ready@.no_duplicates(),
            forall|j: int|
                0 <= j < ready.len() ==> members.contains(#[trigger] ready@[j]) && !done.contains(ready@[j])
                    && indeg@[ready@[j] as int] == 0,
            forall|m: usize| #[trigger] members.contains(m) && !done.contains(m) && indeg@[m as int] == 0 ==> ready@.contains(m),
            respects_edges(order@, edges),
            smallest_first(order@, members, edges),
        decreases members.len() - order.len(),
    {
        let ghost old_order = order@;
        let ghost old_ready = ready@;
        let index = take_smallest(&mut ready);
        proof {
            let p = choose|p: int| 0 <= p < old_ready.len() && old_ready[p] == index && ready@ == old_ready.remove(p);
            assert(members.contains(old_ready[p]));
            assert forall|j: int| 0 <= j < ready.len() implies members.contains(#[trigger] ready@[j]) && !done.contains(ready@[j])
                && indeg@[ready@[j] as int] == 0 && ready@[j] != index by {
                if j < p {
                    assert(ready@[j] == old_ready[j]);
                } else {
                    assert(ready@[j] == old_ready[j + 1]);
                }
            }
            assert forall|m: usize| #[trigger] members.contains(m) && !done.contains(m) && indeg@[m as int] == 0 && m != index
                implies ready@.contains(m) by {
                let q = choose|q: int| 0 <= q < old_ready.len() && old_ready[q] == m;
                if q < p {
                    assert(ready@[q] == m);
                } else {
                    assert(q != p);
                    assert(ready@[q - 1] == m);
                }
            }
            assert forall|a: int, b: int| 0 <= a < ready@.len() && 0 <= b < ready@.len() && a != b implies ready@[a] != ready@[b] by {
                let oa = if a < p { a } else { a + 1 };
                let ob = if b < p { b } else { b + 1 };
                assert(ready@[a] == old_ready[oa] && ready@[b] == old_ready[ob]);
            }
            // The chosen system's predecessors have all run.
            lemma_pending_zero(edges, index, done);
            // It is the smallest such system.
            assert forall|m: usize|
                #[trigger] members.contains(m) && !old_order.contains(m) && preds_within(edges, m, old_order.to_set())
                implies index <= m by {
                assert(!done.contains(m));
                lemma_pending_zero(edges, m, done);
                assert(old_ready.contains(m));
                let q = choose|q: int| 0 <= q < old_ready.len() && old_ready[q] == m;
            }
        }
        order.push(index);
        proof {
            let new_order = order@;
            let j0 = old_order.len() as int;
            assert(new_order.take(j0) =~= old_order);
            assert forall|a: int, b: int| 0 <= a < new_order.len() && 0 <= b < new_order.len() && a != b implies new_order[a]
                != new_order[b] by {
                if a < j0 && b < j0 {
                    assert(old_order[a] != old_order[b]);
                } else if a < j0 {
                    assert(done.contains(old_order[a]));
                } else if b < j0 {
                    assert(done.contains(old_order[b]));
                }
            }
            assert forall|j: int, kk: int|
                0 <= j < new_order.len() && 0 <= kk < edges.len() && (#[trigger] edges[kk]).1 == #[trigger] new_order[j]
                implies exists|ii: int| 0 <= ii < j && new_order[ii] == edges[kk].0 by {
                if j < j0 {
                    let ii = choose|ii: int| 0 <= ii < j && old_order[ii] == edges[kk].0;
                    assert(new_order[ii] == edges[kk].0);
                } else {
                    assert(done.contains(edges[kk].0));
                    let ii = choose|ii: int| 0 <= ii < old_order.len() && old_order[ii] == edges[kk].0;
                    assert(new_order[ii] == edges[kk].0);
                }
            }
            assert forall|j: int, m: usize|
                0 <= j < new_order.len() && #[trigger] members.contains(m) && !(#[trigger] new_order.take(j)).contains(m)
                    && preds_within(edges, m, new_order.take(j).to_set()) implies new_order[j] <= m by {
                if j < j0 {
                    assert(new_order.take(j) =~= old_order.take(j));
                    assert(old_order.take(j) == old_order.take(j));
                    assert(members.contains(m) && !old_order.take(j).contains(m) && preds_within(edges, m, old_order.take(j).to_set()));
                } else {
                    assert(new_order.take(j) =~= old_order);
                }
            }
            assert forall|jj: int| 0 <= jj < new_order.len() implies members.contains(#[trigger] new_order[jj]) by {
                if jj < j0 {
                    assert(new_order[jj] == old_order[jj]);
                }
            }
            lemma_distinct_within_len(new_order, members);
        }
        let ghost done2 = done.insert(index);
        proof {
            assert(order@.to_set() =~= done2);
            assert forall|j: int| 0 <= j < order@.len() - 1 implies done.contains(#[trigger] order@[j]) by {
                assert(order@[j] == old_order[j]);
                assert(old_order.contains(old_order[j]));
            }
            assert forall|x: usize| done.contains(x) implies exists|j: int| 0 <= j < order@.len() - 1 && order@[j] == x by {
                assert(old_order.to_set().contains(x));
                let j = choose|j: int| 0 <= j < old_order.len() && old_order[j] == x;
                assert(order@[j] == x);
            }
        }
        let mut e: usize = 0;
        while e < ordering_edges.len()
            invariant
                n == systems.len(),
                members == stage_members@,
                edges == ordering_edges@,
                e <= edges.len(),
                forall|j: int| 0 <= j < members.len() ==> members[j] < n,
                forall|kk: int| 0 <= kk < edges.len() && members.contains((#[trigger] edges[kk]).0) ==> members.contains(edges[kk].1),
                members.contains(index),
                !done.contains(index),
                done2 == done.insert(index),
                respects_edges(order@, edges),
                done2 == order@.to_set(),
                order@.len() >= 1,
                order@[order@.len() - 1] == index,
                forall|j: int| 0 <= j < order@.len() - 1 ==> done.contains(#[trigger] order@[j]),
                forall|x: usize| done.contains(x) ==> exists|j: int| 0 <= j < order@.len() - 1 && order@[j] == x,
                indeg@.len() == n,
                pending_in(edges, index, done) == 0,
                forall|m: usize| #[trigger] members.contains(m) && !done2.contains(m) ==> indeg@[m as int] + edge_count(
                    edges.take(e as int),
                    index,
                    m,
                ) == pending_in(edges, m, done),
                ready@.no_duplicates(),
                forall|j: int|
                    0 <= j < ready.len() ==> members.contains(#[trigger] ready@[j]) && !done2.contains(ready@[j])
                        && indeg@[ready@[j] as int] == 0,
                forall|m: usize| #[trigger] members.contains(m) && !done2.contains(m) && indeg@[m as int] == 0 ==> ready@.contains(m),
            decreases edges.len() - e,
        {
            let edge = ordering_edges[e];
            proof {
                assert forall|m: usize| #[trigger] members.contains(m) && !done2.contains(m) implies edge_count(edges.take(e + 1), index, m)
                    == edge_count(edges.take(e as int), index, m) + if edges[e as int] == (index, m) {
                    1nat
                } else {
                    0nat
                } by {
                    lemma_edge_count_take(edges, index, m, e as int);
                }
            }
            if edge.0 == index {
                let to = edge.1;
                proof {
                    assert(members.contains(edges[e as int].0));
                    assert(members.contains(to));
                    // The target has not run: a run system's predecessors all ran before it.
                    if done.contains(to) {
                        let jj = choose|jj: int| 0 <= jj < order@.len() - 1 && order@[jj] == to;
                        assert(edges[e as int].1 == order@[jj]);
                        let ii = choose|ii: int| 0 <= ii < jj && order@[ii] == edges[e as int].0;
                        assert(done.contains(order@[ii]));
                    }
                    if to == index {
                        lemma_pending_zero(edges, index, done);
                        assert(edges[e as int].1 == index);
                    }
                    lemma_pending_insert(edges, to, done, index);
                    lemma_edge_count_prefix(edges, index, to, e + 1);
                }
                let next = indeg[to] - 1;
                indeg.set(to, next);
                if next == 0 {
                    proof {
                        if ready@.contains(to) {
                            let q = choose|q: int| 0 <= q < ready@.len() && ready@[q] == to;
                        }
                    }
                    let ghost before = ready@;
                    ready.push(to);
                    proof {
                        assert forall|a: int, b: int| 0 <= a < ready@.len() && 0 <= b < ready@.len() && a != b implies ready@[a]
                            != ready@[b] by {
                            if a < before.len() && b < before.len() {
                                assert(before[a] != before[b]);
                            } else if a < before.len() {
                                assert(indeg@[before[a] as int] == 0);
                            } else if b < before.len() {
                                assert(indeg@[before[b] as int] == 0);
                            }
                        }
                        assert forall|m: usize| #[trigger] members.contains(m) && !done2.contains(m) && indeg@[m as int] == 0
                            implies ready@.contains(m) by {
                            if m != to {
                                let q = choose|q: int| 0 <= q < before.len() && before[q] == m;
                                assert(ready@[q] == m);
                            } else {
                                assert(ready@[before.len() as int] == m);
                            }
                        }
                    }
                }
            }
            e = e + 1;
        }
        proof {
            assert(edges.take(edges.len() as int) =~= edges);
            assert forall|m: usize| #[trigger] members.contains(m) && !done2.contains(m) implies indeg@[m as int] == pending_in(
                edges,
                m,
                done2,
            ) by {
                lemma_pending_insert(edges, m, done, index);
            }
            done = done2;
        }
    }
    if order.len() == stage_members.len() {
        proof {
            assert(is_run_order(order@, members, edges));
        }
        return Ok(order);
    }
    proof {
        assert(order@.len() < members.len()) by {
            lemma_distinct_within_len(order@, members);
        }
        // Some member never ran.
        assert(exists|m: usize| members.contains(m) && !order@.contains(m)) by {
            if forall|m: usize| members.contains(m) ==> order@.contains(m) {
                assert forall|j: int| 0 <= j < members.len() implies order@.contains(#[trigger] members[j]) by {
                    assert(members.contains(members[j]));
                }
                lemma_distinct_within_len(members, order@);
            }
        }
        let witness = choose|m: usize| members.contains(m) && !order@.contains(m);
        assert(!done.contains(witness));
        // Every member that never ran waits on a system that never ran.
        assert forall|m: usize| #[trigger] members.contains(m) && !done.contains(m) implies exists|kk: int|
            0 <= kk < edges.len() && edges[kk].1 == m && !done.contains(edges[kk].0) by {
            lemma_pending_zero(edges, m, done);
        }
        assert forall|o: Seq<usize>| !is_run_order(o, members, edges) by {
            lemma_stuck_has_no_order(members, edges, done, o, witness);
        }
    }
    let names = names_of(stage_members, systems);
    Err(BuildError::Cycle { path: names })
}

/// Whether a walk of one ordering edge or more leads from system `from` to system `to`.
pub fn has_explicit_path(from: usize, to: usize, system_count: usize, ordering_edges: &Vec<(usize, usize)>) -> (r: bool)
    requires
        from < system_count,
        forall|k: int|
            0 <= k < ordering_edges.len() ==> (#[trigger] ordering_edges@[k]).0 < system_count && ordering_edges@[k].1
                < system_count,
    ensures
        r == reaches(ordering_edges@, from, to),
{
    let ghost edges = ordering_edges@;
    let n = system_count;
    let mut visited: Vec<bool> = Vec::new();
    let mut i: usize = 0;
    while i < n
        invariant
            i <= n,
            visited@.len() == i,
            forall|x: int| 0 <= x < i ==> !visited@[x],
        decreases n - i,
    {
        visited.push(false);
        i = i + 1;
    }
    let mut pending: Vec<usize> = Vec::new();
    pending.push(from);
    proof {
        lemma_count_true_bound(visited@);
        assert(is_walk(edges, seq![from]));
        assert(pending@[0] == from);
    }
    while pending.len() > 0
        invariant
            n == system_count,
            from < n,
            edges == ordering_edges@,
            forall|k: int| 0 <= k < edges.len() ==> (#[trigger] edges[k]).0 < n && edges[k].1 < n,
            visited@.len() == n,
            count_true(visited@) <= n,
            forall|j: int| 0 <= j < pending.len() ==> (#[trigger] pending@[j]) < n && reaches_or_is(edges, from, pending@[j]),
            forall|x: int| 0 <= x < n && #[trigger] visited@[x] ==> reaches_or_is(edges, from, x as usize),
            forall|k: int|
                0 <= k < edges.len() && visited@[(#[trigger] edges[k]).0 as int] ==> visited@[edges[k].1 as int]
                    || pending@.contains(edges[k].1),
            forall|k: int| 0 <= k < edges.len() && visited@[(#[trigger] edges[k]).0 as int] ==> edges[k].1 != to,
            visited@[from as int] || pending@.contains(from),
        decreases n - count_true(visited@), pending.len(),
    {
        let ghost before = pending@;
        let current = pending.pop().unwrap();
        proof {
            assert(pending@ == before.drop_last());
            assert(current == before[before.len() - 1]);
            assert forall|x: usize| before.contains(x) && x != current implies pending@.contains(x) by {
                let p = choose|p: int| 0 <= p < before.len() && before[p] == x;
                assert(p != before.len() - 1);
                assert(pending@[p] == x);
            }
        }
        if visited[current] {
            continue;
        }
        proof {
            lemma_count_true_set(visited@, current as int);
            lemma_count_true_bound(visited@.update(current as int, true));
        }
        let ghost reach_current = reaches_or_is(edges, from, current);
        visited.set(current, true);
        let ghost base = pending@;
        let mut k: usize = 0;
        while k < ordering_edges.len()
            invariant
                n == system_count,
                from < n,
                current < n,
                edges == ordering_edges@,
                forall|kk: int| 0 <= kk < edges.len() ==> (#[trigger] edges[kk]).0 < n && edges[kk].1 < n,
                k <= edges.len(),
                visited@.len() == n,
                visited@[current as int],
                count_true(visited@) <= n,
                reaches_or_is(edges, from, current),
                forall|j: int| 0 <= j < pending.len() ==> (#[trigger] pending@[j]) < n && reaches_or_is(edges, from, pending@[j]),
                forall|x: int| 0 <= x < n && #[trigger] visited@[x] ==> reaches_or_is(edges, from, x as usize),
                forall|x: usize| base.contains(x) ==> pending@.contains(x),
                forall|kk: int|
                    0 <= kk < edges.len() && (#[trigger] edges[kk]).0 != current && visited@[edges[kk].0 as int]
                        ==> visited@[edges[kk].1 as int] || base.contains(edges[kk].1),
                forall|kk: int|
                    0 <= kk < edges.len() && (#[trigger] edges[kk]).0 != current && visited@[edges[kk].0 as int] ==> edges[kk].1 != to,
                forall|kk: int| 0 <= kk < k && (#[trigger] edges[kk]).0 == current ==> pending@.contains(edges[kk].1) && edges[kk].1 != to,
                visited@[from as int] || pending@.contains(from),
            decreases edges.len() - k,
        {
            let edge = ordering_edges[k];
            if edge.0 == current {
                let ghost w = choose|p: Seq<usize>| #[trigger] is_walk(edges, p) && p.len() >= 1 && p[0] == from && p.last() == current;
                proof {
                    assert(edges[k as int] == (current, edge.1));
                    assert(edges.contains((w.last(), edge.1)));
                    lemma_walk_push(edges, w, edge.1);
                    assert(w.push(edge.1)[0] == from);
                }
                if edge.1 == to {
                    proof {
                        assert(is_walk(edges, w.push(to)) && w.push(to).len() >= 2 && w.push(to)[0] == from && w.push(to).last() == to);
                    }
                    return true;
                }
                let ghost pre = pending@;
                pending.push(edge.1);
                proof {
                    assert(is_walk(edges, w.push(edge.1)) && w.push(edge.1).len() >= 1 && w.push(edge.1)[0] == from
                        && w.push(edge.1).last() == edge.1);
                    assert forall|x: usize| pre.contains(x) implies pending@.contains(x) by {
                        let p = choose|p: int| 0 <= p < pre.len() && pre[p] == x;
                        assert(pending@[p] == x);
                    }
                    assert(pending@[pre.len() as int] == edge.1);
                }
            }
            k = k + 1;
        }
        proof {
            assert forall|kk: int|
                0 <= kk < edges.len() && visited@[(#[trigger] edges[kk]).0 as int] implies visited@[edges[kk].1 as int]
                    || pending@.contains(edges[kk].1) by {
                if edges[kk].0 != current {
                    if !visited@[edges[kk].1 as int] {
                        assert(base.contains(edges[kk].1));
                    }
                }
            }
        }
    }
    proof {
        if reaches(edges, from, to) {
            let p = choose|p: Seq<usize>| #[trigger] is_walk(edges, p) && p.len() >= 2 && p[0] == from && p.last() == to;
            let within = Set::new(|x: usize| x < n && visited@[x as int]);
            assert forall|kk: int| 0 <= kk < edges.len() && within.contains((#[trigger] edges[kk]).0) implies within.contains(edges[kk].1) by {
                if !visited@[edges[kk].1 as int] {
                    assert(pending@.contains(edges[kk].1));
                }
            }
            lemma_walk_stays(edges, p, within);
            let last = p.len() - 2;
            lemma_walk_edge(edges, p, last);
            assert(within.contains(p[last]));
            let kk = choose|kk: int| 0 <= kk < edges.len() && edges[kk] == (p[last], p[last + 1]);
            assert(edges[kk].1 == to);
        }
    }
    false
}

/// Whether a stage of `operation` may use flush `mode`: Update stages final or per-stage
/// flushing, Render stages only final flushing.
pub open spec fn stage_flush_allowed(operation: StageOperation, mode: FlushMode) -> bool {
    match operation {
        StageOperation::Update => mode == FlushMode::Final || mode == FlushMode::Stage,
        StageOperation::Render => mode == FlushMode::Final,
    }
}

/// Whether a system's flush mode is allowed in a stage of `operation`: final flushing
/// always, flushing after the system only in Update stages.
pub open spec fn system_flush_allowed(mode: FlushMode, operation: StageOperation) -> bool {
    mode == FlushMode::Final || (mode == FlushMode::AfterSystem && operation == StageOperation::Update)
}

/// Checks a system's flush mode against the operation of its stage.
pub fn validate_system_flush_mode<B>(system: &System<B>, operation: StageOperation) -> (r: Result<(), BuildError>)
    ensures
        system_flush_allowed(system.spec_flush_mode(), operation) ==> r is Ok,
        !system_flush_allowed(system.spec_flush_mode(), operation) ==> (r matches Err(BuildError::InvalidSystemFlushMode {
            label,
            mode,
        }) && label@ == system.spec_name() && mode == system.spec_flush_mode()),
{
    let mode = system.flush_mode_value();
    let valid = match mode {
        FlushMode::Final => true,
        FlushMode::AfterSystem => operation == StageOperation::Update,
        FlushMode::Stage => false,
    };
    if valid {
        Ok(())
    } else {
        Err(BuildError::InvalidSystemFlushMode { label: system.name().to_owned(), mode })
    }
}

/// Whether `label` is among the registered set labels.
pub fn ensure_set_label(sets: &Vec<String>, label: &str) -> (r: Result<(), BuildError>)
    ensures
        string_views(sets@).contains(label@) ==> r is Ok,
        !string_views(sets@).contains(label@) ==> (r matches Err(BuildError::UnknownSystemSet { label: l })
            && l@ == label@),
{
    let mut i: usize = 0;
    while i < sets.len()
        invariant
            i <= sets@.len(),
            forall|j: int| 0 <= j < i ==> sets@[j]@ != label@,
        decreases sets@.len() - i,
    {
        if same_text(sets[i].as_str(), label) {
            proof {
                assert(string_views(sets@)[i as int] == label@);
            }
            return Ok(());
        }
        i = i + 1;
    }
    proof {
        if string_views(sets@).contains(label@) {
            let j = choose|j: int| 0 <= j < sets@.len() && string_views(sets@)[j] == label@;
            assert(sets@[j]@ == label@);
        }
    }
    Err(BuildError::UnknownSystemSet { label: label.to_owned() })
}

/// Lexicographic order on edges.
pub open spec fn edge_lt(a: (usize, usize), b: (usize, usize)) -> bool {
    a.0 < b.0 || (a.0 == b.0 && a.1 < b.1)
}

/// `edges` is strictly increasing, so without repeats.
pub open spec fn strictly_sorted(edges: Seq<(usize, usize)>) -> bool {
    forall|i: int, j: int| 0 <= i < j < edges.len() ==> edge_lt(#[trigger] edges[i], #[trigger] edges[j])
}

/// Adds `edge` to a strictly increasing edge list, keeping it so.
#[verifier::spinoff_prover]
fn insert_edge(edges: &mut Vec<(usize, usize)>, edge: (usize, usize))
    requires
        strictly_sorted(old(edges)@),
    ensures
        strictly_sorted(final(edges)@),
        forall|e: (usize, usize)| final(edges)@.contains(e) <==> (old(edges)@.contains(e) || e == edge),
{
    let mut i: usize = 0;
    loop
        invariant_except_break
            i <= edges@.len(),
            strictly_sorted(edges@),
            edges@ == old(edges)@,
            forall|j: int| 0 <= j < i ==> edge_lt(#[trigger] edges@[j], edge),
        ensures
            i <= edges@.len(),
            strictly_sorted(edges@),
            edges@ == old(edges)@,
            forall|j: int| 0 <= j < i ==> edge_lt(#[trigger] edges@[j], edge),
            i < edges@.len() ==> edge_lt(edge, edges@[i as int]),
        decreases edges@.len() - i,
    {
        if i >= edges.len() {
            break;
        }
        let current = edges[i];
        if current.0 == edge.0 && current.1 == edge.1 {
            proof {
                assert(edges@[i as int] == edge);
                assert(old(edges)@.contains(edge));
            }
            return;
        }
        if edge.0 < current.0 || (edge.0 == current.0 && edge.1 < current.1) {
            break;
        }
        i = i + 1;
    }
    let ghost pre = edges@;
    edges.insert(i, edge);
    proof {
        assert forall|a: int, b: int| 0 <= a < b < edges@.len() implies edge_lt(#[trigger] edges@[a], #[trigger] edges@[b]) by {
            if b < i {
                assert(edges@[a] == pre[a] && edges@[b] == pre[b]);
            } else if b == i {
                assert(edges@[a] == pre[a]);
            } else if a == i {
                assert(edges@[b] == pre[b - 1]);
                if b - 1 > i {
                    assert(edge_lt(pre[i as int], pre[b - 1]));
                }
            } else if a < i {
                assert(edges@[a] == pre[a] && edges@[b] == pre[b - 1]);
            } else {
                assert(edges@[a] == pre[a - 1] && edges@[b] == pre[b - 1]);
            }
        }
        assert forall|e: (usize, usize)| edges@.contains(e) <==> (pre.contains(e) || e == edge) by {
            if edges@.contains(e) {
                let k = choose|k: int| 0 <= k < edges@.len() && edges@[k] == e;
                if k < i {
                    assert(pre[k] == e);
                } else if k > i {
                    assert(pre[k - 1] == e);
                }
            }
            if pre.contains(e) {
                let k = choose|k: int| 0 <= k < pre.len() && pre[k] == e;
                if k < i {
                    assert(edges@[k] == e);
                } else {
                    assert(edges@[k + 1] == e);
                }
            }
            if e == edge {
                assert(edges@[i as int] == e);
            }
        }
        assert(pre == old(edges)@);
        assert(forall|e: (usize, usize)| edges@.contains(e) <==> (old(edges)@.contains(e) || e == edge));
    }
}

/// An ordering edge may join two distinct systems of one stage.
pub open spec fn edge_allowed<B>(systems: Seq<System<B>>, from: int, to: int) -> bool {
    from != to && systems[from].spec_stage() == systems[to].spec_stage()
}

/// Records the ordering edge `from -> to`, refusing a self edge or one across stages.
pub fn push_ordering_edge<B>(
    edges: &mut Vec<(usize, usize)>,
    from: usize,
    to: usize,
    systems: &Vec<System<B>>,
) -> (r: Result<(), BuildError>)
    requires
        from < systems.len(),
        to < systems.len(),
        strictly_sorted(old(edges)@),
    ensures
        strictly_sorted(final(edges)@),
        r is Ok <==> edge_allowed(systems@, from as int, to as int),
        r is Ok ==> forall|e: (usize, usize)| final(edges)@.contains(e) <==> (old(edges)@.contains(e) || e == (from, to)),
        r is Err ==> final(edges)@ == old(edges)@,
        from == to ==> (r matches Err(BuildError::SelfEdge { label }) && label@ == systems@[from as int].spec_name()),
        from != to && !edge_allowed(systems@, from as int, to as int) ==> (r matches Err(
            BuildError::CrossStageSystemEdge { from: f, to: t },
        ) && f@ == systems@[from as int].spec_name() && t@ == systems@[to as int].spec_name()),
{
    if from == to {
        return Err(BuildError::SelfEdge { label: systems[from].name().to_owned() });
    }
    if !same_text(systems[from].stage_label(), systems[to].stage_label()) {
        return Err(
            BuildError::CrossStageSystemEdge {
                from: systems[from].name().to_owned(),
                to: systems[to].name().to_owned(),
            },
        );
    }
    insert_edge(edges, (from, to));
    Ok(())
}

/// `e` is what refusing the edge `a -> b` reports: a self edge names the system, an edge
/// across stages names both ends.
pub open spec fn edge_failure<B>(systems: Seq<System<B>>, a: int, b: int, e: BuildError) -> bool {
    ||| a == b && (e matches BuildError::SelfEdge { label } && label@ == systems[a].spec_name())
    ||| a != b && !edge_allowed(systems, a, b) && (e matches BuildError::CrossStageSystemEdge { from, to } && from@
        == systems[a].spec_name() && to@ == systems[b].spec_name())
}

/// The edge between system `i` and system `t` may be recorded: from `i` when `forward`,
/// towards `i` otherwise.
pub open spec fn member_edge_allowed<B>(systems: Seq<System<B>>, i: int, t: int, forward: bool) -> bool {
    if forward {
        edge_allowed(systems, i, t)
    } else {
        edge_allowed(systems, t, i)
    }
}

/// `e` is what refusing the edge between system `i` and system `t` reports.
pub open spec fn member_edge_failure<B>(systems: Seq<System<B>>, i: int, t: int, forward: bool, e: BuildError) -> bool {
    if forward {
        edge_failure(systems, i, t, e)
    } else {
        edge_failure(systems, t, i, e)
    }
}

/// System `t` belongs to the set labelled `label` and its edge with system `i` is refused.
pub open spec fn member_refused<B>(systems: Seq<System<B>>, i: int, label: Seq<char>, forward: bool, t: int) -> bool {
    systems[t].spec_in_set() == Some(label) && !member_edge_allowed(systems, i, t, forward)
}

/// `e` is what the first refused edge between system `i` and a member of the set labelled
/// `label` reports, members taken in order.
pub open spec fn first_member_failure<B>(systems: Seq<System<B>>, i: int, label: Seq<char>, forward: bool, e: BuildError) -> bool {
    exists|t: int|
        #![trigger member_refused(systems, i, label, forward, t)]
        0 <= t < systems.len() && member_refused(systems, i, label, forward, t) && (forall|u: int|
            0 <= u < t ==> !#[trigger] member_refused(systems, i, label, forward, u)) && member_edge_failure(
            systems,
            i,
            t,
            forward,
            e,
        )
}

/// Position of the system labelled `label`.
pub open spec fn index_named<B>(systems: Seq<System<B>>, label: Seq<char>) -> int {
    choose|j: int| 0 <= j < systems.len() && (#[trigger] systems[j]).spec_name() == label
}

/// With distinct labels, the system labelled `label` is the one at `j`.
proof fn lemma_index_named<B>(systems: Seq<System<B>>, label: Seq<char>, j: int)
    requires
        names_unique(systems),
        0 <= j < systems.len(),
        systems[j].spec_name() == label,
    ensures
        index_named(systems, label) == j,
        names_system(systems, label),
{
    let k = index_named(systems, label);
    assert(0 <= k < systems.len() && systems[k].spec_name() == label);
}

/// An ordering label of system `i` fails: it names no system, or the edge between `i` and
/// the system it names is refused ("run before" labels when `forward`).
pub open spec fn label_refused<B>(systems: Seq<System<B>>, i: int, label: Seq<char>, forward: bool) -> bool {
    !names_system(systems, label) || !member_edge_allowed(systems, i, index_named(systems, label), forward)
}

/// `e` is what a refused ordering label of system `i` reports.
pub open spec fn label_error<B>(systems: Seq<System<B>>, i: int, label: Seq<char>, forward: bool, e: BuildError) -> bool {
    if !names_system(systems, label) {
        e matches BuildError::UnknownSystem { label: l } && l@ == label
    } else {
        member_edge_failure(systems, i, index_named(systems, label), forward, e)
    }
}

/// `e` is what the first refused label of `labels` (ordering labels of system `i`) reports.
pub open spec fn first_label_error<B>(systems: Seq<System<B>>, i: int, labels: Seq<Seq<char>>, forward: bool, e: BuildError) -> bool {
    exists|k: int|
        #![trigger labels[k]]
        0 <= k < labels.len() && label_refused(systems, i, labels[k], forward) && (forall|l: int|
            0 <= l < k ==> !label_refused(systems, i, #[trigger] labels[l], forward)) && label_error(
            systems,
            i,
            labels[k],
            forward,
            e,
        )
}

/// An ordering set label of system `i` fails: it is not registered, or the edge between
/// `i` and some member of the set is refused.
pub open spec fn set_label_refused<B>(systems: Seq<System<B>>, sets: Seq<Seq<char>>, i: int, label: Seq<char>, forward: bool) -> bool {
    !sets.contains(label) || exists|t: int| 0 <= t < systems.len() && #[trigger] member_refused(systems, i, label, forward, t)
}

/// `e` is what a refused ordering set label of system `i` reports.
pub open spec fn set_label_error<B>(
    systems: Seq<System<B>>,
    sets: Seq<Seq<char>>,
    i: int,
    label: Seq<char>,
    forward: bool,
    e: BuildError,
) -> bool {
    if !sets.contains(label) {
        e matches BuildError::UnknownSystemSet { label: l } && l@ == label
    } else {
        first_member_failure(systems, i, label, forward, e)
    }
}

/// `e` is what the first refused set label of system `i` reports: its "run before" sets
/// when `forward`, its "run after" sets otherwise.
pub open spec fn first_set_label_error<B>(systems: Seq<System<B>>, sets: Seq<Seq<char>>, i: int, forward: bool, e: BuildError) -> bool {
    let labels = set_labels_of(systems[i], forward);
    exists|k: int|
        #![trigger labels[k]]
        0 <= k < labels.len() && set_label_refused(systems, sets, i, labels[k], forward) && (forall|l: int|
            0 <= l < k ==> !set_label_refused(systems, sets, i, #[trigger] labels[l], forward)) && set_label_error(
            systems,
            sets,
            i,
            labels[k],
            forward,
            e,
        )
}

/// Some label of `labels` (ordering labels of system `i`) is refused.
pub open spec fn some_label_refused<B>(systems: Seq<System<B>>, i: int, labels: Seq<Seq<char>>, forward: bool) -> bool {
    exists|k: int| 0 <= k < labels.len() && label_refused(systems, i, #[trigger] labels[k], forward)
}

/// Some set label of system `i` is refused.
pub open spec fn some_set_label_refused<B>(systems: Seq<System<B>>, sets: Seq<Seq<char>>, i: int, forward: bool) -> bool {
    exists|k: int|
        0 <= k < set_labels_of(systems[i], forward).len() && set_label_refused(
            systems,
            sets,
            i,
            #[trigger] set_labels_of(systems[i], forward)[k],
            forward,
        )
}

/// The ordering declarations of system `i` fail somewhere.
pub open spec fn system_ordering_refused<B>(systems: Seq<System<B>>, sets: Seq<Seq<char>>, i: int) -> bool {
    ||| some_label_refused(systems, i, systems[i].spec_before(), true)
    ||| some_label_refused(systems, i, systems[i].spec_after(), false)
    ||| some_set_label_refused(systems, sets, i, true)
    ||| some_set_label_refused(systems, sets, i, false)
}

/// `e` is what the ordering declarations of system `i` report: its "run before" labels,
/// then its "run after" labels, then its "run before" sets, then its "run after" sets, each
/// in declaration order.
pub open spec fn system_ordering_error<B>(systems: Seq<System<B>>, sets: Seq<Seq<char>>, i: int, e: BuildError) -> bool {
    if some_label_refused(systems, i, systems[i].spec_before(), true) {
        first_label_error(systems, i, systems[i].spec_before(), true, e)
    } else if some_label_refused(systems, i, systems[i].spec_after(), false) {
        first_label_error(systems, i, systems[i].spec_after(), false, e)
    } else if some_set_label_refused(systems, sets, i, true) {
        first_set_label_error(systems, sets, i, true, e)
    } else {
        first_set_label_error(systems, sets, i, false, e)
    }
}

/// The set ordering pair (`first`, `second`) fails: a label is not registered, or an edge
/// from a member of the first set to a member of the second is refused.
pub open spec fn pair_refused<B>(systems: Seq<System<B>>, sets: Seq<Seq<char>>, first: Seq<char>, second: Seq<char>) -> bool {
    ||| !sets.contains(first)
    ||| !sets.contains(second)
    ||| exists|a: int|
        0 <= a < systems.len() && #[trigger] pair_source_refused(systems, first, second, a)
}

/// System `a` belongs to the set labelled `first` and has a refused edge to a member of
/// the set labelled `second`.
pub open spec fn pair_source_refused<B>(systems: Seq<System<B>>, first: Seq<char>, second: Seq<char>, a: int) -> bool {
    systems[a].spec_in_set() == Some(first) && exists|t: int|
        0 <= t < systems.len() && #[trigger] member_refused(systems, a, second, true, t)
}

/// `e` is what the refused set ordering pair (`first`, `second`) reports: its first label,
/// else its second, else the first refused edge, sources and then targets taken in order.
pub open spec fn pair_error<B>(systems: Seq<System<B>>, sets: Seq<Seq<char>>, first: Seq<char>, second: Seq<char>, e: BuildError) -> bool {
    if !sets.contains(first) {
        e matches BuildError::UnknownSystemSet { label } && label@ == first
    } else if !sets.contains(second) {
        e matches BuildError::UnknownSystemSet { label } && label@ == second
    } else {
        exists|a: int|
            #![trigger pair_source_refused(systems, first, second, a)]
            0 <= a < systems.len() && pair_source_refused(systems, first, second, a) && (forall|b: int|
                0 <= b < a ==> !#[trigger] pair_source_refused(systems, first, second, b)) && first_member_failure(
                systems,
                a,
                second,
                true,
                e,
            )
    }
}

/// `e` is what collecting the ordering declarations reports: the first system, in order,
/// whose declarations fail, else the first set ordering pair that fails.
pub open spec fn ordering_failure<B>(
    systems: Seq<System<B>>,
    sets: Seq<Seq<char>>,
    pairs: Seq<(Seq<char>, Seq<char>)>,
    e: BuildError,
) -> bool {
    if exists|i: int| 0 <= i < systems.len() && #[trigger] system_ordering_refused(systems, sets, i) {
        exists|i: int|
            #![trigger system_ordering_refused(systems, sets, i)]
            0 <= i < systems.len() && system_ordering_refused(systems, sets, i) && (forall|j: int|
                0 <= j < i ==> !#[trigger] system_ordering_refused(systems, sets, j)) && system_ordering_error(
                systems,
                sets,
                i,
                e,
            )
    } else {
        exists|p: int|
            #![trigger pairs[p]]
            0 <= p < pairs.len() && pair_refused(systems, sets, pairs[p].0, pairs[p].1) && (forall|q: int|
                0 <= q < p ==> !pair_refused(systems, sets, (#[trigger] pairs[q]).0, pairs[q].1)) && pair_error(
                systems,
                sets,
                pairs[p].0,
                pairs[p].1,
                e,
            )
    }
}

/// `e` is one of the failures ordering collection reports.
pub open spec fn ordering_error(e: BuildError) -> bool {
    e is UnknownSystem || e is UnknownSystemSet || e is SelfEdge || e is CrossStageSystemEdge
}

/// The systems' labels are pairwise distinct.
pub open spec fn names_unique<B>(systems: Seq<System<B>>) -> bool {
    forall|a: int, b: int|
        0 <= a < systems.len() && 0 <= b < systems.len() && a != b ==> (#[trigger] systems[a]).spec_name()
            != (#[trigger] systems[b]).spec_name()
}

/// Some system is labelled `label`.
pub open spec fn names_system<B>(systems: Seq<System<B>>, label: Seq<char>) -> bool {
    exists|j: int| 0 <= j < systems.len() && (#[trigger] systems[j]).spec_name() == label
}

/// System `a` declares it runs before system `b`.
pub open spec fn before_edge<B>(systems: Seq<System<B>>, a: int, b: int) -> bool {
    systems[a].spec_before().contains(systems[b].spec_name())
}

/// System `b` declares it runs after system `a`.
pub open spec fn after_edge<B>(systems: Seq<System<B>>, a: int, b: int) -> bool {
    systems[b].spec_after().contains(systems[a].spec_name())
}

/// System `a` declares it runs before the set that system `b` belongs to.
pub open spec fn before_set_edge<B>(systems: Seq<System<B>>, a: int, b: int) -> bool {
    systems[b].spec_in_set() is Some && systems[a].spec_before_sets().contains(systems[b].spec_in_set()->0)
}

/// System `b` declares it runs after the set that system `a` belongs to.
pub open spec fn after_set_edge<B>(systems: Seq<System<B>>, a: int, b: int) -> bool {
    systems[a].spec_in_set() is Some && systems[b].spec_after_sets().contains(systems[a].spec_in_set()->0)
}

/// A set ordering pair puts the set of system `a` before the set of system `b`.
pub open spec fn set_pair_edge<B>(systems: Seq<System<B>>, pairs: Seq<(Seq<char>, Seq<char>)>, a: int, b: int) -> bool {
    &&& systems[a].spec_in_set() is Some
    &&& systems[b].spec_in_set() is Some
    &&& pairs.contains((systems[a].spec_in_set()->0, systems[b].spec_in_set()->0))
}

/// The edge `a -> b` is declared by one of the first `upto` systems or one of the first
/// `pairs_upto` set pairs.
pub open spec fn declared_edge<B>(
    systems: Seq<System<B>>,
    pairs: Seq<(Seq<char>, Seq<char>)>,
    upto: int,
    pairs_upto: int,
    a: int,
    b: int,
) -> bool {
    &&& 0 <= a < systems.len()
    &&& 0 <= b < systems.len()
    &&& {
        ||| (a < upto && before_edge(systems, a, b))
        ||| (b < upto && after_edge(systems, a, b))
        ||| (a < upto && before_set_edge(systems, a, b))
        ||| (b < upto && after_set_edge(systems, a, b))
        ||| set_pair_edge(systems, pairs.take(pairs_upto), a, b)
    }
}

/// The edge `a -> b` is declared anywhere.
pub open spec fn ordering_edge<B>(systems: Seq<System<B>>, pairs: Seq<(Seq<char>, Seq<char>)>, a: int, b: int) -> bool {
    declared_edge(systems, pairs, systems.len() as int, pairs.len() as int, a, b)
}

/// Views of label pairs.
pub open spec fn pair_views(pairs: Seq<(String, String)>) -> Seq<(Seq<char>, Seq<char>)> {
    pairs.map_values(|p: (String, String)| (p.0@, p.1@))
}

/// Every ordering reference resolves and every declared edge joins two distinct systems of
/// one stage.
pub open spec fn ordering_valid<B>(systems: Seq<System<B>>, sets: Seq<Seq<char>>, pairs: Seq<(Seq<char>, Seq<char>)>) -> bool {
    &&& forall|i: int, l: int|
        0 <= i < systems.len() && 0 <= l < systems[i].spec_before().len() ==> names_system(
            systems,
            #[trigger] systems[i].spec_before()[l],
        )
    &&& forall|i: int, l: int|
        0 <= i < systems.len() && 0 <= l < systems[i].spec_after().len() ==> names_system(
            systems,
            #[trigger] systems[i].spec_after()[l],
        )
    &&& forall|i: int, l: int|
        0 <= i < systems.len() && 0 <= l < systems[i].spec_before_sets().len() ==> sets.contains(
            #[trigger] systems[i].spec_before_sets()[l],
        )
    &&& forall|i: int, l: int|
        0 <= i < systems.len() && 0 <= l < systems[i].spec_after_sets().len() ==> sets.contains(
            #[trigger] systems[i].spec_after_sets()[l],
        )
    &&& forall|p: int| 0 <= p < pairs.len() ==> sets.contains((#[trigger] pairs[p]).0) && sets.contains(pairs[p].1)
    &&& forall|a: int, b: int| ordering_edge(systems, pairs, a, b) ==> edge_allowed(systems, a, b)
}

/// Position of the system labelled `label`.
fn find_system<B>(systems: &Vec<System<B>>, label: &str) -> (r: Option<usize>)
    requires
        names_unique(systems@),
    ensures
        match r {
            Some(j) => j < systems.len() && systems@[j as int].spec_name() == label@,
            None => !names_system(systems@, label@),
        },
{
    let mut j: usize = 0;
    while j < systems.len()
        invariant
            j <= systems@.len(),
            forall|k: int| 0 <= k < j ==> (#[trigger] systems@[k]).spec_name() != label@,
        decreases systems@.len() - j,
    {
        if same_text(systems[j].name(), label) {
            return Some(j);
        }
        j = j + 1;
    }
    None
}

/// Whether system `t` belongs to the set labelled `label`.
fn in_set_named<B>(system: &System<B>, label: &str) -> (r: bool)
    ensures
        r == (system.spec_in_set() == Some(label@)),
{
    match system.in_set_label() {
        Some(l) => same_text(l, label),
        None => false,
    }
}

/// Records the edges of system `i`'s "run before" labels.
fn add_before_edges<B>(edges: &mut Vec<(usize, usize)>, systems: &Vec<System<B>>, i: usize) -> (r: Result<(), BuildError>)
    requires
        i < systems.len(),
        names_unique(systems@),
        strictly_sorted(old(edges)@),
    ensures
        r matches Err(e) ==> ordering_error(e),
        strictly_sorted(final(edges)@),
        r is Ok ==> forall|e: (usize, usize)|
            final(edges)@.contains(e) <==> (old(edges)@.contains(e) || (e.0 == i && e.1 < systems.len() && before_edge(
                systems@,
                i as int,
                e.1 as int,
            ))),
        r is Ok ==> forall|l: int| 0 <= l < systems@[i as int].spec_before().len() ==> names_system(
            systems@,
            #[trigger] systems@[i as int].spec_before()[l],
        ),
        r is Ok ==> forall|b: int| 0 <= b < systems.len() && before_edge(systems@, i as int, b) ==> edge_allowed(systems@, i as int, b),
        r is Ok ==> forall|l: int|
            0 <= l < systems@[i as int].spec_before().len() ==> !label_refused(
                systems@,
                i as int,
                #[trigger] systems@[i as int].spec_before()[l],
                true,
            ),
        r matches Err(e) ==> first_label_error(systems@, i as int, systems@[i as int].spec_before(), true, e),
        r is Err ==> (exists|l: int| 0 <= l < systems@[i as int].spec_before().len() && !names_system(
            systems@,
            #[trigger] systems@[i as int].spec_before()[l],
        )) || (exists|b: int| 0 <= b < systems.len() && before_edge(systems@, i as int, b) && !edge_allowed(systems@, i as int, b)),
{
    let labels = systems[i].before_labels();
    let ghost sv = systems@;
    let ghost view = systems@[i as int].spec_before();
    let mut k: usize = 0;
    while k < labels.len()
        invariant
            sv == systems@,
            i < sv.len(),
            names_unique(sv),
            string_views(labels@) == view,
            view == sv[i as int].spec_before(),
            k <= labels@.len(),
            strictly_sorted(edges@),
            forall|e: (usize, usize)|
                edges@.contains(e) <==> (old(edges)@.contains(e) || (e.0 == i && e.1 < sv.len() && view.take(k as int).contains(
                    sv[e.1 as int].spec_name(),
                ))),
            forall|l: int| 0 <= l < k ==> names_system(sv, #[trigger] view[l]),
            forall|l: int| 0 <= l < k ==> !label_refused(sv, i as int, #[trigger] view[l], true),
            forall|b: int| 0 <= b < sv.len() && view.take(k as int).contains(sv[b].spec_name()) ==> edge_allowed(sv, i as int, b),
        decreases labels@.len() - k,
    {
        let ghost t0 = view.take(k as int);
        let ghost t1 = view.take(k + 1);
        proof {
            assert(t1 =~= t0.push(view[k as int]));
            assert(view[k as int] == labels@[k as int]@);
        }
        let target = match find_system(systems, labels[k].as_str()) {
            Some(j) => j,
            None => {
                let label = labels[k].as_str().to_owned();
                proof {
                    assert(view.contains(view[k as int]));
                    assert(label_refused(sv, i as int, view[k as int], true));
                }
                return Err(BuildError::UnknownSystem { label });
            },
        };
        proof {
            assert(view.contains(sv[target as int].spec_name())) by {
                assert(view[k as int] == sv[target as int].spec_name());
            }
        }
        let pushed = push_ordering_edge(edges, i, target, systems);
        if pushed.is_err() {
            let e = pushed.unwrap_err();
            proof {
                lemma_index_named(sv, view[k as int], target as int);
                assert(label_refused(sv, i as int, view[k as int], true));
                assert(before_edge(sv, i as int, target as int));
                assert(edge_failure(sv, i as int, target as int, e));
            }
            return Err(e);
        }
        proof {
            assert forall|b: int| 0 <= b < sv.len() && t1.contains(sv[b].spec_name()) implies (t0.contains(sv[b].spec_name())
                || b == target as int) by {
                let q = choose|q: int| 0 <= q < t1.len() && t1[q] == sv[b].spec_name();
                if q < k {
                    assert(t0[q] == t1[q]);
                } else if b != target as int {
                    assert(sv[b].spec_name() == sv[target as int].spec_name());
                }
            }
            assert forall|b: int| 0 <= b < sv.len() && t0.contains(sv[b].spec_name()) implies t1.contains(sv[b].spec_name()) by {
                let q = choose|q: int| 0 <= q < t0.len() && t0[q] == sv[b].spec_name();
                assert(t1[q] == t0[q]);
            }
            assert(t1.contains(sv[target as int].spec_name())) by {
                assert(t1[k as int] == sv[target as int].spec_name());
            }
            lemma_index_named(sv, view[k as int], target as int);
            assert(!label_refused(sv, i as int, view[k as int], true));
            assert(names_system(sv, view[k as int])) by {
                assert(sv[target as int].spec_name() == view[k as int]);
            }
        }
        k = k + 1;
    }
    proof {
        assert(view.take(view.len() as int) =~= view);
    }
    Ok(())
}

/// Records the edges of system `i`'s "run after" labels.
fn add_after_edges<B>(edges: &mut Vec<(usize, usize)>, systems: &Vec<System<B>>, i: usize) -> (r: Result<(), BuildError>)
    requires
        i < systems.len(),
        names_unique(systems@),
        strictly_sorted(old(edges)@),
    ensures
        r matches Err(e) ==> ordering_error(e),
        strictly_sorted(final(edges)@),
        r is Ok ==> forall|e: (usize, usize)|
            final(edges)@.contains(e) <==> (old(edges)@.contains(e) || (e.1 == i && e.0 < systems.len() && after_edge(
                systems@,
                e.0 as int,
                i as int,
            ))),
        r is Ok ==> forall|l: int| 0 <= l < systems@[i as int].spec_after().len() ==> names_system(
            systems@,
            #[trigger] systems@[i as int].spec_after()[l],
        ),
        r is Ok ==> forall|a: int| 0 <= a < systems.len() && after_edge(systems@, a, i as int) ==> edge_allowed(systems@, a, i as int),
        r is Ok ==> forall|l: int|
            0 <= l < systems@[i as int].spec_after().len() ==> !label_refused(
                systems@,
                i as int,
                #[trigger] systems@[i as int].spec_after()[l],
                false,
            ),
        r matches Err(e) ==> first_label_error(systems@, i as int, systems@[i as int].spec_after(), false, e),
        r is Err ==> (exists|l: int| 0 <= l < systems@[i as int].spec_after().len() && !names_system(
            systems@,
            #[trigger] systems@[i as int].spec_after()[l],
        )) || (exists|a: int| 0 <= a < systems.len() && after_edge(systems@, a, i as int) && !edge_allowed(systems@, a, i as int)),
{
    let labels = systems[i].after_labels();
    let ghost sv = systems@;
    let ghost view = systems@[i as int].spec_after();
    let mut k: usize = 0;
    while k < labels.len()
        invariant
            sv == systems@,
            i < sv.len(),
            names_unique(sv),
            string_views(labels@) == view,
            view == sv[i as int].spec_after(),
            k <= labels@.len(),
            strictly_sorted(edges@),
            forall|e: (usize, usize)|
                edges@.contains(e) <==> (old(edges)@.contains(e) || (e.1 == i && e.0 < sv.len() && view.take(k as int).contains(
                    sv[e.0 as int].spec_name(),
                ))),
            forall|l: int| 0 <= l < k ==> names_system(sv, #[trigger] view[l]),
            forall|l: int| 0 <= l < k ==> !label_refused(sv, i as int, #[trigger] view[l], false),
            forall|a: int| 0 <= a < sv.len() && view.take(k as int).contains(sv[a].spec_name()) ==> edge_allowed(sv, a, i as int),
        decreases labels@.len() - k,
    {
        let ghost t0 = view.take(k as int);
        let ghost t1 = view.take(k + 1);
        proof {
            assert(t1 =~= t0.push(view[k as int]));
            assert(view[k as int] == labels@[k as int]@);
        }
        let source = match find_system(systems, labels[k].as_str()) {
            Some(j) => j,
            None => {
                let label = labels[k].as_str().to_owned();
                proof {
                    assert(view.contains(view[k as int]));
                    assert(label_refused(sv, i as int, view[k as int], false));
                }
                return Err(BuildError::UnknownSystem { label });
            },
        };
        proof {
            assert(view.contains(sv[source as int].spec_name())) by {
                assert(view[k as int] == sv[source as int].spec_name());
            }
        }
        let pushed = push_ordering_edge(edges, source, i, systems);
        if pushed.is_err() {
            let e = pushed.unwrap_err();
            proof {
                lemma_index_named(sv, view[k as int], source as int);
                assert(label_refused(sv, i as int, view[k as int], false));
                assert(after_edge(sv, source as int, i as int));
                assert(edge_failure(sv, source as int, i as int, e));
            }
            return Err(e);
        }
        proof {
            assert forall|a: int| 0 <= a < sv.len() && t1.contains(sv[a].spec_name()) implies (t0.contains(sv[a].spec_name())
                || a == source as int) by {
                let q = choose|q: int| 0 <= q < t1.len() && t1[q] == sv[a].spec_name();
                if q < k {
                    assert(t0[q] == t1[q]);
                } else if a != source as int {
                    assert(sv[a].spec_name() == sv[source as int].spec_name());
                }
            }
            assert forall|a: int| 0 <= a < sv.len() && t0.contains(sv[a].spec_name()) implies t1.contains(sv[a].spec_name()) by {
                let q = choose|q: int| 0 <= q < t0.len() && t0[q] == sv[a].spec_name();
                assert(t1[q] == t0[q]);
            }
            assert(t1.contains(sv[source as int].spec_name())) by {
                assert(t1[k as int] == sv[source as int].spec_name());
            }
            lemma_index_named(sv, view[k as int], source as int);
            assert(!label_refused(sv, i as int, view[k as int], false));
            assert(names_system(sv, view[k as int])) by {
                assert(sv[source as int].spec_name() == view[k as int]);
            }
        }
        k = k + 1;
    }
    proof {
        assert(view.take(view.len() as int) =~= view);
    }
    Ok(())
}

/// Records, for every system in the set labelled `label`, the edge between it and system
/// `i`: from `i` when `forward`, towards `i` otherwise.
fn add_set_member_edges<B>(
    edges: &mut Vec<(usize, usize)>,
    systems: &Vec<System<B>>,
    i: usize,
    label: &str,
    forward: bool,
) -> (r: Result<(), BuildError>)
    requires
        i < systems.len(),
        strictly_sorted(old(edges)@),
    ensures
        r matches Err(e) ==> ordering_error(e),
        strictly_sorted(final(edges)@),
        r is Ok ==> forall|e: (usize, usize)|
            final(edges)@.contains(e) <==> (old(edges)@.contains(e) || (if forward {
                e.0 == i && e.1 < systems.len() && systems@[e.1 as int].spec_in_set() == Some(label@)
            } else {
                e.1 == i && e.0 < systems.len() && systems@[e.0 as int].spec_in_set() == Some(label@)
            })),
        r is Ok ==> forall|t: int|
            0 <= t < systems.len() && systems@[t].spec_in_set() == Some(label@) ==> (if forward {
                edge_allowed(systems@, i as int, t)
            } else {
                edge_allowed(systems@, t, i as int)
            }),
        r matches Err(e) ==> first_member_failure(systems@, i as int, label@, forward, e),
        r is Err ==> exists|t: int|
            0 <= t < systems.len() && systems@[t].spec_in_set() == Some(label@) && !(if forward {
                edge_allowed(systems@, i as int, t)
            } else {
                edge_allowed(systems@, t, i as int)
            }),
{
    let ghost sv = systems@;
    let mut t: usize = 0;
    while t < systems.len()
        invariant
            sv == systems@,
            i < sv.len(),
            t <= sv.len(),
            strictly_sorted(edges@),
            forall|e: (usize, usize)|
                edges@.contains(e) <==> (old(edges)@.contains(e) || (if forward {
                    e.0 == i && e.1 < t && sv[e.1 as int].spec_in_set() == Some(label@)
                } else {
                    e.1 == i && e.0 < t && sv[e.0 as int].spec_in_set() == Some(label@)
                })),
            forall|u: int|
                0 <= u < t && sv[u].spec_in_set() == Some(label@) ==> (if forward {
                    edge_allowed(sv, i as int, u)
                } else {
                    edge_allowed(sv, u, i as int)
                }),
        decreases sv.len() - t,
    {
        if in_set_named(&systems[t], label) {
            let pushed = if forward {
                push_ordering_edge(edges, i, t, systems)
            } else {
                push_ordering_edge(edges, t, i, systems)
            };
            if pushed.is_err() {
                let e = pushed.unwrap_err();
                proof {
                    if forward {
                        assert(edge_failure(sv, i as int, t as int, e));
                    } else {
                        assert(edge_failure(sv, t as int, i as int, e));
                    }
                    assert(member_refused(sv, i as int, label@, forward, t as int));
                    assert forall|u: int| 0 <= u < t implies !#[trigger] member_refused(sv, i as int, label@, forward, u) by {}
                }
                return Err(e);
            }
        }
        t = t + 1;
    }
    Ok(())
}

/// A system's "run before" set labels when `forward`, its "run after" ones otherwise.
pub open spec fn set_labels_of<B>(system: System<B>, forward: bool) -> Seq<Seq<char>> {
    if forward {
        system.spec_before_sets()
    } else {
        system.spec_after_sets()
    }
}

/// Records the edges of system `i`'s set labels: "run before" sets when `forward`, "run
/// after" sets otherwise. Every label must be registered.
fn add_set_edges<B>(
    edges: &mut Vec<(usize, usize)>,
    systems: &Vec<System<B>>,
    sets: &Vec<String>,
    i: usize,
    forward: bool,
) -> (r: Result<(), BuildError>)
    requires
        i < systems.len(),
        strictly_sorted(old(edges)@),
    ensures
        r matches Err(e) ==> ordering_error(e),
        strictly_sorted(final(edges)@),
        r is Ok ==> forall|e: (usize, usize)|
            final(edges)@.contains(e) <==> (old(edges)@.contains(e) || (if forward {
                e.0 == i && e.1 < systems.len() && before_set_edge(systems@, i as int, e.1 as int)
            } else {
                e.1 == i && e.0 < systems.len() && after_set_edge(systems@, e.0 as int, i as int)
            })),
        r is Ok ==> forall|l: int|
            0 <= l < set_labels_of(systems@[i as int], forward).len() ==> string_views(sets@).contains(
                #[trigger] set_labels_of(systems@[i as int], forward)[l],
            ),
        r is Ok ==> forall|t: int|
            0 <= t < systems.len() ==> (forward && before_set_edge(systems@, i as int, t) ==> edge_allowed(systems@, i as int, t))
                && (!forward && after_set_edge(systems@, t, i as int) ==> edge_allowed(systems@, t, i as int)),
        r is Ok ==> forall|l: int|
            0 <= l < set_labels_of(systems@[i as int], forward).len() ==> !set_label_refused(
                systems@,
                string_views(sets@),
                i as int,
                #[trigger] set_labels_of(systems@[i as int], forward)[l],
                forward,
            ),
        r matches Err(e) ==> first_set_label_error(systems@, string_views(sets@), i as int, forward, e),
        r is Err ==> (exists|l: int|
            0 <= l < set_labels_of(systems@[i as int], forward).len() && !string_views(sets@).contains(
                #[trigger] set_labels_of(systems@[i as int], forward)[l],
            )) || (exists|t: int|
            0 <= t < systems.len() && ((forward && before_set_edge(systems@, i as int, t) && !edge_allowed(systems@, i as int, t))
                || (!forward && after_set_edge(systems@, t, i as int) && !edge_allowed(systems@, t, i as int)))),
{
    let labels = if forward {
        systems[i].before_set_labels()
    } else {
        systems[i].after_set_labels()
    };
    let ghost sv = systems@;
    let ghost view = set_labels_of(systems@[i as int], forward);
    let mut k: usize = 0;
    while k < labels.len()
        invariant
            sv == systems@,
            i < sv.len(),
            string_views(labels@) == view,
            view == set_labels_of(sv[i as int], forward),
            k <= labels@.len(),
            strictly_sorted(edges@),
            forall|e: (usize, usize)|
                edges@.contains(e) <==> (old(edges)@.contains(e) || (if forward {
                    e.0 == i && e.1 < sv.len() && sv[e.1 as int].spec_in_set() is Some && view.take(k as int).contains(
                        sv[e.1 as int].spec_in_set()->0,
                    )
                } else {
                    e.1 == i && e.0 < sv.len() && sv[e.0 as int].spec_in_set() is Some && view.take(k as int).contains(
                        sv[e.0 as int].spec_in_set()->0,
                    )
                })),
            forall|l: int| 0 <= l < k ==> string_views(sets@).contains(#[trigger] view[l]),
            forall|l: int| 0 <= l < k ==> !set_label_refused(sv, string_views(sets@), i as int, #[trigger] view[l], forward),
            forall|t: int|
                0 <= t < sv.len() && sv[t].spec_in_set() is Some && view.take(k as int).contains(sv[t].spec_in_set()->0) ==> (if forward {
                    edge_allowed(sv, i as int, t)
                } else {
                    edge_allowed(sv, t, i as int)
                }),
        decreases labels@.len() - k,
    {
        let ghost t0 = view.take(k as int);
        let ghost t1 = view.take(k + 1);
        proof {
            assert(t1 =~= t0.push(view[k as int]));
            assert(view[k as int] == labels@[k as int]@);
        }
        let known = ensure_set_label(sets, labels[k].as_str());
        if known.is_err() {
            proof {
                assert(view.contains(view[k as int]));
                assert(set_label_refused(sv, string_views(sets@), i as int, view[k as int], forward));
            }
            return Err(known.unwrap_err());
        }
        let ghost before_edges = edges@;
        let added = add_set_member_edges(edges, systems, i, labels[k].as_str(), forward);
        if added.is_err() {
            proof {
                let t = choose|t: int| 0 <= t < sv.len() && sv[t].spec_in_set() == Some(view[k as int]) && !(if forward {
                    edge_allowed(sv, i as int, t)
                } else {
                    edge_allowed(sv, t, i as int)
                });
                assert(view.contains(view[k as int]));
                if forward {
                    assert(before_set_edge(sv, i as int, t));
                } else {
                    assert(after_set_edge(sv, t, i as int));
                }
            }
            let e = added.unwrap_err();
            proof {
                let w = choose|w: int|
                    #![trigger member_refused(sv, i as int, view[k as int], forward, w)]
                    0 <= w < sv.len() && member_refused(sv, i as int, view[k as int], forward, w) && (forall|u: int|
                        0 <= u < w ==> !#[trigger] member_refused(sv, i as int, view[k as int], forward, u))
                        && member_edge_failure(sv, i as int, w, forward, e);
                assert(set_label_refused(sv, string_views(sets@), i as int, view[k as int], forward));
            }
            return Err(e);
        }
        proof {
            assert(!set_label_refused(sv, string_views(sets@), i as int, view[k as int], forward));
            assert forall|x: Seq<char>| t1.contains(x) <==> (t0.contains(x) || x == view[k as int]) by {
                if t1.contains(x) {
                    let q = choose|q: int| 0 <= q < t1.len() && t1[q] == x;
                    if q < k {
                        assert(t0[q] == x);
                    }
                }
                if t0.contains(x) {
                    let q = choose|q: int| 0 <= q < t0.len() && t0[q] == x;
                    assert(t1[q] == x);
                }
                if x == view[k as int] {
                    assert(t1[k as int] == x);
                }
            }
        }
        k = k + 1;
    }
    proof {
        assert(view.take(view.len() as int) =~= view);
    }
    Ok(())
}

/// Records the edges of one set ordering pair: from every member of the set labelled
/// `first` to every member of the set labelled `second`. Both labels must be registered.
fn add_set_pair_edges<B>(
    edges: &mut Vec<(usize, usize)>,
    systems: &Vec<System<B>>,
    sets: &Vec<String>,
    first: &str,
    second: &str,
) -> (r: Result<(), BuildError>)
    requires
        strictly_sorted(old(edges)@),
    ensures
        r matches Err(e) ==> ordering_error(e),
        strictly_sorted(final(edges)@),
        r is Ok ==> string_views(sets@).contains(first@) && string_views(sets@).contains(second@),
        r is Ok ==> forall|e: (usize, usize)|
            final(edges)@.contains(e) <==> (old(edges)@.contains(e) || (e.0 < systems.len() && e.1 < systems.len()
                && systems@[e.0 as int].spec_in_set() == Some(first@) && systems@[e.1 as int].spec_in_set() == Some(second@))),
        r is Ok ==> forall|a: int, b: int|
            0 <= a < systems.len() && 0 <= b < systems.len() && systems@[a].spec_in_set() == Some(first@)
                && systems@[b].spec_in_set() == Some(second@) ==> edge_allowed(systems@, a, b),
        r is Ok ==> !pair_refused(systems@, string_views(sets@), first@, second@),
        r matches Err(e) ==> pair_error(systems@, string_views(sets@), first@, second@, e),
        r is Err ==> !string_views(sets@).contains(first@) || !string_views(sets@).contains(second@) || (exists|a: int, b: int|
            0 <= a < systems.len() && 0 <= b < systems.len() && systems@[a].spec_in_set() == Some(first@)
                && systems@[b].spec_in_set() == Some(second@) && !edge_allowed(systems@, a, b)),
{
    let known = ensure_set_label(sets, first);
    if known.is_err() {
        return Err(known.unwrap_err());
    }
    let known = ensure_set_label(sets, second);
    if known.is_err() {
        return Err(known.unwrap_err());
    }
    let ghost sv = systems@;
    let mut a: usize = 0;
    while a < systems.len()
        invariant
            sv == systems@,
            a <= sv.len(),
            strictly_sorted(edges@),
            forall|e: (usize, usize)|
                edges@.contains(e) <==> (old(edges)@.contains(e) || (e.0 < a && e.1 < sv.len() && sv[e.0 as int].spec_in_set()
                    == Some(first@) && sv[e.1 as int].spec_in_set() == Some(second@))),
            forall|x: int, y: int|
                0 <= x < a && 0 <= y < sv.len() && sv[x].spec_in_set() == Some(first@) && sv[y].spec_in_set() == Some(second@)
                    ==> edge_allowed(sv, x, y),
            string_views(sets@).contains(first@),
            string_views(sets@).contains(second@),
            forall|x: int| 0 <= x < a ==> !#[trigger] pair_source_refused(sv, first@, second@, x),
        decreases sv.len() - a,
    {
        if in_set_named(&systems[a], first) {
            let added = add_set_member_edges(edges, systems, a, second, true);
            if added.is_err() {
                let e = added.unwrap_err();
                proof {
                    let w = choose|w: int|
                        #![trigger member_refused(sv, a as int, second@, true, w)]
                        0 <= w < sv.len() && member_refused(sv, a as int, second@, true, w) && (forall|u: int|
                            0 <= u < w ==> !#[trigger] member_refused(sv, a as int, second@, true, u))
                            && member_edge_failure(sv, a as int, w, true, e);
                    assert(pair_source_refused(sv, first@, second@, a as int));
                }
                return Err(e);
            }
        }
        proof {
            if sv[a as int].spec_in_set() == Some(first@) {
                assert forall|t: int| 0 <= t < sv.len() implies !#[trigger] member_refused(sv, a as int, second@, true, t) by {
                    if sv[t].spec_in_set() == Some(second@) {
                        assert(edge_allowed(sv, a as int, t));
                    }
                }
            }
            assert(!pair_source_refused(sv, first@, second@, a as int));
        }
        a = a + 1;
    }
    proof {
        assert forall|x: int, t: int|
            0 <= x < sv.len() && 0 <= t < sv.len() && sv[x].spec_in_set() == Some(first@) implies !#[trigger] member_refused(
            sv,
            x,
            second@,
            true,
            t,
        ) by {
            assert(!pair_source_refused(sv, first@, second@, x));
        }
    }
    Ok(())
}

/// A label failure shows some label of `labels` refused.
proof fn lemma_first_label_refused<B>(systems: Seq<System<B>>, i: int, labels: Seq<Seq<char>>, forward: bool, e: BuildError)
    requires
        first_label_error(systems, i, labels, forward, e),
    ensures
        some_label_refused(systems, i, labels, forward),
{
    let k = choose|k: int|
        #![trigger labels[k]]
        0 <= k < labels.len() && label_refused(systems, i, labels[k], forward) && (forall|l: int|
            0 <= l < k ==> !label_refused(systems, i, #[trigger] labels[l], forward)) && label_error(systems, i, labels[k], forward, e);
    assert(label_refused(systems, i, labels[k], forward));
}

/// A set label failure shows some set label of system `i` refused.
proof fn lemma_first_set_label_refused<B>(systems: Seq<System<B>>, sets: Seq<Seq<char>>, i: int, forward: bool, e: BuildError)
    requires
        first_set_label_error(systems, sets, i, forward, e),
    ensures
        some_set_label_refused(systems, sets, i, forward),
{
    let labels = set_labels_of(systems[i], forward);
    let k = choose|k: int|
        #![trigger labels[k]]
        0 <= k < labels.len() && set_label_refused(systems, sets, i, labels[k], forward) && (forall|l: int|
            0 <= l < k ==> !set_label_refused(systems, sets, i, #[trigger] labels[l], forward)) && set_label_error(
            systems,
            sets,
            i,
            labels[k],
            forward,
            e,
        );
    assert(set_label_refused(systems, sets, i, labels[k], forward));
}

/// A pair failure shows the pair refused.
proof fn lemma_pair_error_refused<B>(systems: Seq<System<B>>, sets: Seq<Seq<char>>, first: Seq<char>, second: Seq<char>, e: BuildError)
    requires
        pair_error(systems, sets, first, second, e),
    ensures
        pair_refused(systems, sets, first, second),
{
    if sets.contains(first) && sets.contains(second) {
        let a = choose|a: int|
            #![trigger pair_source_refused(systems, first, second, a)]
            0 <= a < systems.len() && pair_source_refused(systems, first, second, a) && (forall|b: int|
                0 <= b < a ==> !#[trigger] pair_source_refused(systems, first, second, b)) && first_member_failure(
                systems,
                a,
                second,
                true,
                e,
            );
        assert(pair_source_refused(systems, first, second, a));
    }
}

/// The failure of system `i`, the first whose declarations fail, is the ordering failure.
proof fn lemma_system_ordering_failure<B>(
    systems: Seq<System<B>>,
    sets: Seq<Seq<char>>,
    pairs: Seq<(Seq<char>, Seq<char>)>,
    i: int,
    e: BuildError,
)
    requires
        0 <= i < systems.len(),
        forall|j: int| 0 <= j < i ==> !#[trigger] system_ordering_refused(systems, sets, j),
        system_ordering_refused(systems, sets, i),
        system_ordering_error(systems, sets, i, e),
    ensures
        ordering_failure(systems, sets, pairs, e),
{
    assert(system_ordering_refused(systems, sets, i));
}

/// With no system failing, the failure of pair `p`, the first pair that fails, is the
/// ordering failure.
proof fn lemma_pair_ordering_failure<B>(
    systems: Seq<System<B>>,
    sets: Seq<Seq<char>>,
    pairs: Seq<(Seq<char>, Seq<char>)>,
    p: int,
    e: BuildError,
)
    requires
        0 <= p < pairs.len(),
        forall|x: int| 0 <= x < systems.len() ==> !#[trigger] system_ordering_refused(systems, sets, x),
        forall|q: int| 0 <= q < p ==> !pair_refused(systems, sets, (#[trigger] pairs[q]).0, pairs[q].1),
        pair_refused(systems, sets, pairs[p].0, pairs[p].1),
        pair_error(systems, sets, pairs[p].0, pairs[p].1, e),
    ensures
        ordering_failure(systems, sets, pairs, e),
{
    assert(pair_refused(systems, sets, pairs[p].0, pairs[p].1));
}

/// Every ordering edge the systems and set pairs declare, sorted and without repeats.
/// Declarations are taken in order (each system's "run before" labels, "run after" labels,
/// "run before" sets and "run after" sets, then the set pairs), and the first that fails is
/// reported: a label that names no system (`UnknownSystem`) or no registered set
/// (`UnknownSystemSet`), or an edge from a system to itself (`SelfEdge`) or across stages
/// (`CrossStageSystemEdge`).
pub fn collect_ordering_edges<B>(
    systems: &Vec<System<B>>,
    sets: &Vec<String>,
    set_ordering: &Vec<(String, String)>,
) -> (r: Result<Vec<(usize, usize)>, BuildError>)
    requires
        names_unique(systems@),
    ensures
        r is Ok <==> ordering_valid(systems@, string_views(sets@), pair_views(set_ordering@)),
        r matches Ok(edges) ==> strictly_sorted(edges@) && forall|e: (usize, usize)|
            edges@.contains(e) <==> ordering_edge(systems@, pair_views(set_ordering@), e.0 as int, e.1 as int),
        r matches Err(e) ==> ordering_error(e) && ordering_failure(systems@, string_views(sets@), pair_views(set_ordering@), e),
{
    let ghost sv = systems@;
    let ghost pv = pair_views(set_ordering@);
    let ghost lv = string_views(sets@);
    let mut edges: Vec<(usize, usize)> = Vec::new();
    let mut i: usize = 0;
    while i < systems.len()
        invariant
            sv == systems@,
            pv == pair_views(set_ordering@),
            lv == string_views(sets@),
            names_unique(sv),
            i <= sv.len(),
            strictly_sorted(edges@),
            forall|e: (usize, usize)| edges@.contains(e) <==> declared_edge(sv, pv, i as int, 0, e.0 as int, e.1 as int),
            forall|e: (usize, usize)| edges@.contains(e) ==> edge_allowed(sv, e.0 as int, e.1 as int),
            forall|x: int, l: int|
                0 <= x < i && 0 <= l < sv[x].spec_before().len() ==> names_system(sv, #[trigger] sv[x].spec_before()[l]),
            forall|x: int, l: int|
                0 <= x < i && 0 <= l < sv[x].spec_after().len() ==> names_system(sv, #[trigger] sv[x].spec_after()[l]),
            forall|x: int, l: int|
                0 <= x < i && 0 <= l < sv[x].spec_before_sets().len() ==> lv.contains(#[trigger] sv[x].spec_before_sets()[l]),
            forall|x: int, l: int|
                0 <= x < i && 0 <= l < sv[x].spec_after_sets().len() ==> lv.contains(#[trigger] sv[x].spec_after_sets()[l]),
            forall|x: int| 0 <= x < i ==> !#[trigger] system_ordering_refused(sv, lv, x),
        decreases sv.len() - i,
    {
        let ghost e0 = edges@;
        let step = add_before_edges(&mut edges, systems, i);
        if step.is_err() {
            proof {
                lemma_system_failure_invalid(sv, lv, pv, i as int);
            }
            let e = step.unwrap_err();
            proof {
                lemma_first_label_refused(sv, i as int, sv[i as int].spec_before(), true, e);
                lemma_system_ordering_failure(sv, lv, pv, i as int, e);
            }
            return Err(e);
        }
        let ghost e1 = edges@;
        let step = add_after_edges(&mut edges, systems, i);
        if step.is_err() {
            proof {
                lemma_system_failure_invalid(sv, lv, pv, i as int);
            }
            let e = step.unwrap_err();
            proof {
                lemma_first_label_refused(sv, i as int, sv[i as int].spec_after(), false, e);
                lemma_system_ordering_failure(sv, lv, pv, i as int, e);
            }
            return Err(e);
        }
        let ghost e2 = edges@;
        let step = add_set_edges(&mut edges, systems, sets, i, true);
        if step.is_err() {
            proof {
                lemma_system_failure_invalid(sv, lv, pv, i as int);
            }
            let e = step.unwrap_err();
            proof {
                lemma_first_set_label_refused(sv, lv, i as int, true, e);
                lemma_system_ordering_failure(sv, lv, pv, i as int, e);
            }
            return Err(e);
        }
        let ghost e3 = edges@;
        let step = add_set_edges(&mut edges, systems, sets, i, false);
        if step.is_err() {
            proof {
                lemma_system_failure_invalid(sv, lv, pv, i as int);
            }
            let e = step.unwrap_err();
            proof {
                lemma_first_set_label_refused(sv, lv, i as int, false, e);
                lemma_system_ordering_failure(sv, lv, pv, i as int, e);
            }
            return Err(e);
        }
        proof {
            assert(pv.take(0) =~= Seq::<(Seq<char>, Seq<char>)>::empty());
            assert forall|e: (usize, usize)| edges@.contains(e) <==> declared_edge(sv, pv, i + 1, 0, e.0 as int, e.1 as int) by {
                assert(!pv.take(0).contains((Seq::<char>::empty(), Seq::<char>::empty())));
            }
            assert forall|x: int, l: int|
                0 <= x < i + 1 && 0 <= l < sv[x].spec_before_sets().len() implies lv.contains(#[trigger] sv[x].spec_before_sets()[l]) by {
                if x == i {
                    assert(set_labels_of(sv[x], true)[l] == sv[x].spec_before_sets()[l]);
                }
            }
            assert forall|x: int, l: int|
                0 <= x < i + 1 && 0 <= l < sv[x].spec_after_sets().len() implies lv.contains(#[trigger] sv[x].spec_after_sets()[l]) by {
                if x == i {
                    assert(set_labels_of(sv[x], false)[l] == sv[x].spec_after_sets()[l]);
                }
            }
            assert forall|e: (usize, usize)| edges@.contains(e) implies edge_allowed(sv, e.0 as int, e.1 as int) by {
                if !e0.contains(e) {
                    if e.0 == i && e.1 < sv.len() && before_edge(sv, i as int, e.1 as int) {
                    } else if e.1 == i && e.0 < sv.len() && after_edge(sv, e.0 as int, i as int) {
                    } else if e.0 == i && e.1 < sv.len() && before_set_edge(sv, i as int, e.1 as int) {
                    } else {
                    }
                }
            }
        }
        proof {
            assert(!system_ordering_refused(sv, lv, i as int));
        }
        i = i + 1;
    }
    let mut p: usize = 0;
    while p < set_ordering.len()
        invariant
            sv == systems@,
            pv == pair_views(set_ordering@),
            lv == string_views(sets@),
            i == sv.len(),
            p <= pv.len(),
            strictly_sorted(edges@),
            forall|e: (usize, usize)| edges@.contains(e) <==> declared_edge(sv, pv, i as int, p as int, e.0 as int, e.1 as int),
            forall|e: (usize, usize)| edges@.contains(e) ==> edge_allowed(sv, e.0 as int, e.1 as int),
            forall|x: int, l: int|
                0 <= x < i && 0 <= l < sv[x].spec_before().len() ==> names_system(sv, #[trigger] sv[x].spec_before()[l]),
            forall|x: int, l: int|
                0 <= x < i && 0 <= l < sv[x].spec_after().len() ==> names_system(sv, #[trigger] sv[x].spec_after()[l]),
            forall|x: int, l: int|
                0 <= x < i && 0 <= l < sv[x].spec_before_sets().len() ==> lv.contains(#[trigger] sv[x].spec_before_sets()[l]),
            forall|x: int, l: int|
                0 <= x < i && 0 <= l < sv[x].spec_after_sets().len() ==> lv.contains(#[trigger] sv[x].spec_after_sets()[l]),
            forall|q: int| 0 <= q < p ==> lv.contains((#[trigger] pv[q]).0) && lv.contains(pv[q].1),
            forall|x: int| 0 <= x < sv.len() ==> !#[trigger] system_ordering_refused(sv, lv, x),
            forall|q: int| 0 <= q < p ==> !pair_refused(sv, lv, (#[trigger] pv[q]).0, pv[q].1),
        decreases pv.len() - p,
    {
        let pair = &set_ordering[p];
        proof {
            assert(pv[p as int] == (pair.0@, pair.1@));
        }
        let ghost before_edges = edges@;
        let step = add_set_pair_edges(&mut edges, systems, sets, pair.0.as_str(), pair.1.as_str());
        if step.is_err() {
            proof {
                lemma_pair_failure_invalid(sv, lv, pv, p as int);
            }
            let e = step.unwrap_err();
            proof {
                lemma_pair_error_refused(sv, lv, pv[p as int].0, pv[p as int].1, e);
                lemma_pair_ordering_failure(sv, lv, pv, p as int, e);
            }
            return Err(e);
        }
        proof {
            let t0 = pv.take(p as int);
            let t1 = pv.take(p + 1);
            assert(t1 =~= t0.push(pv[p as int]));
            assert forall|x: (Seq<char>, Seq<char>)| t1.contains(x) <==> (t0.contains(x) || x == pv[p as int]) by {
                if t1.contains(x) {
                    let q = choose|q: int| 0 <= q < t1.len() && t1[q] == x;
                    if q < p {
                        assert(t0[q] == x);
                    }
                }
                if t0.contains(x) {
                    let q = choose|q: int| 0 <= q < t0.len() && t0[q] == x;
                    assert(t1[q] == x);
                }
                if x == pv[p as int] {
                    assert(t1[p as int] == x);
                }
            }
        }
        proof {
            assert(!pair_refused(sv, lv, pv[p as int].0, pv[p as int].1));
        }
        p = p + 1;
    }
    proof {
        assert(pv.take(pv.len() as int) =~= pv);
        assert forall|a: int, b: int| ordering_edge(sv, pv, a, b) implies edge_allowed(sv, a, b) by {
            let e = (a as usize, b as usize);
            assert(edges@.contains(e));
        }
    }
    Ok(edges)
}

/// A failure while recording system `i`'s declarations shows the ordering invalid.
proof fn lemma_system_failure_invalid<B>(
    systems: Seq<System<B>>,
    sets: Seq<Seq<char>>,
    pairs: Seq<(Seq<char>, Seq<char>)>,
    i: int,
)
    requires
        0 <= i < systems.len(),
        (exists|l: int| 0 <= l < systems[i].spec_before().len() && !names_system(systems, #[trigger] systems[i].spec_before()[l]))
            || (exists|b: int| 0 <= b < systems.len() && before_edge(systems, i, b) && !edge_allowed(systems, i, b))
            || (exists|l: int| 0 <= l < systems[i].spec_after().len() && !names_system(systems, #[trigger] systems[i].spec_after()[l]))
            || (exists|a: int| 0 <= a < systems.len() && after_edge(systems, a, i) && !edge_allowed(systems, a, i))
            || (exists|l: int| 0 <= l < set_labels_of(systems[i], true).len() && !sets.contains(#[trigger] set_labels_of(systems[i], true)[l]))
            || (exists|l: int| 0 <= l < set_labels_of(systems[i], false).len() && !sets.contains(#[trigger] set_labels_of(systems[i], false)[l]))
            || (exists|t: int| 0 <= t < systems.len() && before_set_edge(systems, i, t) && !edge_allowed(systems, i, t))
            || (exists|t: int| 0 <= t < systems.len() && after_set_edge(systems, t, i) && !edge_allowed(systems, t, i)),
    ensures
        !ordering_valid(systems, sets, pairs),
{
    if exists|b: int| 0 <= b < systems.len() && before_edge(systems, i, b) && !edge_allowed(systems, i, b) {
        let b = choose|b: int| 0 <= b < systems.len() && before_edge(systems, i, b) && !edge_allowed(systems, i, b);
        assert(ordering_edge(systems, pairs, i, b));
    }
    if exists|a: int| 0 <= a < systems.len() && after_edge(systems, a, i) && !edge_allowed(systems, a, i) {
        let a = choose|a: int| 0 <= a < systems.len() && after_edge(systems, a, i) && !edge_allowed(systems, a, i);
        assert(ordering_edge(systems, pairs, a, i));
    }
    if exists|t: int| 0 <= t < systems.len() && before_set_edge(systems, i, t) && !edge_allowed(systems, i, t) {
        let t = choose|t: int| 0 <= t < systems.len() && before_set_edge(systems, i, t) && !edge_allowed(systems, i, t);
        assert(ordering_edge(systems, pairs, i, t));
    }
    if exists|t: int| 0 <= t < systems.len() && after_set_edge(systems, t, i) && !edge_allowed(systems, t, i) {
        let t = choose|t: int| 0 <= t < systems.len() && after_set_edge(systems, t, i) && !edge_allowed(systems, t, i);
        assert(ordering_edge(systems, pairs, t, i));
    }
}

/// A failure while recording set pair `p` shows the ordering invalid.
proof fn lemma_pair_failure_invalid<B>(
    systems: Seq<System<B>>,
    sets: Seq<Seq<char>>,
    pairs: Seq<(Seq<char>, Seq<char>)>,
    p: int,
)
    requires
        0 <= p < pairs.len(),
        !sets.contains(pairs[p].0) || !sets.contains(pairs[p].1) || (exists|a: int, b: int|
            0 <= a < systems.len() && 0 <= b < systems.len() && systems[a].spec_in_set() == Some(pairs[p].0)
                && systems[b].spec_in_set() == Some(pairs[p].1) && !edge_allowed(systems, a, b)),
    ensures
        !ordering_valid(systems, sets, pairs),
{
    if exists|a: int, b: int|
        0 <= a < systems.len() && 0 <= b < systems.len() && systems[a].spec_in_set() == Some(pairs[p].0)
            && systems[b].spec_in_set() == Some(pairs[p].1) && !edge_allowed(systems, a, b) {
        let (a, b) = choose|a: int, b: int|
            0 <= a < systems.len() && 0 <= b < systems.len() && systems[a].spec_in_set() == Some(pairs[p].0)
                && systems[b].spec_in_set() == Some(pairs[p].1) && !edge_allowed(systems, a, b);
        assert(pairs.take(pairs.len() as int) =~= pairs);
        assert(pairs.contains(pairs[p]));
        assert(ordering_edge(systems, pairs, a, b));
    }
}

/// What the world's event registry says of one declared event role: the channel's id,
/// the operation a frame-retained channel belongs to, and whether the channel is fed from
/// outside the schedule.
#[derive(Clone, Copy, Debug)]
pub struct EventRegistration {
    pub event_id: usize,
    pub frame_operation: Option<StageOperation>,
    pub external_source: bool,
}

/// A declared role resolved against the registry.
#[derive(Clone, Debug)]
pub struct ResolvedEventRole {
    pub event_id: usize,
    pub event_name: String,
    pub kind: EventRoleKind,
    pub external_source: bool,
}

/// Event channels a compiled system may send to and read from.
#[derive(Clone, Debug)]
pub struct EventAccess {
    pub emitted: Vec<usize>,
    pub consumed: Vec<usize>,
}

/// The operation the channel of a role belongs to, if it is bound to one: lifecycle
/// channels to Update, others to the operation of their frame retention.
pub open spec fn role_operation(kind: EventRoleKind, reg: EventRegistration) -> Option<StageOperation> {
    match kind {
        EventRoleKind::ConsumesOnAdd | EventRoleKind::ConsumesOnRemove => Some(StageOperation::Update),
        _ => reg.frame_operation,
    }
}

/// System `p` runs before system `c`: in an earlier stage of the same operation, or in the
/// same stage with a walk of ordering edges from `p` to `c`.
pub open spec fn precedes(
    stage_of: Seq<usize>,
    operations: Seq<StageOperation>,
    edges: Seq<(usize, usize)>,
    p: int,
    c: int,
) -> bool {
    if stage_of[p] != stage_of[c] {
        operations[stage_of[p] as int] == operations[stage_of[c] as int] && stage_of[p] < stage_of[c]
    } else {
        reaches(edges, p as usize, c as usize)
    }
}

/// Whether system `producer` runs before system `consumer`.
pub fn system_precedes(
    producer: usize,
    consumer: usize,
    stage_of: &Vec<usize>,
    operations: &Vec<StageOperation>,
    ordering_edges: &Vec<(usize, usize)>,
) -> (r: bool)
    requires
        producer < stage_of.len(),
        consumer < stage_of.len(),
        forall|i: int| 0 <= i < stage_of.len() ==> (#[trigger] stage_of@[i]) < operations.len(),
        forall|k: int|
            0 <= k < ordering_edges.len() ==> (#[trigger] ordering_edges@[k]).0 < stage_of.len() && ordering_edges@[k].1
                < stage_of.len(),
    ensures
        r == precedes(stage_of@, operations@, ordering_edges@, producer as int, consumer as int),
{
    let ps = stage_of[producer];
    let cs = stage_of[consumer];
    if ps != cs {
        return operations[ps] == operations[cs] && ps < cs;
    }
    has_explicit_path(producer, consumer, stage_of.len(), ordering_edges)
}

/// Every declared role of every system is registered, and every role bound to an
/// operation is bound to that of its system's stage.
pub open spec fn roles_resolve<B>(
    systems: Seq<System<B>>,
    stage_of: Seq<usize>,
    operations: Seq<StageOperation>,
    registrations: Seq<Seq<Option<EventRegistration>>>,
) -> bool {
    forall|i: int, k: int|
        0 <= i < systems.len() && 0 <= k < systems[i].spec_roles().len() ==> role_ok(
            #[trigger] registrations[i][k],
            systems[i].spec_roles()[k].kind,
            operations[stage_of[i] as int],
        )
}

/// The role is registered, and bound, if at all, to `operation`.
pub open spec fn role_ok(reg: Option<EventRegistration>, kind: EventRoleKind, operation: StageOperation) -> bool {
    match reg {
        Some(r) => match role_operation(kind, r) {
            Some(op) => op == operation,
            None => true,
        },
        None => false,
    }
}

/// System `p` emits on channel `id`.
pub open spec fn emits_on<B>(systems: Seq<System<B>>, registrations: Seq<Seq<Option<EventRegistration>>>, p: int, id: usize) -> bool {
    exists|k: int|
        0 <= k < systems[p].spec_roles().len() && (#[trigger] systems[p].spec_roles()[k]).kind == EventRoleKind::Emits
            && registrations[p][k] is Some && registrations[p][k]->0.event_id == id
}

/// Every channel read by a consumer, unless fed from outside, has a producer, and every
/// producer runs before the consumer.
pub open spec fn producers_precede<B>(
    systems: Seq<System<B>>,
    stage_of: Seq<usize>,
    operations: Seq<StageOperation>,
    edges: Seq<(usize, usize)>,
    registrations: Seq<Seq<Option<EventRegistration>>>,
) -> bool {
    forall|c: int, k: int|
        0 <= c < systems.len() && 0 <= k < systems[c].spec_roles().len() && (#[trigger] systems[c].spec_roles()[k]).kind
            == EventRoleKind::Consumes && registrations[c][k] is Some && !registrations[c][k]->0.external_source ==> {
            &&& exists|p: int| 0 <= p < systems.len() && emits_on(systems, registrations, p, registrations[c][k]->0.event_id)
            &&& forall|p: int|
                0 <= p < systems.len() && emits_on(systems, registrations, p, registrations[c][k]->0.event_id) ==> precedes(
                    stage_of,
                    operations,
                    edges,
                    p,
                    c,
                )
        }
}

/// `e` reports role `k` of `system`, which `reg` does not resolve for `operation`: an
/// unregistered role, or one bound to another operation.
pub open spec fn role_error<B>(system: System<B>, reg: Option<EventRegistration>, k: int, operation: StageOperation, e: BuildError) -> bool {
    match reg {
        None => e matches BuildError::UnregisteredEventRole { system: s, event } && s@ == system.spec_name() && event@
            == system.spec_roles()[k].event_name@,
        Some(r) => e matches BuildError::EventOperationMismatch { system: s, event, event_operation, system_operation }
            && s@ == system.spec_name() && event@ == system.spec_roles()[k].event_name@ && system_operation == operation
            && role_operation(system.spec_roles()[k].kind, r) == Some(event_operation),
    }
}

/// `e` reports the first role of `system` that `regs` does not resolve for `operation`.
pub open spec fn first_role_error<B>(system: System<B>, regs: Seq<Option<EventRegistration>>, operation: StageOperation, e: BuildError) -> bool {
    exists|k: int|
        0 <= k < system.spec_roles().len() && (forall|j: int|
            0 <= j < k ==> role_ok(#[trigger] regs[j], system.spec_roles()[j].kind, operation)) && !role_ok(
            regs[k],
            system.spec_roles()[k].kind,
            operation,
        ) && #[trigger] role_error(system, regs[k], k, operation, e)
}

/// Role `k` of system `c` reads a channel that is not fed from outside.
pub open spec fn internal_consumer<B>(systems: Seq<System<B>>, regs: Seq<Seq<Option<EventRegistration>>>, c: int, k: int) -> bool {
    &&& systems[c].spec_roles()[k].kind == EventRoleKind::Consumes
    &&& regs[c][k] is Some
    &&& !regs[c][k]->0.external_source
}

/// `e` reports why consumer role `k` of system `c` is not served: no system emits on its
/// channel, or the first emitter that does not run before `c`.
pub open spec fn consumer_error<B>(
    systems: Seq<System<B>>,
    stage_of: Seq<usize>,
    operations: Seq<StageOperation>,
    edges: Seq<(usize, usize)>,
    regs: Seq<Seq<Option<EventRegistration>>>,
    c: int,
    k: int,
    e: BuildError,
) -> bool {
    let id = regs[c][k]->0.event_id;
    let event = systems[c].spec_roles()[k].event_name@;
    if !(exists|p: int| 0 <= p < systems.len() && emits_on(systems, regs, p, id)) {
        e matches BuildError::MissingEventProducer { system, event: ev } && system@ == systems[c].spec_name() && ev@ == event
    } else {
        exists|p: int|
            0 <= p < systems.len() && emits_on(systems, regs, p, id) && !precedes(stage_of, operations, edges, p, c) && (forall|q: int|
                0 <= q < p && emits_on(systems, regs, q, id) ==> precedes(stage_of, operations, edges, q, c)) && (e matches BuildError::UnreachableEventProducer {
                producer,
                consumer,
                event: ev,
            } && producer@ == systems[p].spec_name() && consumer@ == systems[c].spec_name() && ev@ == event)
    }
}

/// `e` is the failure event-role validation reports: the first role, by system and then
/// by role, that does not resolve; or, when all resolve, the first consumer role, by
/// system and then by role, that is not served.
pub open spec fn event_failure<B>(
    systems: Seq<System<B>>,
    stage_of: Seq<usize>,
    operations: Seq<StageOperation>,
    edges: Seq<(usize, usize)>,
    regs: Seq<Seq<Option<EventRegistration>>>,
    e: BuildError,
) -> bool {
    if !roles_resolve(systems, stage_of, operations, regs) {
        exists|i: int|
            0 <= i < systems.len() && (forall|x: int, k: int|
                0 <= x < i && 0 <= k < systems[x].spec_roles().len() ==> role_ok(
                    #[trigger] regs[x][k],
                    systems[x].spec_roles()[k].kind,
                    operations[stage_of[x] as int],
                )) && #[trigger] first_role_error(systems[i], regs[i], operations[stage_of[i] as int], e)
    } else {
        exists|c: int, k: int|
            0 <= c < systems.len() && 0 <= k < systems[c].spec_roles().len() && internal_consumer(systems, regs, c, k)
                && !consumer_served(systems, stage_of, operations, edges, regs, c, regs[c][k]->0.event_id) && (forall|
                x: int,
                j: int,
            |
                0 <= x < systems.len() && 0 <= j < systems[x].spec_roles().len() && (x < c || (x == c && j < k))
                    && #[trigger] internal_consumer(systems, regs, x, j) ==> consumer_served(
                    systems,
                    stage_of,
                    operations,
                    edges,
                    regs,
                    x,
                    regs[x][j]->0.event_id,
                )) && #[trigger] consumer_error(systems, stage_of, operations, edges, regs, c, k, e)
    }
}

/// `e` is one of the failures event-role validation reports.
pub open spec fn event_error(e: BuildError) -> bool {
    e is UnregisteredEventRole || e is EventOperationMismatch || e is MissingEventProducer || e is UnreachableEventProducer
}

/// Channel ids of the roles of `roles` that emit (when `emitted`) or read (otherwise).
pub open spec fn access_ids(roles: Seq<EventRole>, regs: Seq<Option<EventRegistration>>, emitted: bool) -> Seq<usize>
    decreases roles.len(),
{
    if roles.len() == 0 {
        Seq::empty()
    } else {
        let rest = access_ids(roles.drop_last(), regs.take(roles.len() - 1), emitted);
        if (roles.last().kind == EventRoleKind::Emits) == emitted {
            rest.push(regs[roles.len() - 1]->0.event_id)
        } else {
            rest
        }
    }
}

/// Resolves the declared roles of system `i` against its registrations.
fn resolve_roles<B>(
    system: &System<B>,
    registrations: &Vec<Option<EventRegistration>>,
    operation: StageOperation,
) -> (r: Result<Vec<ResolvedEventRole>, BuildError>)
    requires
        registrations.len() == system.spec_roles().len(),
    ensures
        r is Ok <==> forall|k: int|
            0 <= k < system.spec_roles().len() ==> role_ok(#[trigger] registrations@[k], system.spec_roles()[k].kind, operation),
        r matches Ok(roles) ==> roles@.len() == system.spec_roles().len() && forall|k: int|
            0 <= k < roles@.len() ==> (#[trigger] roles@[k]).event_id == registrations@[k]->0.event_id && roles@[k].kind
                == system.spec_roles()[k].kind && roles@[k].external_source == registrations@[k]->0.external_source
                && roles@[k].event_name@ == system.spec_roles()[k].event_name@,
        r matches Err(e) ==> event_error(e) && first_role_error(*system, registrations@, operation, e),
{
    let roles = system.roles();
    let mut resolved: Vec<ResolvedEventRole> = Vec::new();
    let mut k: usize = 0;
    while k < roles.len()
        invariant
            roles@ == system.spec_roles(),
            registrations.len() == roles@.len(),
            k <= roles@.len(),
            resolved@.len() == k,
            forall|j: int|
                0 <= j < k ==> role_ok(#[trigger] registrations@[j], roles@[j].kind, operation),
            forall|j: int|
                0 <= j < k ==> (#[trigger] resolved@[j]).event_id == registrations@[j]->0.event_id && resolved@[j].kind
                    == roles@[j].kind && resolved@[j].external_source == registrations@[j]->0.external_source
                    && resolved@[j].event_name@ == roles@[j].event_name@,
        decreases roles@.len() - k,
    {
        let role = &roles[k];
        let reg = match registrations[k] {
            Some(reg) => reg,
            None => {
                let event = role.event_name.as_str().to_owned();
                let r = BuildError::UnregisteredEventRole { system: system.name().to_owned(), event };
                proof {
                    assert(role_error(*system, registrations@[k as int], k as int, operation, r));
                }
                return Err(r);
            },
        };
        let event_operation = match role.kind {
            EventRoleKind::ConsumesOnAdd => Some(StageOperation::Update),
            EventRoleKind::ConsumesOnRemove => Some(StageOperation::Update),
            EventRoleKind::Emits => reg.frame_operation,
            EventRoleKind::Consumes => reg.frame_operation,
        };
        if let Some(event_op) = event_operation {
            if event_op != operation {
                let event = role.event_name.as_str().to_owned();
                let r = BuildError::EventOperationMismatch {
                    system: system.name().to_owned(),
                    event,
                    event_operation: event_op,
                    system_operation: operation,
                };
                proof {
                    assert(role_error(*system, registrations@[k as int], k as int, operation, r));
                }
                return Err(r);
            }
        }
        resolved.push(
            ResolvedEventRole {
                event_id: reg.event_id,
                event_name: role.event_name.clone(),
                kind: role.kind,
                external_source: reg.external_source,
            },
        );
        k = k + 1;
    }
    Ok(resolved)
}

/// Whether some role of `roles` emits on channel `id`.
fn emits_event(roles: &Vec<ResolvedEventRole>, id: usize) -> (r: bool)
    ensures
        r == exists|k: int| 0 <= k < roles@.len() && (#[trigger] roles@[k]).kind == EventRoleKind::Emits && roles@[k].event_id == id,
{
    let mut k: usize = 0;
    while k < roles.len()
        invariant
            k <= roles@.len(),
            forall|j: int| 0 <= j < k ==> !((#[trigger] roles@[j]).kind == EventRoleKind::Emits && roles@[j].event_id == id),
        decreases roles@.len() - k,
    {
        if roles[k].kind == EventRoleKind::Emits && roles[k].event_id == id {
            return true;
        }
        k = k + 1;
    }
    false
}

/// The channel ids of the roles of kind (`emitted`) or not of kind (otherwise) `Emits`.
fn access_of(roles: &Vec<ResolvedEventRole>, emitted: bool) -> (r: Vec<usize>)
    ensures
        r@ == resolved_ids(roles@, emitted),
{
    let mut out: Vec<usize> = Vec::new();
    let mut k: usize = 0;
    while k < roles.len()
        invariant
            k <= roles@.len(),
            out@ == resolved_ids(roles@.take(k as int), emitted),
        decreases roles@.len() - k,
    {
        proof {
            assert(roles@.take(k + 1).drop_last() =~= roles@.take(k as int));
        }
        if (roles[k].kind == EventRoleKind::Emits) == emitted {
            out.push(roles[k].event_id);
        }
        k = k + 1;
    }
    proof {
        assert(roles@.take(roles@.len() as int) =~= roles@);
    }
    out
}

/// Channel ids of the resolved roles that emit (when `emitted`) or read (otherwise).
pub open spec fn resolved_ids(roles: Seq<ResolvedEventRole>, emitted: bool) -> Seq<usize>
    decreases roles.len(),
{
    if roles.len() == 0 {
        Seq::empty()
    } else {
        let rest = resolved_ids(roles.drop_last(), emitted);
        if (roles.last().kind == EventRoleKind::Emits) == emitted {
            rest.push(roles.last().event_id)
        } else {
            rest
        }
    }
}

/// `resolved` is `roles` resolved against `regs`.
pub open spec fn resolved_from(resolved: Seq<ResolvedEventRole>, roles: Seq<EventRole>, regs: Seq<Option<EventRegistration>>) -> bool {
    &&& resolved.len() == roles.len()
    &&& regs.len() == roles.len()
    &&& forall|k: int|
        0 <= k < resolved.len() ==> (#[trigger] resolved[k]).event_id == regs[k]->0.event_id && resolved[k].kind == roles[k].kind
            && resolved[k].external_source == regs[k]->0.external_source && resolved[k].event_name@ == roles[k].event_name@
}

/// Resolves every system's event roles against the registry and checks them: each role is
/// registered and bound, if at all, to its system's operation; each channel a system reads,
/// unless fed from outside, has a producer; and every producer runs before the reader.
/// Returns, per system, the channels it may send to and read from.
pub fn validate_event_roles<B>(
    systems: &Vec<System<B>>,
    stage_of: &Vec<usize>,
    operations: &Vec<StageOperation>,
    ordering_edges: &Vec<(usize, usize)>,
    registrations: &Vec<Vec<Option<EventRegistration>>>,
) -> (r: Result<Vec<EventAccess>, BuildError>)
    requires
        stage_of.len() == systems.len(),
        registrations.len() == systems.len(),
        forall|i: int| 0 <= i < systems.len() ==> (#[trigger] registrations@[i])@.len() == systems@[i].spec_roles().len(),
        forall|i: int| 0 <= i < stage_of.len() ==> (#[trigger] stage_of@[i]) < operations.len(),
        forall|k: int|
            0 <= k < ordering_edges.len() ==> (#[trigger] ordering_edges@[k]).0 < stage_of.len() && ordering_edges@[k].1
                < stage_of.len(),
    ensures
        r is Ok <==> roles_resolve(systems@, stage_of@, operations@, registration_views(registrations@)) && producers_precede(
            systems@,
            stage_of@,
            operations@,
            ordering_edges@,
            registration_views(registrations@),
        ),
        r matches Ok(access) ==> access@.len() == systems.len() && forall|i: int|
            0 <= i < access@.len() ==> (#[trigger] access@[i]).emitted@ == access_ids(
                systems@[i].spec_roles(),
                registrations@[i]@,
                true,
            ) && access@[i].consumed@ == access_ids(systems@[i].spec_roles(), registrations@[i]@, false),
        r matches Err(e) ==> event_error(e) && event_failure(
            systems@,
            stage_of@,
            operations@,
            ordering_edges@,
            registration_views(registrations@),
            e,
        ),
{
    let ghost regs = registration_views(registrations@);
    let ghost sv = systems@;
    let mut resolved: Vec<Vec<ResolvedEventRole>> = Vec::new();
    let mut i: usize = 0;
    while i < systems.len()
        invariant
            sv == systems@,
            regs == registration_views(registrations@),
            stage_of.len() == sv.len(),
            registrations.len() == sv.len(),
            forall|x: int| 0 <= x < sv.len() ==> (#[trigger] registrations@[x])@.len() == sv[x].spec_roles().len(),
            forall|x: int| 0 <= x < stage_of.len() ==> (#[trigger] stage_of@[x]) < operations.len(),
            i <= sv.len(),
            resolved@.len() == i,
            forall|x: int, k: int|
                0 <= x < i && 0 <= k < sv[x].spec_roles().len() ==> role_ok(
                    #[trigger] regs[x][k],
                    sv[x].spec_roles()[k].kind,
                    operations@[stage_of@[x] as int],
                ),
            forall|x: int| 0 <= x < i ==> resolved_from((#[trigger] resolved@[x])@, sv[x].spec_roles(), regs[x]),
        decreases sv.len() - i,
    {
        let operation = operations[stage_of[i]];
        let roles = match resolve_roles(&systems[i], &registrations[i], operation) {
            Ok(roles) => roles,
            Err(e) => {
                proof {
                    let k = choose|k: int|
                        0 <= k < sv[i as int].spec_roles().len() && !role_ok(
                            #[trigger] registrations@[i as int]@[k],
                            sv[i as int].spec_roles()[k].kind,
                            operation,
                        );
                    assert(regs[i as int][k] == registrations@[i as int]@[k]);
                    assert(regs[i as int] == registrations@[i as int]@);
                    assert(first_role_error(sv[i as int], regs[i as int], operations@[stage_of@[i as int] as int], e));
                    assert(!roles_resolve(sv, stage_of@, operations@, regs));
                }
                return Err(e);
            },
        };
        proof {
            assert(regs[i as int] == registrations@[i as int]@);
            assert forall|k: int| 0 <= k < sv[i as int].spec_roles().len() implies role_ok(
                #[trigger] regs[i as int][k],
                sv[i as int].spec_roles()[k].kind,
                operations@[stage_of@[i as int] as int],
            ) by {
                assert(regs[i as int][k] == registrations@[i as int]@[k]);
            }
        }
        resolved.push(roles);
        i = i + 1;
    }
    let mut c: usize = 0;
    while c < systems.len()
        invariant
            sv == systems@,
            regs == registration_views(registrations@),
            stage_of.len() == sv.len(),
            resolved@.len() == sv.len(),
            forall|x: int| 0 <= x < stage_of.len() ==> (#[trigger] stage_of@[x]) < operations.len(),
            forall|k: int|
                0 <= k < ordering_edges.len() ==> (#[trigger] ordering_edges@[k]).0 < stage_of.len() && ordering_edges@[k].1
                    < stage_of.len(),
            roles_resolve(sv, stage_of@, operations@, regs),
            forall|x: int| 0 <= x < sv.len() ==> resolved_from((#[trigger] resolved@[x])@, sv[x].spec_roles(), regs[x]),
            c <= sv.len(),
            forall|x: int, k: int|
                0 <= x < c && 0 <= k < sv[x].spec_roles().len() && (#[trigger] sv[x].spec_roles()[k]).kind
                    == EventRoleKind::Consumes && regs[x][k] is Some && !regs[x][k]->0.external_source ==> consumer_served(
                    sv,
                    stage_of@,
                    operations@,
                    ordering_edges@,
                    regs,
                    x,
                    regs[x][k]->0.event_id,
                ),
        decreases sv.len() - c,
    {
        let roles = &resolved[c];
        let mut k: usize = 0;
        while k < roles.len()
            invariant
                sv == systems@,
                regs == registration_views(registrations@),
                stage_of.len() == sv.len(),
                resolved@.len() == sv.len(),
                roles@ == resolved@[c as int]@,
                c < sv.len(),
                forall|x: int| 0 <= x < stage_of.len() ==> (#[trigger] stage_of@[x]) < operations.len(),
                forall|kk: int|
                    0 <= kk < ordering_edges.len() ==> (#[trigger] ordering_edges@[kk]).0 < stage_of.len() && ordering_edges@[kk].1
                        < stage_of.len(),
                roles_resolve(sv, stage_of@, operations@, regs),
                forall|x: int| 0 <= x < sv.len() ==> resolved_from((#[trigger] resolved@[x])@, sv[x].spec_roles(), regs[x]),
                k <= roles@.len(),
                forall|x: int, kk: int|
                    0 <= x < c && 0 <= kk < sv[x].spec_roles().len() && (#[trigger] sv[x].spec_roles()[kk]).kind
                        == EventRoleKind::Consumes && regs[x][kk] is Some && !regs[x][kk]->0.external_source
                        ==> consumer_served(sv, stage_of@, operations@, ordering_edges@, regs, x, regs[x][kk]->0.event_id),
                forall|j: int|
                    0 <= j < k && (#[trigger] sv[c as int].spec_roles()[j]).kind == EventRoleKind::Consumes && regs[c as int][j] is Some
                        && !regs[c as int][j]->0.external_source ==> consumer_served(
                        sv,
                        stage_of@,
                        operations@,
                        ordering_edges@,
                        regs,
                        c as int,
                        regs[c as int][j]->0.event_id,
                    ),
            decreases roles@.len() - k,
        {
            let role = &roles[k];
            proof {
                assert(role.kind == sv[c as int].spec_roles()[k as int].kind);
                let _ = regs[c as int][k as int];
                assert(role_ok(regs[c as int][k as int], sv[c as int].spec_roles()[k as int].kind, operations@[stage_of@[c as int] as int]));
            }
            if role.kind == EventRoleKind::Consumes && !role.external_source {
                let id = role.event_id;
                let mut any = false;
                let mut p: usize = 0;
                while p < systems.len()
                    invariant
                        sv == systems@,
                        regs == registration_views(registrations@),
                        resolved@.len() == sv.len(),
                        forall|x: int| 0 <= x < sv.len() ==> resolved_from((#[trigger] resolved@[x])@, sv[x].spec_roles(), regs[x]),
                        roles_resolve(sv, stage_of@, operations@, regs),
                        p <= sv.len(),
                        any == exists|q: int| 0 <= q < p && emits_on(sv, regs, q, id),
                        *role == roles@[k as int],
                        k < roles@.len(),
                        roles@ == resolved@[c as int]@,
                        c < sv.len(),
                        forall|x: int, kk: int|
                            0 <= x < c && 0 <= kk < sv[x].spec_roles().len() && (#[trigger] sv[x].spec_roles()[kk]).kind
                                == EventRoleKind::Consumes && regs[x][kk] is Some && !regs[x][kk]->0.external_source
                                ==> consumer_served(sv, stage_of@, operations@, ordering_edges@, regs, x, regs[x][kk]->0.event_id),
                        forall|j: int|
                            0 <= j < k && (#[trigger] sv[c as int].spec_roles()[j]).kind == EventRoleKind::Consumes
                                && regs[c as int][j] is Some && !regs[c as int][j]->0.external_source ==> consumer_served(
                                sv,
                                stage_of@,
                                operations@,
                                ordering_edges@,
                                regs,
                                c as int,
                                regs[c as int][j]->0.event_id,
                            ),
                    decreases sv.len() - p,
                {
                    let e = emits_event(&resolved[p], id);
                    proof {
                        lemma_emits_resolved(sv, regs, resolved@[p as int]@, p as int, id, stage_of@, operations@);
                    }
                    any = any || e;
                    p = p + 1;
                }
                if !any {
                    let event = role.event_name.as_str().to_owned();
                    let r = BuildError::MissingEventProducer { system: systems[c].name().to_owned(), event };
                    proof {
                        let ci = c as int;
                        let ki = k as int;
                        assert(resolved_from(resolved@[ci]@, sv[ci].spec_roles(), regs[ci]));
                        assert(internal_consumer(sv, regs, ci, ki));
                        assert(regs[ci][ki]->0.event_id == id);
                        assert(role.event_name@ == sv[ci].spec_roles()[ki].event_name@);
                        assert(!(exists|p: int| 0 <= p < sv.len() && emits_on(sv, regs, p, id)));
                        assert(consumer_error(sv, stage_of@, operations@, ordering_edges@, regs, ci, ki, r));
                        assert(!consumer_served(sv, stage_of@, operations@, ordering_edges@, regs, ci, id));
                        assert forall|x: int, j: int|
                            0 <= x < sv.len() && 0 <= j < sv[x].spec_roles().len() && (x < ci || (x == ci && j < ki))
                                && #[trigger] internal_consumer(sv, regs, x, j) implies consumer_served(
                                sv,
                                stage_of@,
                                operations@,
                                ordering_edges@,
                                regs,
                                x,
                                regs[x][j]->0.event_id,
                            ) by {
                            assert(sv[x].spec_roles()[j].kind == EventRoleKind::Consumes);
                        }
                    }
                    return Err(r);
                }
                let mut p: usize = 0;
                while p < systems.len()
                    invariant
                        sv == systems@,
                        regs == registration_views(registrations@),
                        stage_of.len() == sv.len(),
                        resolved@.len() == sv.len(),
                        c < sv.len(),
                        forall|x: int| 0 <= x < stage_of.len() ==> (#[trigger] stage_of@[x]) < operations.len(),
                        forall|kk: int|
                            0 <= kk < ordering_edges.len() ==> (#[trigger] ordering_edges@[kk]).0 < stage_of.len()
                                && ordering_edges@[kk].1 < stage_of.len(),
                        forall|x: int| 0 <= x < sv.len() ==> resolved_from((#[trigger] resolved@[x])@, sv[x].spec_roles(), regs[x]),
                        roles_resolve(sv, stage_of@, operations@, regs),
                        p <= sv.len(),
                        roles@ == resolved@[c as int]@,
                        k < roles@.len(),
                        id == roles@[k as int].event_id,
                        roles@[k as int].kind == EventRoleKind::Consumes,
                        !roles@[k as int].external_source,
                        forall|q: int|
                            0 <= q < p && emits_on(sv, regs, q, id) ==> precedes(stage_of@, operations@, ordering_edges@, q, c as int),
                        *role == roles@[k as int],
                        forall|x: int, kk: int|
                            0 <= x < c && 0 <= kk < sv[x].spec_roles().len() && (#[trigger] sv[x].spec_roles()[kk]).kind
                                == EventRoleKind::Consumes && regs[x][kk] is Some && !regs[x][kk]->0.external_source
                                ==> consumer_served(sv, stage_of@, operations@, ordering_edges@, regs, x, regs[x][kk]->0.event_id),
                        forall|j: int|
                            0 <= j < k && (#[trigger] sv[c as int].spec_roles()[j]).kind == EventRoleKind::Consumes
                                && regs[c as int][j] is Some && !regs[c as int][j]->0.external_source ==> consumer_served(
                                sv,
                                stage_of@,
                                operations@,
                                ordering_edges@,
                                regs,
                                c as int,
                                regs[c as int][j]->0.event_id,
                            ),
                    decreases sv.len() - p,
                {
                    let e = emits_event(&resolved[p], id);
                    proof {
                        lemma_emits_resolved(sv, regs, resolved@[p as int]@, p as int, id, stage_of@, operations@);
                    }
                    if e && !system_precedes(p, c, stage_of, operations, ordering_edges) {
                        proof {
                            assert(emits_on(sv, regs, p as int, id));
                            assert(regs[c as int][k as int]->0.event_id == id);
                            assert(sv[c as int].spec_roles()[k as int].kind == EventRoleKind::Consumes);
                            assert(role_ok(regs[c as int][k as int], sv[c as int].spec_roles()[k as int].kind, operations@[stage_of@[c as int] as int]));
                            assert(regs[c as int][k as int] is Some);
                            assert(!regs[c as int][k as int]->0.external_source);
                            if producers_precede(sv, stage_of@, operations@, ordering_edges@, regs) {
                                let _ = sv[c as int].spec_roles()[k as int];
                                assert(precedes(stage_of@, operations@, ordering_edges@, p as int, c as int));
                            }
                        }
                        let event = role.event_name.as_str().to_owned();
                        let r = BuildError::UnreachableEventProducer {
                            producer: systems[p].name().to_owned(),
                            consumer: systems[c].name().to_owned(),
                            event,
                        };
                        proof {
                            let ci = c as int;
                            let ki = k as int;
                            assert(resolved_from(resolved@[ci]@, sv[ci].spec_roles(), regs[ci]));
                            assert(internal_consumer(sv, regs, ci, ki));
                            assert(role.event_name@ == sv[ci].spec_roles()[ki].event_name@);
                            assert(!precedes(stage_of@, operations@, ordering_edges@, p as int, ci));
                            assert(consumer_error(sv, stage_of@, operations@, ordering_edges@, regs, ci, ki, r));
                            assert(!consumer_served(sv, stage_of@, operations@, ordering_edges@, regs, ci, id));
                            assert forall|x: int, j: int|
                                0 <= x < sv.len() && 0 <= j < sv[x].spec_roles().len() && (x < ci || (x == ci && j < ki))
                                    && #[trigger] internal_consumer(sv, regs, x, j) implies consumer_served(
                                    sv,
                                    stage_of@,
                                    operations@,
                                    ordering_edges@,
                                    regs,
                                    x,
                                    regs[x][j]->0.event_id,
                                ) by {
                                assert(sv[x].spec_roles()[j].kind == EventRoleKind::Consumes);
                            }
                        }
                        return Err(r);
                    }
                    p = p + 1;
                }
                proof {
                    assert(regs[c as int][k as int]->0.event_id == id);
                }
            }
            k = k + 1;
        }
        proof {
            assert(roles@.len() == sv[c as int].spec_roles().len());
        }
        c = c + 1;
    }
    proof {
        assert(producers_precede(sv, stage_of@, operations@, ordering_edges@, regs)) by {
            assert forall|x: int, k: int|
                0 <= x < sv.len() && 0 <= k < sv[x].spec_roles().len() && (#[trigger] sv[x].spec_roles()[k]).kind
                    == EventRoleKind::Consumes && regs[x][k] is Some && !regs[x][k]->0.external_source implies {
                &&& exists|p: int| 0 <= p < sv.len() && emits_on(sv, regs, p, regs[x][k]->0.event_id)
                &&& forall|p: int|
                    0 <= p < sv.len() && emits_on(sv, regs, p, regs[x][k]->0.event_id) ==> precedes(
                        stage_of@,
                        operations@,
                        ordering_edges@,
                        p,
                        x,
                    )
            } by {
                assert(consumer_served(sv, stage_of@, operations@, ordering_edges@, regs, x, regs[x][k]->0.event_id));
            }
        }
    }
    let mut access: Vec<EventAccess> = Vec::new();
    let mut i: usize = 0;
    while i < resolved.len()
        invariant
            sv == systems@,
            regs == registration_views(registrations@),
            resolved@.len() == sv.len(),
            forall|x: int| 0 <= x < sv.len() ==> resolved_from((#[trigger] resolved@[x])@, sv[x].spec_roles(), regs[x]),
            i <= resolved@.len(),
            access@.len() == i,
            forall|x: int|
                0 <= x < i ==> (#[trigger] access@[x]).emitted@ == resolved_ids(resolved@[x]@, true) && access@[x].consumed@
                    == resolved_ids(resolved@[x]@, false),
        decreases resolved@.len() - i,
    {
        let emitted = access_of(&resolved[i], true);
        let consumed = access_of(&resolved[i], false);
        access.push(EventAccess { emitted, consumed });
        i = i + 1;
    }
    proof {
        assert forall|x: int| 0 <= x < access@.len() implies (#[trigger] access@[x]).emitted@ == access_ids(
            systems@[x].spec_roles(),
            registrations@[x]@,
            true,
        ) && access@[x].consumed@ == access_ids(systems@[x].spec_roles(), registrations@[x]@, false) by {
            assert(regs[x] == registrations@[x]@);
            lemma_resolved_ids(resolved@[x]@, sv[x].spec_roles(), regs[x], true);
            lemma_resolved_ids(resolved@[x]@, sv[x].spec_roles(), regs[x], false);
        }
        assert(access@.len() == systems@.len());
    }
    Ok(access)
}

/// The registration lists, as views.
pub open spec fn registration_views(regs: Seq<Vec<Option<EventRegistration>>>) -> Seq<Seq<Option<EventRegistration>>> {
    regs.map_values(|v: Vec<Option<EventRegistration>>| v@)
}

/// A reader of channel `id` at system `c` has a producer, and every producer runs before it.
pub open spec fn consumer_served<B>(
    systems: Seq<System<B>>,
    stage_of: Seq<usize>,
    operations: Seq<StageOperation>,
    edges: Seq<(usize, usize)>,
    registrations: Seq<Seq<Option<EventRegistration>>>,
    c: int,
    id: usize,
) -> bool {
    &&& exists|p: int| 0 <= p < systems.len() && emits_on(systems, registrations, p, id)
    &&& forall|p: int| 0 <= p < systems.len() && emits_on(systems, registrations, p, id) ==> precedes(stage_of, operations, edges, p, c)
}

/// A resolved role list emits on `id` exactly when its system does.
proof fn lemma_emits_resolved<B>(
    systems: Seq<System<B>>,
    regs: Seq<Seq<Option<EventRegistration>>>,
    resolved: Seq<ResolvedEventRole>,
    p: int,
    id: usize,
    stage_of: Seq<usize>,
    operations: Seq<StageOperation>,
)
    requires
        0 <= p < systems.len(),
        resolved_from(resolved, systems[p].spec_roles(), regs[p]),
        roles_resolve(systems, stage_of, operations, regs),
    ensures
        (exists|k: int| 0 <= k < resolved.len() && (#[trigger] resolved[k]).kind == EventRoleKind::Emits && resolved[k].event_id == id)
            == emits_on(systems, regs, p, id),
{
    if exists|k: int| 0 <= k < resolved.len() && (#[trigger] resolved[k]).kind == EventRoleKind::Emits && resolved[k].event_id == id {
        let k = choose|k: int| 0 <= k < resolved.len() && (#[trigger] resolved[k]).kind == EventRoleKind::Emits && resolved[k].event_id == id;
        assert(role_ok(regs[p][k], systems[p].spec_roles()[k].kind, operations[stage_of[p] as int]));
        assert(systems[p].spec_roles()[k].kind == EventRoleKind::Emits);
    }
    if emits_on(systems, regs, p, id) {
        let k = choose|k: int|
            0 <= k < systems[p].spec_roles().len() && (#[trigger] systems[p].spec_roles()[k]).kind == EventRoleKind::Emits
                && regs[p][k] is Some && regs[p][k]->0.event_id == id;
        assert(resolved[k].kind == EventRoleKind::Emits && resolved[k].event_id == id);
    }
}

/// Resolving keeps the channel ids in role order.
proof fn lemma_resolved_ids(res: Seq<ResolvedEventRole>, roles: Seq<EventRole>, regs: Seq<Option<EventRegistration>>, emitted: bool)
    requires
        resolved_from(res, roles, regs),
    ensures
        resolved_ids(res, emitted) == access_ids(roles, regs, emitted),
    decreases roles.len(),
{
    if roles.len() > 0 {
        let n = roles.len() - 1;
        let r0 = res.drop_last();
        let g0 = regs.take(n);
        assert forall|k: int| 0 <= k < r0.len() implies (#[trigger] r0[k]).event_id == g0[k]->0.event_id && r0[k].kind
            == roles.drop_last()[k].kind && r0[k].external_source == g0[k]->0.external_source && r0[k].event_name@
            == roles.drop_last()[k].event_name@ by {
            assert(r0[k] == res[k]);
            assert(g0[k] == regs[k]);
            assert(roles.drop_last()[k] == roles[k]);
        }
        lemma_resolved_ids(r0, roles.drop_last(), g0, emitted);
        assert(res.last() == res[n]);
        assert(roles.last() == roles[n]);
    }
}

/// Authoring graph for a validated compiled schedule: stages, systems, system sets with
/// their run conditions, set ordering pairs, and an optional fixed-step configuration.
pub struct ScheduleBuilder<B> {
    owner: ScheduleOwner,
    stages: Vec<StageDescriptor>,
    systems: Vec<System<B>>,
    set_labels: Vec<String>,
    set_conditions: Vec<Condition>,
    set_ordering: Vec<(String, String)>,
    fixed_config: Option<FixedConfig>,
    default_update_flush: FlushMode,
}

/// Views of stage descriptor labels.
pub open spec fn stage_label_views(stages: Seq<StageDescriptor>) -> Seq<Seq<char>> {
    stages.map_values(|d: StageDescriptor| d.label@)
}

/// Labels of `labels` are pairwise distinct.
pub open spec fn labels_unique(labels: Seq<Seq<char>>) -> bool {
    forall|a: int, b: int| 0 <= a < labels.len() && 0 <= b < labels.len() && a != b ==> labels[a] != labels[b]
}

impl<B> ScheduleBuilder<B> {
    /// Stage descriptors, in order.
    pub closed spec fn spec_stages(&self) -> Seq<StageDescriptor> {
        self.stages@
    }

    /// Systems, in order.
    pub closed spec fn spec_systems(&self) -> Seq<System<B>> {
        self.systems@
    }

    /// Registered set labels, in order.
    pub closed spec fn spec_sets(&self) -> Seq<Seq<char>> {
        string_views(self.set_labels@)
    }

    /// Run conditions of the registered sets, in order.
    pub closed spec fn spec_set_conditions(&self) -> Seq<Condition> {
        self.set_conditions@
    }

    /// Set ordering pairs, in order.
    pub closed spec fn spec_set_ordering(&self) -> Seq<(Seq<char>, Seq<char>)> {
        pair_views(self.set_ordering@)
    }

    /// Fixed-step configuration.
    pub closed spec fn spec_fixed(&self) -> Option<FixedConfig> {
        self.fixed_config
    }

    /// Flush mode new Update stages get.
    pub closed spec fn spec_default_flush(&self) -> FlushMode {
        self.default_update_flush
    }

    /// Stage and set labels are unique, every set has a condition, and every system names an
    /// existing stage.
    pub closed spec fn wf(&self) -> bool {
        &&& labels_unique(stage_label_views(self.stages@))
        &&& labels_unique(string_views(self.set_labels@))
        &&& self.set_labels@.len() == self.set_conditions@.len()
        &&& forall|i: int| 0 <= i < self.systems@.len() ==> stage_label_views(self.stages@).contains(
            #[trigger] self.systems@[i].spec_stage(),
        )
        &&& names_unique(self.systems@)
    }

    /// Position of the stage labelled `label`.
    pub open spec fn stage_position(&self, label: Seq<char>) -> Option<int> {
        if stage_label_views(self.spec_stages()).contains(label) {
            Some(stage_label_views(self.spec_stages()).index_of(label))
        } else {
            None
        }
    }

    /// An empty builder whose Update stages flush only at the end of the frame.
    pub fn new() -> (r: ScheduleBuilder<B>)
        ensures
            r.wf(),
            r.spec_stages() == Seq::<StageDescriptor>::empty(),
            r.spec_systems() == Seq::<System<B>>::empty(),
            r.spec_sets() == Seq::<Seq<char>>::empty(),
            r.spec_set_ordering() == Seq::<(Seq<char>, Seq<char>)>::empty(),
            r.spec_fixed() is None,
            r.spec_default_flush() == FlushMode::Final,
    {
        let r = ScheduleBuilder {
            owner: ScheduleOwner::new(),
            stages: Vec::new(),
            systems: Vec::new(),
            set_labels: Vec::new(),
            set_conditions: Vec::new(),
            set_ordering: Vec::new(),
            fixed_config: None,
            default_update_flush: FlushMode::Final,
        };
        proof {
            assert(r.spec_sets() =~= Seq::<Seq<char>>::empty());
            assert(r.spec_set_ordering() =~= Seq::<(Seq<char>, Seq<char>)>::empty());
            assert(stage_label_views(r.stages@) =~= Seq::<Seq<char>>::empty());
            assert(string_views(r.set_labels@) =~= Seq::<Seq<char>>::empty());
        }
        r
    }

    /// Position of the stage labelled `label`.
    fn find_stage(&self, label: &str) -> (r: Option<usize>)
        requires
            self.wf(),
        ensures
            match r {
                Some(i) => i < self.stages@.len() && self.stages@[i as int].label@ == label@ && self.stage_position(label@)
                    == Some(i as int),
                None => self.stage_position(label@) is None,
            },
    {
        let mut i: usize = 0;
        while i < self.stages.len()
            invariant
                self.wf(),
                i <= self.stages@.len(),
                forall|j: int| 0 <= j < i ==> (#[trigger] self.stages@[j]).label@ != label@,
            decreases self.stages@.len() - i,
        {
            if same_text(self.stages[i].label.as_str(), label) {
                proof {
                    let views = stage_label_views(self.stages@);
                    assert(views[i as int] == label@);
                    let k = views.index_of(label@);
                    assert(0 <= k < views.len() && views[k] == label@);
                    if k != i as int {
                        assert(views[k] == views[i as int]);
                    }
                }
                return Some(i);
            }
            i = i + 1;
        }
        proof {
            let views = stage_label_views(self.stages@);
            if views.contains(label@) {
                let k = choose|k: int| 0 <= k < views.len() && views[k] == label@;
                assert(self.stages@[k].label@ == label@);
            }
        }
        None
    }

    /// Adds a stage labelled `label` running under `operation`; an Update stage gets the
    /// builder's default flush mode and a Render stage flushes at the end of the frame. A
    /// stage with the label already is kept when its operation agrees, else
    /// `StageOperationMismatch`.
    pub fn add_stage(&mut self, label: &str, operation: StageOperation) -> (r: Result<(), BuildError>)
        requires
            old(self).wf(),
        ensures
            final(self).wf(),
            final(self).spec_systems() == old(self).spec_systems(),
            final(self).spec_sets() == old(self).spec_sets(),
            final(self).spec_set_conditions() == old(self).spec_set_conditions(),
            final(self).spec_set_ordering() == old(self).spec_set_ordering(),
            final(self).spec_fixed() == old(self).spec_fixed(),
            final(self).spec_default_flush() == old(self).spec_default_flush(),
            match old(self).stage_position(label@) {
                Some(i) => final(self).spec_stages() == old(self).spec_stages() && (old(self).spec_stages()[i].operation
                    == operation ==> r is Ok) && (old(self).spec_stages()[i].operation != operation ==> (r matches Err(
                    BuildError::StageOperationMismatch { label: l },
                ) && l@ == label@)),
                None => r is Ok && final(self).spec_stages().len() == old(self).spec_stages().len() + 1
                    && final(self).spec_stages().drop_last() == old(self).spec_stages() && final(self).spec_stages().last().label@
                    == label@ && final(self).spec_stages().last().operation == operation
                    && final(self).spec_stages().last().flush_mode == match operation {
                    StageOperation::Update => old(self).spec_default_flush(),
                    StageOperation::Render => FlushMode::Final,
                },
            },
    {
        if let Some(index) = self.find_stage(label) {
            if self.stages[index].operation != operation {
                return Err(BuildError::StageOperationMismatch { label: label.to_owned() });
            }
            return Ok(());
        }
        let flush_mode = match operation {
            StageOperation::Update => self.default_update_flush,
            StageOperation::Render => FlushMode::Final,
        };
        let ghost before = self.stages@;
        self.stages.push(StageDescriptor { label: label.to_owned(), operation, flush_mode });
        proof {
            let views = stage_label_views(self.stages@);
            let old_views = stage_label_views(before);
            assert(views.drop_last() =~= old_views);
            assert(views.last() == label@);
            assert(!old_views.contains(label@));
            assert forall|a: int, b: int| 0 <= a < views.len() && 0 <= b < views.len() && a != b implies views[a] != views[b] by {
                if a < old_views.len() && b < old_views.len() {
                    assert(views[a] == old_views[a] && views[b] == old_views[b]);
                } else if a < old_views.len() {
                    assert(views[a] == old_views[a]);
                    assert(old_views.contains(views[a]));
                } else if b < old_views.len() {
                    assert(views[b] == old_views[b]);
                    assert(old_views.contains(views[b]));
                }
            }
            assert forall|i: int| 0 <= i < self.systems@.len() implies views.contains(#[trigger] self.systems@[i].spec_stage()) by {
                let k = choose|k: int| 0 <= k < old_views.len() && old_views[k] == self.systems@[i].spec_stage();
                assert(views[k] == old_views[k]);
            }
            assert(self.spec_stages().drop_last() =~= old(self).spec_stages());
        }
        Ok(())
    }

    /// The builder with the built-in stages Startup, FixedUpdate and Update (all Update
    /// operation, flushing at the end of each stage) and Render.
    pub fn standard() -> (r: ScheduleBuilder<B>)
        ensures
            r.wf(),
            r.spec_stages().len() == 4,
            r.spec_stages()[0].label@ == STARTUP@,
            r.spec_stages()[1].label@ == FIXED_UPDATE@,
            r.spec_stages()[2].label@ == UPDATE@,
            r.spec_stages()[3].label@ == RENDER@,
            r.spec_stages()[0].operation == StageOperation::Update,
            r.spec_stages()[1].operation == StageOperation::Update,
            r.spec_stages()[2].operation == StageOperation::Update,
            r.spec_stages()[3].operation == StageOperation::Render,
            r.spec_stages()[0].flush_mode == FlushMode::Stage,
            r.spec_stages()[1].flush_mode == FlushMode::Stage,
            r.spec_stages()[2].flush_mode == FlushMode::Stage,
            r.spec_stages()[3].flush_mode == FlushMode::Final,
            r.spec_systems() == Seq::<System<B>>::empty(),
            r.spec_sets() == Seq::<Seq<char>>::empty(),
            r.spec_set_ordering() == Seq::<(Seq<char>, Seq<char>)>::empty(),
            r.spec_fixed() is None,
            r.spec_default_flush() == FlushMode::Stage,
    {
        let mut builder = Self::new();
        builder.default_update_flush = FlushMode::Stage;
        proof {
            reveal_strlit("Startup");
            reveal_strlit("FixedUpdate");
            reveal_strlit("Update");
            reveal_strlit("Render");
            assert(STARTUP@ == "Startup"@);
            assert(FIXED_UPDATE@ == "FixedUpdate"@);
            assert(UPDATE@ == "Update"@);
            assert(RENDER@ == "Render"@);
            assert(STARTUP@.len() == 7 && FIXED_UPDATE@.len() == 11 && UPDATE@.len() == 6 && RENDER@.len() == 6);
            assert(UPDATE@[0] != RENDER@[0]);
        }
        let _ = builder.add_stage(STARTUP, StageOperation::Update);
        proof {
            assert(stage_label_views(builder.spec_stages()) =~= seq![STARTUP@]);
            assert(!stage_label_views(builder.spec_stages()).contains(FIXED_UPDATE@)) by {
                assert(stage_label_views(builder.spec_stages())[0] != FIXED_UPDATE@);
            }
        }
        let _ = builder.add_stage(FIXED_UPDATE, StageOperation::Update);
        proof {
            assert(stage_label_views(builder.spec_stages()) =~= seq![STARTUP@, FIXED_UPDATE@]);
            assert(!stage_label_views(builder.spec_stages()).contains(UPDATE@)) by {
                assert(stage_label_views(builder.spec_stages())[0] != UPDATE@);
                assert(stage_label_views(builder.spec_stages())[1] != UPDATE@);
            }
        }
        let _ = builder.add_stage(UPDATE, StageOperation::Update);
        proof {
            assert(stage_label_views(builder.spec_stages()) =~= seq![STARTUP@, FIXED_UPDATE@, UPDATE@]);
            assert(!stage_label_views(builder.spec_stages()).contains(RENDER@)) by {
                assert(stage_label_views(builder.spec_stages())[0] != RENDER@);
                assert(stage_label_views(builder.spec_stages())[1] != RENDER@);
                assert(stage_label_views(builder.spec_stages())[2] != RENDER@);
            }
        }
        let _ = builder.add_stage(RENDER, StageOperation::Render);
        builder
    }

    /// `Ok` exactly when `set` has been registered; otherwise the unknown-set error naming it.
    fn ensure_registered_set(&self, set: &SystemSet) -> (r: Result<(), BuildError>)
        ensures
            self.spec_sets().contains(set.spec_label()) ==> r is Ok,
            !self.spec_sets().contains(set.spec_label()) ==> (r matches Err(BuildError::UnknownSystemSet { label })
                && label@ == set.spec_label()),
    {
        ensure_set_label(&self.set_labels, set.label())
    }

    fn find_set(&self, label: &str) -> (r: Option<usize>)
        requires
            self.wf(),
        ensures
            match r {
                Some(i) => i < self.set_labels@.len() && self.spec_sets()[i as int] == label@,
                None => !self.spec_sets().contains(label@),
            },
    {
        let mut i: usize = 0;
        while i < self.set_labels.len()
            invariant
                i <= self.set_labels@.len(),
                forall|j: int| 0 <= j < i ==> (#[trigger] self.set_labels@[j])@ != label@,
            decreases self.set_labels@.len() - i,
        {
            if same_text(self.set_labels[i].as_str(), label) {
                return Some(i);
            }
            i = i + 1;
        }
        proof {
            if self.spec_sets().contains(label@) {
                let k = choose|k: int| 0 <= k < self.spec_sets().len() && self.spec_sets()[k] == label@;
                assert(self.set_labels@[k]@ == label@);
            }
        }
        None
    }

    /// Registers `set` with a condition that always holds. A set registered before gets its
    /// condition reset to one that always holds and the call reports `DuplicateSystemSet`.
    pub fn register_set(&mut self, set: SystemSet) -> (r: Result<(), BuildError>)
        requires
            old(self).wf(),
        ensures
            final(self).wf(),
            final(self).spec_stages() == old(self).spec_stages(),
            final(self).spec_systems() == old(self).spec_systems(),
            final(self).spec_set_ordering() == old(self).spec_set_ordering(),
            final(self).spec_fixed() == old(self).spec_fixed(),
            final(self).spec_default_flush() == old(self).spec_default_flush(),
            old(self).spec_sets().contains(set.spec_label()) ==> {
                &&& final(self).spec_sets() == old(self).spec_sets()
                &&& r matches Err(BuildError::DuplicateSystemSet { label }) && label@ == set.spec_label()
                &&& final(self).spec_set_conditions().len() == old(self).spec_set_conditions().len()
                &&& forall|i: int|
                    0 <= i < final(self).spec_set_conditions().len() ==> (#[trigger] final(self).spec_set_conditions()[i]) == if old(
                        self,
                    ).spec_sets()[i] == set.spec_label() {
                        final(self).spec_set_conditions()[i]
                    } else {
                        old(self).spec_set_conditions()[i]
                    }
                &&& forall|i: int|
                    0 <= i < final(self).spec_set_conditions().len() && old(self).spec_sets()[i] == set.spec_label()
                        ==> (#[trigger] final(self).spec_set_conditions()[i]).kind() == crate::schedule::condition::ConditionKind::Always
            },
            !old(self).spec_sets().contains(set.spec_label()) ==> {
                &&& r is Ok
                &&& final(self).spec_sets() == old(self).spec_sets().push(set.spec_label())
                &&& final(self).spec_set_conditions().drop_last() == old(self).spec_set_conditions()
                &&& final(self).spec_set_conditions().last().kind() == crate::schedule::condition::ConditionKind::Always
            },
    {
        match self.find_set(set.label()) {
            Some(index) => {
                let ghost before = self.set_conditions@;
                self.set_conditions.set(index, Condition::always());
                proof {
                    assert forall|i: int| 0 <= i < self.set_conditions@.len() && old(self).spec_sets()[i] == set.spec_label()
                        implies i == index as int by {
                        if i != index as int {
                            assert(string_views(self.set_labels@)[i] == string_views(self.set_labels@)[index as int]);
                        }
                    }
                }
                Err(BuildError::DuplicateSystemSet { label: set.label().to_owned() })
            },
            None => {
                let ghost before = self.set_labels@;
                self.set_labels.push(set.label().to_owned());
                self.set_conditions.push(Condition::always());
                proof {
                    let views = string_views(self.set_labels@);
                    let old_views = string_views(before);
                    assert(views =~= old_views.push(set.spec_label()));
                    assert forall|a: int, b: int| 0 <= a < views.len() && 0 <= b < views.len() && a != b implies views[a] != views[b] by {
                        if a < old_views.len() && b < old_views.len() {
                        } else if a < old_views.len() {
                            assert(old_views.contains(views[a]));
                        } else if b < old_views.len() {
                            assert(old_views.contains(views[b]));
                        }
                    }
                    assert(self.set_conditions@.drop_last() =~= old(self).set_conditions@);
                }
                Ok(())
            },
        }
    }

    /// Sets the flush mode of the stage labelled `label`: Update stages take final or
    /// per-stage flushing, Render stages only final flushing.
    pub fn set_stage_flush_mode(&mut self, label: &str, mode: FlushMode) -> (r: Result<(), BuildError>)
        requires
            old(self).wf(),
        ensures
            final(self).wf(),
            final(self).spec_systems() == old(self).spec_systems(),
            final(self).spec_sets() == old(self).spec_sets(),
            final(self).spec_set_conditions() == old(self).spec_set_conditions(),
            final(self).spec_set_ordering() == old(self).spec_set_ordering(),
            final(self).spec_fixed() == old(self).spec_fixed(),
            match old(self).stage_position(label@) {
                None => final(self).spec_stages() == old(self).spec_stages() && (r matches Err(BuildError::UnknownStage { label: l })
                    && l@ == label@),
                Some(i) => if stage_flush_allowed(old(self).spec_stages()[i].operation, mode) {
                    r is Ok && final(self).spec_stages() == old(self).spec_stages().update(
                        i,
                        StageDescriptor { flush_mode: mode, ..old(self).spec_stages()[i] },
                    )
                } else {
                    final(self).spec_stages() == old(self).spec_stages() && (r matches Err(
                        BuildError::InvalidStageFlushMode { label: l, mode: m },
                    ) && l@ == label@ && m == mode)
                },
            },
    {
        let index = match self.find_stage(label) {
            Some(index) => index,
            None => {
                return Err(BuildError::UnknownStage { label: label.to_owned() });
            },
        };
        let operation = self.stages[index].operation;
        let valid = match operation {
            StageOperation::Update => mode == FlushMode::Final || mode == FlushMode::Stage,
            StageOperation::Render => mode == FlushMode::Final,
        };
        if !valid {
            return Err(BuildError::InvalidStageFlushMode { label: label.to_owned(), mode });
        }
        let mut descriptor = self.stages.remove(index);
        descriptor.flush_mode = mode;
        self.stages.insert(index, descriptor);
        proof {
            let views = stage_label_views(self.stages@);
            assert(views =~= stage_label_views(old(self).stages@));
            assert(self.stages@ =~= old(self).stages@.update(
                index as int,
                StageDescriptor { flush_mode: mode, ..old(self).stages@[index as int] },
            ));
        }
        Ok(())
    }

    /// Replaces the run condition of the registered set `set`.
    pub fn set_run_if(&mut self, set: &SystemSet, condition: Condition) -> (r: Result<(), BuildError>)
        requires
            old(self).wf(),
        ensures
            final(self).wf(),
            final(self).spec_stages() == old(self).spec_stages(),
            final(self).spec_systems() == old(self).spec_systems(),
            final(self).spec_sets() == old(self).spec_sets(),
            final(self).spec_set_ordering() == old(self).spec_set_ordering(),
            final(self).spec_fixed() == old(self).spec_fixed(),
            !old(self).spec_sets().contains(set.spec_label()) ==> final(self).spec_set_conditions() == old(self).spec_set_conditions()
                && (r matches Err(BuildError::UnknownSystemSet { label }) && label@ == set.spec_label()),
            old(self).spec_sets().contains(set.spec_label()) ==> r is Ok && final(self).spec_set_conditions() == old(
                self,
            ).spec_set_conditions().update(old(self).spec_sets().index_of(set.spec_label()), condition),
    {
        match self.find_set(set.label()) {
            Some(index) => {
                proof {
                    let views = self.spec_sets();
                    let k = views.index_of(set.spec_label());
                    assert(0 <= k < views.len() && views[k] == set.spec_label());
                    if k != index as int {
                        assert(views[k] == views[index as int]);
                    }
                }
                self.set_conditions.set(index, condition);
                Ok(())
            },
            None => Err(BuildError::UnknownSystemSet { label: set.label().to_owned() }),
        }
    }

    /// Orders every member of `before` before every member of `after`; both sets must be
    /// registered.
    pub fn order_set_before(&mut self, before: &SystemSet, after: &SystemSet) -> (r: Result<(), BuildError>)
        requires
            old(self).wf(),
        ensures
            final(self).wf(),
            final(self).spec_stages() == old(self).spec_stages(),
            final(self).spec_systems() == old(self).spec_systems(),
            final(self).spec_sets() == old(self).spec_sets(),
            final(self).spec_set_conditions() == old(self).spec_set_conditions(),
            final(self).spec_fixed() == old(self).spec_fixed(),
            !old(self).spec_sets().contains(before.spec_label()) ==> final(self).spec_set_ordering() == old(self).spec_set_ordering()
                && (r matches Err(BuildError::UnknownSystemSet { label }) && label@ == before.spec_label()),
            old(self).spec_sets().contains(before.spec_label()) && !old(self).spec_sets().contains(after.spec_label())
                ==> final(self).spec_set_ordering() == old(self).spec_set_ordering() && (r matches Err(
                BuildError::UnknownSystemSet { label },
            ) && label@ == after.spec_label()),
            old(self).spec_sets().contains(before.spec_label()) && old(self).spec_sets().contains(after.spec_label()) ==> r is Ok
                && final(self).spec_set_ordering() == old(self).spec_set_ordering().push((before.spec_label(), after.spec_label())),
    {
        if let Err(e) = self.ensure_registered_set(before) {
            return Err(e);
        }
        if let Err(e) = self.ensure_registered_set(after) {
            return Err(e);
        }
        self.set_ordering.push((before.label().to_owned(), after.label().to_owned()));
        proof {
            assert(self.spec_set_ordering() =~= old(self).spec_set_ordering().push((before.spec_label(), after.spec_label())));
        }
        Ok(())
    }

    /// Orders every member of `after` after every member of `before`; the same as
    /// [`ScheduleBuilder::order_set_before`] with the arguments swapped.
    pub fn order_set_after(&mut self, after: &SystemSet, before: &SystemSet) -> (r: Result<(), BuildError>)
        requires
            old(self).wf(),
        ensures
            final(self).wf(),
            final(self).spec_stages() == old(self).spec_stages(),
            final(self).spec_systems() == old(self).spec_systems(),
            final(self).spec_sets() == old(self).spec_sets(),
            final(self).spec_set_conditions() == old(self).spec_set_conditions(),
            final(self).spec_fixed() == old(self).spec_fixed(),
            !old(self).spec_sets().contains(before.spec_label()) ==> final(self).spec_set_ordering() == old(self).spec_set_ordering()
                && (r matches Err(BuildError::UnknownSystemSet { label }) && label@ == before.spec_label()),
            old(self).spec_sets().contains(before.spec_label()) && !old(self).spec_sets().contains(after.spec_label())
                ==> final(self).spec_set_ordering() == old(self).spec_set_ordering() && (r matches Err(
                BuildError::UnknownSystemSet { label },
            ) && label@ == after.spec_label()),
            old(self).spec_sets().contains(before.spec_label()) && old(self).spec_sets().contains(after.spec_label()) ==> r is Ok
                && final(self).spec_set_ordering() == old(self).spec_set_ordering().push((before.spec_label(), after.spec_label())),
    {
        self.order_set_before(before, after)
    }

    /// Sets the fixed-step configuration.
    pub fn fixed(&mut self, config: FixedConfig)
        requires
            old(self).wf(),
        ensures
            final(self).wf(),
            final(self).spec_fixed() == Some(config),
            final(self).spec_stages() == old(self).spec_stages(),
            final(self).spec_systems() == old(self).spec_systems(),
            final(self).spec_sets() == old(self).spec_sets(),
            final(self).spec_set_conditions() == old(self).spec_set_conditions(),
            final(self).spec_set_ordering() == old(self).spec_set_ordering(),
    {
        self.fixed_config = Some(config);
    }

    /// Whether some system is labelled `name`.
    fn has_system_named(&self, name: &str) -> (r: bool)
        ensures
            r == names_system(self.spec_systems(), name@),
    {
        let mut i: usize = 0;
        while i < self.systems.len()
            invariant
                i <= self.systems@.len(),
                forall|j: int| 0 <= j < i ==> (#[trigger] self.systems@[j]).spec_name() != name@,
            decreases self.systems@.len() - i,
        {
            if same_text(self.systems[i].name(), name) {
                return true;
            }
            i = i + 1;
        }
        false
    }

    /// Adds `system`. Its stage must exist (`UnknownStage`), its label be new
    /// (`DuplicateSystemLabel`), its flush mode fit its stage (`InvalidSystemFlushMode`), and
    /// its set membership and set orderings name registered sets (`UnknownSystemSet`); the
    /// checks run in that order.
    pub fn add_system(&mut self, system: System<B>) -> (r: Result<(), BuildError>)
        requires
            old(self).wf(),
        ensures
            final(self).wf(),
            final(self).spec_stages() == old(self).spec_stages(),
            final(self).spec_sets() == old(self).spec_sets(),
            final(self).spec_set_conditions() == old(self).spec_set_conditions(),
            final(self).spec_set_ordering() == old(self).spec_set_ordering(),
            final(self).spec_fixed() == old(self).spec_fixed(),
            r is Ok <==> system_admissible(*old(self), system),
            r is Ok ==> final(self).spec_systems() == old(self).spec_systems().push(system),
            r is Err ==> final(self).spec_systems() == old(self).spec_systems(),
            old(self).stage_position(system.spec_stage()) is None ==> (r matches Err(BuildError::UnknownStage { label })
                && label@ == system.spec_stage()),
            old(self).stage_position(system.spec_stage()) is Some && names_system(old(self).spec_systems(), system.spec_name())
                ==> (r matches Err(BuildError::DuplicateSystemLabel { label }) && label@ == system.spec_name()),
            r matches Err(e) ==> e is UnknownStage || e is DuplicateSystemLabel || e is InvalidSystemFlushMode || e is UnknownSystemSet,
    {
        let stage_index = match self.find_stage(system.stage_label()) {
            Some(i) => i,
            None => {
                return Err(BuildError::UnknownStage { label: system.stage_label().to_owned() });
            },
        };
        if self.has_system_named(system.name()) {
            return Err(BuildError::DuplicateSystemLabel { label: system.name().to_owned() });
        }
        let flush = validate_system_flush_mode(&system, self.stages[stage_index].operation);
        if flush.is_err() {
            return Err(flush.unwrap_err());
        }
        if let Some(label) = system.in_set_label() {
            let known = ensure_set_label(&self.set_labels, label);
            if known.is_err() {
                return Err(known.unwrap_err());
            }
        }
        let known = all_sets_known(&self.set_labels, system.before_set_labels());
        if known.is_err() {
            return Err(known.unwrap_err());
        }
        let known = all_sets_known(&self.set_labels, system.after_set_labels());
        if known.is_err() {
            return Err(known.unwrap_err());
        }
        let ghost before = self.systems@;
        self.systems.push(system);
        proof {
            let views = stage_label_views(self.stages@);
            assert(views[stage_index as int] == self.stages@[stage_index as int].label@);
            assert forall|i: int| 0 <= i < self.systems@.len() implies views.contains(#[trigger] self.systems@[i].spec_stage()) by {
                if i < before.len() {
                    assert(self.systems@[i] == before[i]);
                }
            }
            assert forall|a: int, b: int|
                0 <= a < self.systems@.len() && 0 <= b < self.systems@.len() && a != b implies (#[trigger] self.systems@[a]).spec_name()
                    != (#[trigger] self.systems@[b]).spec_name() by {
                if a < before.len() && b < before.len() {
                    assert(before[a].spec_name() != before[b].spec_name());
                } else if a < before.len() {
                    assert(self.systems@[a] == before[a]);
                } else if b < before.len() {
                    assert(self.systems@[b] == before[b]);
                }
            }
        }
        Ok(())
    }
}

/// Every label of `labels` is a registered set.
fn all_sets_known(sets: &Vec<String>, labels: &Vec<String>) -> (r: Result<(), BuildError>)
    ensures
        r is Ok <==> forall|l: int| 0 <= l < labels@.len() ==> string_views(sets@).contains(#[trigger] string_views(labels@)[l]),
        r matches Err(e) ==> (e matches BuildError::UnknownSystemSet { label } && first_unknown_set(
            string_views(sets@),
            string_views(labels@),
            label@,
        )),
{
    let mut i: usize = 0;
    while i < labels.len()
        invariant
            i <= labels@.len(),
            forall|l: int| 0 <= l < i ==> string_views(sets@).contains(#[trigger] string_views(labels@)[l]),
        decreases labels@.len() - i,
    {
        let known = ensure_set_label(sets, labels[i].as_str());
        if known.is_err() {
            proof {
                assert(string_views(labels@)[i as int] == labels@[i as int]@);
                let views = string_views(labels@);
                assert(0 <= i < views.len() && !string_views(sets@).contains(views[i as int]) && forall|l: int|
                    0 <= l < i ==> string_views(sets@).contains(#[trigger] views[l]));
            }
            return Err(known.unwrap_err());
        }
        i = i + 1;
    }
    Ok(())
}

/// `system` may join the builder: its stage exists, its label is new, its flush mode fits
/// its stage, and every set it names is registered.
pub open spec fn system_admissible<B>(builder: ScheduleBuilder<B>, system: System<B>) -> bool {
    &&& builder.stage_position(system.spec_stage()) matches Some(i) && system_flush_allowed(
        system.spec_flush_mode(),
        builder.spec_stages()[i].operation,
    )
    &&& !names_system(builder.spec_systems(), system.spec_name())
    &&& (system.spec_in_set() matches Some(l) ==> builder.spec_sets().contains(l))
    &&& forall|l: int| 0 <= l < system.spec_before_sets().len() ==> builder.spec_sets().contains(#[trigger] system.spec_before_sets()[l])
    &&& forall|l: int| 0 <= l < system.spec_after_sets().len() ==> builder.spec_sets().contains(#[trigger] system.spec_after_sets()[l])
}

/// Indices of `stage_of` whose stage is `s`, in order.
pub open spec fn members_of(stage_of: Seq<usize>, s: usize) -> Seq<usize>
    decreases stage_of.len(),
{
    if stage_of.len() == 0 {
        Seq::empty()
    } else {
        let rest = members_of(stage_of.drop_last(), s);
        if stage_of.last() == s {
            rest.push((stage_of.len() - 1) as usize)
        } else {
            rest
        }
    }
}

/// The members of a stage are the indices assigned to it, each once.
pub proof fn lemma_members_of(stage_of: Seq<usize>, s: usize)
    requires
        stage_of.len() <= usize::MAX,
    ensures
        members_of(stage_of, s).no_duplicates(),
        forall|x: usize| members_of(stage_of, s).contains(x) <==> ((x as int) < stage_of.len() && stage_of[x as int] == s),
        forall|j: int| 0 <= j < members_of(stage_of, s).len() ==> (#[trigger] members_of(stage_of, s)[j]) < stage_of.len(),
    decreases stage_of.len(),
{
    if stage_of.len() > 0 {
        let init = stage_of.drop_last();
        lemma_members_of(init, s);
        let rest = members_of(init, s);
        let n = (stage_of.len() - 1) as usize;
        assert forall|x: usize| members_of(stage_of, s).contains(x) <==> ((x as int) < stage_of.len() && stage_of[x as int] == s) by {
            if (x as int) < init.len() {
                assert(init[x as int] == stage_of[x as int]);
            }
            if stage_of.last() == s {
                let m = rest.push(n);
                if m.contains(x) && x != n {
                    let q = choose|q: int| 0 <= q < m.len() && m[q] == x;
                    assert(rest[q] == x);
                }
                if rest.contains(x) {
                    let q = choose|q: int| 0 <= q < rest.len() && rest[q] == x;
                    assert(m[q] == x);
                }
                if x == n {
                    assert(m[rest.len() as int] == x);
                }
            }
        }
        if stage_of.last() == s {
            let m = rest.push(n);
            assert forall|a: int, b: int| 0 <= a < m.len() && 0 <= b < m.len() && a != b implies m[a] != m[b] by {
                if a < rest.len() && b < rest.len() {
                } else if a < rest.len() {
                    assert(rest.contains(m[a]));
                } else if b < rest.len() {
                    assert(rest.contains(m[b]));
                }
            }
        }
    }
}

/// Indices of the systems assigned to stage `s`, in order.
fn stage_members(stage_of: &Vec<usize>, s: usize) -> (r: Vec<usize>)
    ensures
        r@ == members_of(stage_of@, s),
{
    let mut out: Vec<usize> = Vec::new();
    let mut i: usize = 0;
    while i < stage_of.len()
        invariant
            i <= stage_of@.len(),
            out@ == members_of(stage_of@.take(i as int), s),
        decreases stage_of@.len() - i,
    {
        proof {
            assert(stage_of@.take(i + 1).drop_last() =~= stage_of@.take(i as int));
        }
        if stage_of[i] == s {
            out.push(i);
        }
        i = i + 1;
    }
    proof {
        assert(stage_of@.take(stage_of@.len() as int) =~= stage_of@);
    }
    out
}

/// `label` is the first of `labels` that names no system.
pub open spec fn first_unknown_system<B>(systems: Seq<System<B>>, labels: Seq<Seq<char>>, label: Seq<char>) -> bool {
    exists|k: int|
        #![trigger labels[k]]
        0 <= k < labels.len() && labels[k] == label && !names_system(systems, label) && forall|l: int|
            0 <= l < k ==> names_system(systems, #[trigger] labels[l])
}

/// `label` is the first of `labels` that is not among `sets`.
pub open spec fn first_unknown_set(sets: Seq<Seq<char>>, labels: Seq<Seq<char>>, label: Seq<char>) -> bool {
    exists|k: int|
        #![trigger labels[k]]
        0 <= k < labels.len() && labels[k] == label && !sets.contains(label) && forall|l: int|
            0 <= l < k ==> sets.contains(#[trigger] labels[l])
}

/// `e` is what checking system `i`'s ordering references reports: the first "run before"
/// label naming no system, else the first such "run after" label, else a self reference.
pub open spec fn references_error<B>(systems: Seq<System<B>>, i: int, e: BuildError) -> bool {
    let s = systems[i];
    if !(forall|l: int| 0 <= l < s.spec_before().len() ==> names_system(systems, #[trigger] s.spec_before()[l])) {
        e matches BuildError::UnknownSystem { label } && first_unknown_system(systems, s.spec_before(), label@)
    } else if !(forall|l: int| 0 <= l < s.spec_after().len() ==> names_system(systems, #[trigger] s.spec_after()[l])) {
        e matches BuildError::UnknownSystem { label } && first_unknown_system(systems, s.spec_after(), label@)
    } else {
        e matches BuildError::SelfEdge { label } && label@ == s.spec_name()
    }
}

/// System `i`'s ordering labels all name systems, and none names `i` itself.
pub open spec fn references_ok<B>(systems: Seq<System<B>>, i: int) -> bool {
    &&& forall|l: int| 0 <= l < systems[i].spec_before().len() ==> names_system(systems, #[trigger] systems[i].spec_before()[l])
    &&& forall|l: int| 0 <= l < systems[i].spec_after().len() ==> names_system(systems, #[trigger] systems[i].spec_after()[l])
    &&& !systems[i].spec_before().contains(systems[i].spec_name())
    &&& !systems[i].spec_after().contains(systems[i].spec_name())
}

/// Every label of `labels` names a system.
fn all_systems_known<B>(systems: &Vec<System<B>>, labels: &Vec<String>) -> (r: Result<(), BuildError>)
    requires
        names_unique(systems@),
    ensures
        r is Ok <==> forall|l: int| 0 <= l < labels@.len() ==> names_system(systems@, #[trigger] string_views(labels@)[l]),
        r matches Err(e) ==> (e matches BuildError::UnknownSystem { label } && first_unknown_system(
            systems@,
            string_views(labels@),
            label@,
        )),
{
    let mut k: usize = 0;
    while k < labels.len()
        invariant
            names_unique(systems@),
            k <= labels@.len(),
            forall|l: int| 0 <= l < k ==> names_system(systems@, #[trigger] string_views(labels@)[l]),
        decreases labels@.len() - k,
    {
        if find_system(systems, labels[k].as_str()).is_none() {
            let label = labels[k].clone();
            proof {
                let views = string_views(labels@);
                assert(views[k as int] == labels@[k as int]@);
                assert(0 <= k < views.len() && views[k as int] == label@ && !names_system(systems@, label@) && forall|l: int|
                    0 <= l < k ==> names_system(systems@, #[trigger] views[l]));
            }
            return Err(BuildError::UnknownSystem { label });
        }
        proof {
            assert(string_views(labels@)[k as int] == labels@[k as int]@);
        }
        k = k + 1;
    }
    Ok(())
}

/// Whether `labels` holds `label`.
fn labels_contain(labels: &Vec<String>, label: &str) -> (r: bool)
    ensures
        r == string_views(labels@).contains(label@),
{
    let mut k: usize = 0;
    while k < labels.len()
        invariant
            k <= labels@.len(),
            forall|l: int| 0 <= l < k ==> (#[trigger] labels@[l])@ != label@,
        decreases labels@.len() - k,
    {
        if same_text(labels[k].as_str(), label) {
            proof {
                assert(string_views(labels@)[k as int] == label@);
            }
            return true;
        }
        k = k + 1;
    }
    proof {
        if string_views(labels@).contains(label@) {
            let q = choose|q: int| 0 <= q < labels@.len() && string_views(labels@)[q] == label@;
            assert(labels@[q]@ == label@);
        }
    }
    false
}

/// Checks system `i`'s ordering references: its "run before" labels, then its "run after"
/// labels, must name systems (`UnknownSystem`), and none may name `i` itself (`SelfEdge`).
fn check_references<B>(systems: &Vec<System<B>>, i: usize) -> (r: Result<(), BuildError>)
    requires
        i < systems.len(),
        names_unique(systems@),
    ensures
        r is Ok <==> references_ok(systems@, i as int),
        r matches Err(e) ==> references_error(systems@, i as int, e),
{
    let system = &systems[i];
    let known = all_systems_known(systems, system.before_labels());
    if known.is_err() {
        return Err(known.unwrap_err());
    }
    let known = all_systems_known(systems, system.after_labels());
    if known.is_err() {
        return Err(known.unwrap_err());
    }
    if labels_contain(system.before_labels(), system.name()) || labels_contain(system.after_labels(), system.name()) {
        return Err(BuildError::SelfEdge { label: system.name().to_owned() });
    }
    Ok(())
}

/// Every resource a system requires holds a value.
pub open spec fn resources_present<B, V>(systems: Seq<System<B>>, store: ResourceStore<V>) -> bool {
    forall|i: int, k: int|
        0 <= i < systems.len() && 0 <= k < systems[i].spec_required().len() ==> store.entry_of(
            #[trigger] systems[i].spec_required()[k],
        ) is Some
}

/// Name a missing required resource `id` is reported by: its registered name, or
/// `<resource>` when it was never registered.
pub open spec fn missing_resource_name<V>(store: ResourceStore<V>, id: TypeId) -> Seq<char> {
    if store.registered(id) {
        store.names()[store.slot_of(id)]
    } else {
        "<resource>"@
    }
}

/// `id` is the first required resource, in system order and then in each system's
/// declaration order, that holds no value.
pub open spec fn first_missing_resource<B, V>(systems: Seq<System<B>>, store: ResourceStore<V>, id: TypeId) -> bool {
    exists|i: int, k: int|
        #![trigger systems[i].spec_required()[k]]
        0 <= i < systems.len() && 0 <= k < systems[i].spec_required().len() && systems[i].spec_required()[k] == id
            && store.entry_of(id) is None && (forall|j: int, l: int|
            0 <= j < i && 0 <= l < systems[j].spec_required().len() ==> store.entry_of(
                #[trigger] systems[j].spec_required()[l],
            ) is Some) && (forall|l: int| 0 <= l < k ==> store.entry_of(#[trigger] systems[i].spec_required()[l]) is Some)
}

/// `e` reports the first missing required resource by name.
pub open spec fn missing_resource_error<B, V>(systems: Seq<System<B>>, store: ResourceStore<V>, e: BuildError) -> bool {
    e matches BuildError::MissingRequiredResource { name } && exists|id: TypeId|
        #[trigger] first_missing_resource(systems, store, id) && name@ == missing_resource_name(store, id)
}

/// Some system requires `id`.
pub open spec fn required_somewhere<B>(systems: Seq<System<B>>, id: TypeId) -> bool {
    exists|i: int, k: int| 0 <= i < systems.len() && 0 <= k < systems[i].spec_required().len() && #[trigger] systems[i].spec_required()[k] == id
}

/// Whether `ids` holds `id`.
fn holds_type_id(ids: &Vec<TypeId>, id: &TypeId) -> (r: bool)
    ensures
        r == ids@.contains(*id),
{
    let mut k: usize = 0;
    while k < ids.len()
        invariant
            k <= ids@.len(),
            forall|l: int| 0 <= l < k ==> ids@[l] != *id,
        decreases ids@.len() - k,
    {
        if same_type_id(&ids[k], id) {
            return true;
        }
        k = k + 1;
    }
    false
}

/// The resources the systems require, each once, checking that each holds a value
/// (`MissingRequiredResource`, named by its registration or `<resource>`).
fn collect_required<B, V>(systems: &Vec<System<B>>, store: &ResourceStore<V>) -> (r: Result<Vec<TypeId>, BuildError>)
    requires
        store.wf(),
    ensures
        r is Ok <==> resources_present(systems@, *store),
        r matches Ok(ids) ==> ids@.no_duplicates() && forall|id: TypeId| ids@.contains(id) <==> required_somewhere(systems@, id),
        r matches Err(e) ==> missing_resource_error(systems@, *store, e),
{
    let mut ids: Vec<TypeId> = Vec::new();
    let mut i: usize = 0;
    while i < systems.len()
        invariant
            store.wf(),
            i <= systems@.len(),
            ids@.no_duplicates(),
            forall|x: int, k: int|
                0 <= x < i && 0 <= k < systems@[x].spec_required().len() ==> store.entry_of(
                    #[trigger] systems@[x].spec_required()[k],
                ) is Some,
            forall|id: TypeId| ids@.contains(id) <==> exists|x: int, k: int|
                0 <= x < i && 0 <= k < systems@[x].spec_required().len() && #[trigger] systems@[x].spec_required()[k] == id,
        decreases systems@.len() - i,
    {
        let required = systems[i].required_resources();
        let mut k: usize = 0;
        while k < required.len()
            invariant
                store.wf(),
                i < systems@.len(),
                required@ == systems@[i as int].spec_required(),
                k <= required@.len(),
                ids@.no_duplicates(),
                forall|x: int, kk: int|
                    0 <= x < i && 0 <= kk < systems@[x].spec_required().len() ==> store.entry_of(
                        #[trigger] systems@[x].spec_required()[kk],
                    ) is Some,
                forall|kk: int| 0 <= kk < k ==> store.entry_of(#[trigger] required@[kk]) is Some,
                forall|id: TypeId| ids@.contains(id) <==> (exists|x: int, kk: int|
                    0 <= x < i && 0 <= kk < systems@[x].spec_required().len() && #[trigger] systems@[x].spec_required()[kk] == id)
                    || (exists|kk: int| 0 <= kk < k && required@[kk] == id),
            decreases required@.len() - k,
        {
            let id = required[k];
            let ghost start = ids@;
            if !store.contains_type(id) {
                let name = match store.registered_name(id) {
                    Some(n) => n.to_owned(),
                    None => "<resource>".to_owned(),
                };
                proof {
                    assert(systems@[i as int].spec_required()[k as int] == id);
                    assert(first_missing_resource(systems@, *store, id));
                }
                return Err(BuildError::MissingRequiredResource { name });
            }
            if !holds_type_id(&ids, &id) {
                let ghost before = ids@;
                ids.push(id);
                proof {
                    assert forall|a: int, b: int| 0 <= a < ids@.len() && 0 <= b < ids@.len() && a != b implies ids@[a] != ids@[b] by {
                        if a < before.len() && b < before.len() {
                        } else if a < before.len() {
                            assert(before.contains(ids@[a]));
                        } else if b < before.len() {
                            assert(before.contains(ids@[b]));
                        }
                    }
                    assert forall|x: TypeId| ids@.contains(x) <==> (before.contains(x) || x == id) by {
                        if ids@.contains(x) {
                            let q = choose|q: int| 0 <= q < ids@.len() && ids@[q] == x;
                            if q < before.len() {
                                assert(before[q] == x);
                            }
                        }
                        if before.contains(x) {
                            let q = choose|q: int| 0 <= q < before.len() && before[q] == x;
                            assert(ids@[q] == x);
                        }
                        if x == id {
                            assert(ids@[before.len() as int] == x);
                        }
                    }
                }
            }
            proof {
                assert(required@[k as int] == id);
                assert(forall|x: TypeId| ids@.contains(x) <==> (start.contains(x) || x == id));
                assert forall|x: TypeId| ids@.contains(x) <==> (exists|xx: int, kk: int|
                    0 <= xx < i && 0 <= kk < systems@[xx].spec_required().len() && #[trigger] systems@[xx].spec_required()[kk] == x)
                    || (exists|kk: int| 0 <= kk < k + 1 && required@[kk] == x) by {
                    assert(start.contains(x) <==> (exists|xx: int, kk: int|
                        0 <= xx < i && 0 <= kk < systems@[xx].spec_required().len() && #[trigger] systems@[xx].spec_required()[kk] == x)
                        || (exists|kk: int| 0 <= kk < k && required@[kk] == x));
                    assert(ids@.contains(x) <==> (start.contains(x) || x == id));
                    if exists|kk: int| 0 <= kk < k + 1 && required@[kk] == x {
                        let kk = choose|kk: int| 0 <= kk < k + 1 && required@[kk] == x;
                        if kk < k {
                            assert(exists|kq: int| 0 <= kq < k && required@[kq] == x);
                        }
                    }
                    if exists|kk: int| 0 <= kk < k && required@[kk] == x {
                        let kk = choose|kk: int| 0 <= kk < k && required@[kk] == x;
                        assert(0 <= kk < k + 1 && required@[kk] == x);
                    }
                    if x == id {
                        assert(0 <= k < k + 1 && required@[k as int] == x);
                    }
                }
            }
            k = k + 1;
        }
        proof {
            assert forall|id: TypeId| ids@.contains(id) <==> exists|x: int, kk: int|
                0 <= x < i + 1 && 0 <= kk < systems@[x].spec_required().len() && #[trigger] systems@[x].spec_required()[kk] == id by {
                if exists|kk: int| 0 <= kk < required@.len() && required@[kk] == id {
                    let kk = choose|kk: int| 0 <= kk < required@.len() && required@[kk] == id;
                    assert(systems@[i as int].spec_required()[kk] == id);
                }
                if exists|x: int, kk: int|
                    0 <= x < i + 1 && 0 <= kk < systems@[x].spec_required().len() && #[trigger] systems@[x].spec_required()[kk] == id {
                    let (x, kk) = choose|x: int, kk: int|
                        0 <= x < i + 1 && 0 <= kk < systems@[x].spec_required().len() && #[trigger] systems@[x].spec_required()[kk] == id;
                    if x == i {
                        assert(required@[kk] == id);
                    }
                }
            }
        }
        i = i + 1;
    }
    Ok(ids)
}

/// Two strictly increasing edge lists with the same edges are equal.
pub proof fn lemma_sorted_edges_unique(a: Seq<(usize, usize)>, b: Seq<(usize, usize)>)
    requires
        strictly_sorted(a),
        strictly_sorted(b),
        forall|e: (usize, usize)| a.contains(e) <==> b.contains(e),
    ensures
        a == b,
    decreases a.len() + b.len(),
{
    if a.len() == 0 {
        if b.len() > 0 {
            assert(b.contains(b[0]));
        }
        assert(a =~= b);
    } else if b.len() == 0 {
        assert(a.contains(a[0]));
    } else {
        assert(a.contains(a[0]));
        assert(b.contains(b[0]));
        let pa = choose|p: int| 0 <= p < b.len() && b[p] == a[0];
        let pb = choose|p: int| 0 <= p < a.len() && a[p] == b[0];
        if pa > 0 {
            assert(edge_lt(b[0], b[pa]));
            if pb > 0 {
                assert(edge_lt(a[0], a[pb]));
            }
        }
        assert(a[0] == b[0]);
        let ta = a.drop_first();
        let tb = b.drop_first();
        assert forall|e: (usize, usize)| ta.contains(e) <==> tb.contains(e) by {
            if ta.contains(e) {
                let q = choose|q: int| 0 <= q < ta.len() && ta[q] == e;
                assert(a[q + 1] == e);
                assert(edge_lt(a[0], a[q + 1]));
                assert(b.contains(e));
                let r = choose|r: int| 0 <= r < b.len() && b[r] == e;
                assert(r != 0);
                assert(tb[r - 1] == e);
            }
            if tb.contains(e) {
                let q = choose|q: int| 0 <= q < tb.len() && tb[q] == e;
                assert(b[q + 1] == e);
                assert(edge_lt(b[0], b[q + 1]));
                assert(a.contains(e));
                let r = choose|r: int| 0 <= r < a.len() && a[r] == e;
                assert(r != 0);
                assert(ta[r - 1] == e);
            }
        }
        lemma_sorted_edges_unique(ta, tb);
        assert(a =~= seq![a[0]] + ta);
        assert(b =~= seq![b[0]] + tb);
    }
}


/// The world accepts a new schedule: nothing pending, nothing running, no interrupted
/// mutation, no live schedule attached.
pub open spec fn world_ready<V>(world: WorldState<V>) -> bool {
    &&& !world.pending_commands
    &&& world.run_guard == RunGuard::Idle
    &&& !world.mutation_poisoned
    &&& !world.live_lease
}

/// Checks the world's state: pending commands, then a running operation, then an interrupted
/// mutation, then a live schedule.
fn check_world<V>(world: &WorldState<V>) -> (r: Result<(), BuildError>)
    ensures
        r is Ok <==> world_ready(*world),
        world.pending_commands ==> r == Err::<(), BuildError>(BuildError::PendingCommands),
        !world.pending_commands && world.run_guard != RunGuard::Idle ==> r == Err::<(), BuildError>(BuildError::WorldRunning),
        !world.pending_commands && world.run_guard == RunGuard::Idle && world.mutation_poisoned ==> r == Err::<(), BuildError>(
            BuildError::WorldMutationPoisoned,
        ),
        !world.pending_commands && world.run_guard == RunGuard::Idle && !world.mutation_poisoned && world.live_lease ==> r
            == Err::<(), BuildError>(BuildError::LiveLeaseAlreadyAttached),
{
    if world.pending_commands {
        return Err(BuildError::PendingCommands);
    }
    match world.run_guard {
        RunGuard::Idle => {},
        RunGuard::Running(_) => {
            return Err(BuildError::WorldRunning);
        },
    }
    if world.mutation_poisoned {
        return Err(BuildError::WorldMutationPoisoned);
    }
    if world.live_lease {
        return Err(BuildError::LiveLeaseAlreadyAttached);
    }
    Ok(())
}

/// Some stage is the fixed-step stage.
pub open spec fn has_fixed_stage(stages: Seq<StageDescriptor>) -> bool {
    stage_label_views(stages).contains(FIXED_UPDATE@)
}

/// Some system runs in the fixed-step stage.
pub open spec fn has_fixed_system<B>(systems: Seq<System<B>>) -> bool {
    exists|i: int| 0 <= i < systems.len() && (#[trigger] systems[i]).spec_stage() == FIXED_UPDATE@
}

/// Fixed-step systems have a configuration, and a configuration has a fixed-step stage.
pub open spec fn fixed_ok<B>(b: ScheduleBuilder<B>) -> bool {
    &&& has_fixed_system(b.spec_systems()) ==> b.spec_fixed() is Some
    &&& b.spec_fixed() is Some ==> has_fixed_stage(b.spec_stages())
}

/// Stage position of each system.
pub open spec fn system_stages<B>(b: ScheduleBuilder<B>) -> Seq<usize> {
    b.spec_systems().map_values(
        |s: System<B>|
            match b.stage_position(s.spec_stage()) {
                Some(p) => p as usize,
                None => 0usize,
            },
    )
}

/// Operation of each stage.
pub open spec fn stage_operations(stages: Seq<StageDescriptor>) -> Seq<StageOperation> {
    stages.map_values(|d: StageDescriptor| d.operation)
}

/// System `i` may run in its stage, its ordering labels resolve without naming itself, and
/// its ordering sets are registered.
pub open spec fn system_valid<B>(b: ScheduleBuilder<B>, i: int) -> bool {
    let systems = b.spec_systems();
    &&& system_flush_allowed(systems[i].spec_flush_mode(), b.spec_stages()[system_stages(b)[i] as int].operation)
    &&& references_ok(systems, i)
    &&& forall|l: int| 0 <= l < systems[i].spec_before_sets().len() ==> b.spec_sets().contains(#[trigger] systems[i].spec_before_sets()[l])
    &&& forall|l: int| 0 <= l < systems[i].spec_after_sets().len() ==> b.spec_sets().contains(#[trigger] systems[i].spec_after_sets()[l])
}

/// Every system is valid.
pub open spec fn systems_valid<B>(b: ScheduleBuilder<B>) -> bool {
    forall|i: int| 0 <= i < b.spec_systems().len() ==> #[trigger] system_valid(b, i)
}

/// `e` is one of the failures the per-system checks report.
pub open spec fn system_error(e: BuildError) -> bool {
    e is InvalidSystemFlushMode || e is UnknownSystem || e is SelfEdge || e is UnknownSystemSet
}

/// `e` is what checking system `i` reports: a flush mode its stage does not allow, else its
/// ordering references' failure, else the first "run before" set that is not registered,
/// else the first such "run after" set.
pub open spec fn system_check_error<B>(b: ScheduleBuilder<B>, i: int, e: BuildError) -> bool {
    let systems = b.spec_systems();
    let s = systems[i];
    if !system_flush_allowed(s.spec_flush_mode(), b.spec_stages()[system_stages(b)[i] as int].operation) {
        e matches BuildError::InvalidSystemFlushMode { label, mode } && label@ == s.spec_name() && mode == s.spec_flush_mode()
    } else if !references_ok(systems, i) {
        references_error(systems, i, e)
    } else if !(forall|l: int| 0 <= l < s.spec_before_sets().len() ==> b.spec_sets().contains(#[trigger] s.spec_before_sets()[l])) {
        e matches BuildError::UnknownSystemSet { label } && first_unknown_set(b.spec_sets(), s.spec_before_sets(), label@)
    } else {
        e matches BuildError::UnknownSystemSet { label } && first_unknown_set(b.spec_sets(), s.spec_after_sets(), label@)
    }
}

/// `e` is what the first system that fails its checks reports.
pub open spec fn system_failure<B>(b: ScheduleBuilder<B>, e: BuildError) -> bool {
    exists|i: int|
        #![trigger system_check_error(b, i, e)]
        0 <= i < b.spec_systems().len() && !system_valid(b, i) && (forall|j: int| 0 <= j < i ==> #[trigger] system_valid(b, j))
            && system_check_error(b, i, e)
}

impl<B> ScheduleBuilder<B> {
    /// Checks that fixed-step systems have a configuration, then that a configuration has a
    /// fixed-step stage.
    fn check_fixed(&self) -> (r: Result<(), BuildError>)
        ensures
            r is Ok <==> fixed_ok(*self),
            has_fixed_system(self.spec_systems()) && self.spec_fixed() is None ==> r == Err::<(), BuildError>(
                BuildError::FixedUpdateWithoutConfig,
            ),
            !(has_fixed_system(self.spec_systems()) && self.spec_fixed() is None) && self.spec_fixed() is Some
                && !has_fixed_stage(self.spec_stages()) ==> r == Err::<(), BuildError>(BuildError::FixedConfigWithoutFixedUpdate),
    {
        let mut fixed_stage = false;
        let mut i: usize = 0;
        while i < self.stages.len()
            invariant
                i <= self.stages@.len(),
                fixed_stage <==> exists|j: int| 0 <= j < i && (#[trigger] self.stages@[j]).label@ == FIXED_UPDATE@,
            decreases self.stages@.len() - i,
        {
            if same_text(self.stages[i].label.as_str(), FIXED_UPDATE) {
                fixed_stage = true;
            }
            i = i + 1;
        }
        proof {
            let views = stage_label_views(self.stages@);
            if fixed_stage {
                let j = choose|j: int| 0 <= j < self.stages@.len() && (#[trigger] self.stages@[j]).label@ == FIXED_UPDATE@;
                assert(views[j] == FIXED_UPDATE@);
            }
            if views.contains(FIXED_UPDATE@) {
                let j = choose|j: int| 0 <= j < views.len() && views[j] == FIXED_UPDATE@;
                assert(self.stages@[j].label@ == FIXED_UPDATE@);
            }
        }
        let mut fixed_system = false;
        let mut k: usize = 0;
        while k < self.systems.len()
            invariant
                k <= self.systems@.len(),
                fixed_system <==> exists|j: int| 0 <= j < k && (#[trigger] self.systems@[j]).spec_stage() == FIXED_UPDATE@,
            decreases self.systems@.len() - k,
        {
            if same_text(self.systems[k].stage_label(), FIXED_UPDATE) {
                fixed_system = true;
            }
            k = k + 1;
        }
        if fixed_system && self.fixed_config.is_none() {
            return Err(BuildError::FixedUpdateWithoutConfig);
        }
        if self.fixed_config.is_some() && !fixed_stage {
            return Err(BuildError::FixedConfigWithoutFixedUpdate);
        }
        Ok(())
    }

    /// Stage position of each system.
    fn system_stage_indices(&self) -> (r: Vec<usize>)
        requires
            self.wf(),
        ensures
            r@ == system_stages(*self),
            forall|i: int| 0 <= i < r@.len() ==> (#[trigger] r@[i]) < self.spec_stages().len(),
    {
        let mut out: Vec<usize> = Vec::new();
        let mut i: usize = 0;
        while i < self.systems.len()
            invariant
                self.wf(),
                i <= self.systems@.len(),
                out@ == system_stages(*self).take(i as int),
                forall|j: int| 0 <= j < out@.len() ==> (#[trigger] out@[j]) < self.spec_stages().len(),
            decreases self.systems@.len() - i,
        {
            let found = self.find_stage(self.systems[i].stage_label());
            proof {
                assert(stage_label_views(self.stages@).contains(self.systems@[i as int].spec_stage()));
            }
            let position = match found {
                Some(p) => p,
                None => 0,
            };
            out.push(position);
            proof {
                assert(out@ =~= system_stages(*self).take(i + 1));
            }
            i = i + 1;
        }
        proof {
            assert(out@ =~= system_stages(*self));
        }
        out
    }

    /// Position among the registered sets of each system's set, if it has one.
    fn system_set_indices(&self) -> (r: Vec<Option<usize>>)
        requires
            self.wf(),
        ensures
            r@.len() == self.spec_systems().len(),
            forall|i: int|
                0 <= i < r@.len() ==> match #[trigger] r@[i] {
                    Some(k) => k < self.spec_sets().len() && self.spec_systems()[i].spec_in_set() == Some(self.spec_sets()[k as int]),
                    None => !(self.spec_systems()[i].spec_in_set() matches Some(l) && self.spec_sets().contains(l)),
                },
    {
        let mut out: Vec<Option<usize>> = Vec::new();
        let mut i: usize = 0;
        while i < self.systems.len()
            invariant
                self.wf(),
                i <= self.systems@.len(),
                out@.len() == i,
                forall|j: int|
                    0 <= j < i ==> match #[trigger] out@[j] {
                        Some(k) => k < self.spec_sets().len() && self.spec_systems()[j].spec_in_set() == Some(self.spec_sets()[k as int]),
                        None => !(self.spec_systems()[j].spec_in_set() matches Some(l) && self.spec_sets().contains(l)),
                    },
            decreases self.systems@.len() - i,
        {
            let index = match self.systems[i].in_set_label() {
                Some(label) => self.find_set(label),
                None => None,
            };
            out.push(index);
            i = i + 1;
        }
        out
    }

    /// Checks each system in order: its flush mode against its stage, its ordering labels,
    /// then its ordering sets.
    fn check_systems(&self, stage_of: &Vec<usize>) -> (r: Result<(), BuildError>)
        requires
            self.wf(),
            stage_of@ == system_stages(*self),
            forall|i: int| 0 <= i < stage_of@.len() ==> (#[trigger] stage_of@[i]) < self.spec_stages().len(),
        ensures
            r is Ok <==> systems_valid(*self),
            r matches Err(e) ==> system_failure(*self, e) && system_error(e),
    {
        let mut i: usize = 0;
        while i < self.systems.len()
            invariant
                self.wf(),
                stage_of@ == system_stages(*self),
                forall|j: int| 0 <= j < stage_of@.len() ==> (#[trigger] stage_of@[j]) < self.spec_stages().len(),
                i <= self.systems@.len(),
                forall|j: int| 0 <= j < i ==> #[trigger] system_valid(*self, j),
            decreases self.systems@.len() - i,
        {
            let system = &self.systems[i];
            let operation = self.stages[stage_of[i]].operation;
            let flush = validate_system_flush_mode(system, operation);
            if flush.is_err() {
                let e = flush.unwrap_err();
                proof {
                    assert(stage_of@[i as int] == system_stages(*self)[i as int]);
                    assert(!system_valid(*self, i as int));
                    assert(system_check_error(*self, i as int, e));
                }
                return Err(e);
            }
            let references = check_references(&self.systems, i);
            if references.is_err() {
                let e = references.unwrap_err();
                proof {
                    assert(stage_of@[i as int] == system_stages(*self)[i as int]);
                    assert(!system_valid(*self, i as int));
                    assert(system_check_error(*self, i as int, e));
                }
                return Err(e);
            }
            let before_sets = all_sets_known(&self.set_labels, system.before_set_labels());
            if before_sets.is_err() {
                let e = before_sets.unwrap_err();
                proof {
                    let labels = self.systems@[i as int].spec_before_sets();
                    let l = choose|l: int| 0 <= l < labels.len() && !string_views(self.set_labels@).contains(labels[l]);
                    assert(!self.spec_sets().contains(labels[l]));
                    assert(stage_of@[i as int] == system_stages(*self)[i as int]);
                    assert(!system_valid(*self, i as int));
                    assert(system_check_error(*self, i as int, e));
                }
                return Err(e);
            }
            let after_sets = all_sets_known(&self.set_labels, system.after_set_labels());
            if after_sets.is_err() {
                let e = after_sets.unwrap_err();
                proof {
                    let labels = self.systems@[i as int].spec_after_sets();
                    let l = choose|l: int| 0 <= l < labels.len() && !string_views(self.set_labels@).contains(labels[l]);
                    assert(!self.spec_sets().contains(labels[l]));
                    assert(stage_of@[i as int] == system_stages(*self)[i as int]);
                    assert(!system_valid(*self, i as int));
                    assert(system_check_error(*self, i as int, e));
                }
                return Err(e);
            }
            proof {
                assert(system_valid(*self, i as int));
            }
            i = i + 1;
        }
        Ok(())
    }
}


/// Stage `s` has a run order for its systems under `edges`.
pub open spec fn stage_orderable(stage_of: Seq<usize>, edges: Seq<(usize, usize)>, s: usize) -> bool {
    exists|o: Seq<usize>| is_run_order(o, members_of(stage_of, s), edges)
}

/// Every edge joins two systems of one stage.
pub open spec fn edges_within_stages(stage_of: Seq<usize>, edges: Seq<(usize, usize)>) -> bool {
    forall|k: int|
        0 <= k < edges.len() ==> {
            &&& (#[trigger] edges[k]).0 < stage_of.len()
            &&& edges[k].1 < stage_of.len()
            &&& stage_of[edges[k].0 as int] == stage_of[edges[k].1 as int]
        }
}

/// Stage `s` compiled: its descriptor and the run order of its systems, each runnable
/// system taken smallest index first.
pub open spec fn stage_compiled(
    c: CompiledStage,
    descriptor: StageDescriptor,
    stage_of: Seq<usize>,
    edges: Seq<(usize, usize)>,
    s: usize,
) -> bool {
    &&& c.descriptor == descriptor
    &&& is_run_order(c.system_order@, members_of(stage_of, s), edges)
    &&& smallest_first(c.system_order@, members_of(stage_of, s), edges)
}

/// Orders the systems of each stage, in stage order; the first stage whose systems have no
/// run order reports its cycle.
fn compile_stages<B>(
    stages: Vec<StageDescriptor>,
    stage_of: &Vec<usize>,
    systems: &Vec<System<B>>,
    edges: &Vec<(usize, usize)>,
) -> (r: Result<Vec<CompiledStage>, BuildError>)
    requires
        stage_of.len() == systems.len(),
        forall|i: int| 0 <= i < stage_of@.len() ==> (#[trigger] stage_of@[i]) < stages.len(),
        edges_within_stages(stage_of@, edges@),
    ensures
        r is Ok <==> forall|s: usize| s < stages@.len() ==> #[trigger] stage_orderable(stage_of@, edges@, s),
        r matches Ok(compiled) ==> compiled@.len() == stages@.len() && forall|s: int|
            0 <= s < compiled@.len() ==> stage_compiled(#[trigger] compiled@[s], stages@[s], stage_of@, edges@, s as usize),
        r matches Err(e) ==> exists|s: usize|
            s < stages@.len() && !stage_orderable(stage_of@, edges@, s) && (forall|t: usize|
                t < s ==> #[trigger] stage_orderable(stage_of@, edges@, t)) && #[trigger] is_cycle_error(
                e,
                members_of(stage_of@, s),
                systems@,
            ),
{
    let ghost all = stages@;
    let mut rest = stages;
    let mut out: Vec<CompiledStage> = Vec::new();
    let mut failure: Option<BuildError> = None;
    let mut s: usize = 0;
    let count = rest.len();
    while s < count
        invariant_except_break
            failure is None,
        invariant
            count == all.len(),
            s <= count,
            rest@ == all.skip(s as int),
            out@.len() == s,
            stage_of.len() == systems.len(),
            forall|i: int| 0 <= i < stage_of@.len() ==> (#[trigger] stage_of@[i]) < count,
            edges_within_stages(stage_of@, edges@),
            forall|t: int| 0 <= t < s ==> stage_compiled(#[trigger] out@[t], all[t], stage_of@, edges@, t as usize),
            forall|t: usize| t < s ==> #[trigger] stage_orderable(stage_of@, edges@, t),
        ensures
            failure is None ==> s == count,
            failure matches Some(e) ==> is_cycle_error(e, members_of(stage_of@, s), systems@) && s < count
                && !stage_orderable(stage_of@, edges@, s),
        decreases count - s,
    {
        let members = stage_members(stage_of, s);
        proof {
            lemma_members_of(stage_of@, s);
            assert forall|k: int|
                0 <= k < edges.len() && members@.contains((#[trigger] edges@[k]).0) implies members@.contains(edges@[k].1) by {
                assert(stage_of@[edges@[k].0 as int] == s);
            }
        }
        let order = topological_sort(&members, systems, edges);
        match order {
            Ok(order) => {
                let descriptor = rest.remove(0);
                proof {
                    assert(descriptor == all[s as int]);
                    assert(rest@ =~= all.skip(s + 1));
                }
                out.push(CompiledStage { descriptor, system_order: order });
                proof {
                    assert(stage_compiled(out@[s as int], all[s as int], stage_of@, edges@, s));
                }
                s = s + 1;
            },
            Err(e) => {
                failure = Some(e);
                break;
            },
        }
    }
    match failure {
        Some(e) => {
            proof {
                assert(forall|t: usize| t < s ==> #[trigger] stage_orderable(stage_of@, edges@, t));
                assert(is_cycle_error(e, members_of(stage_of@, s), systems@));
            }
            return Err(e);
        },
        None => {},
    }
    Ok(out)
}

/// Indices of `operations` equal to `operation`, in increasing order.
fn operation_order(operations: &Vec<StageOperation>, operation: StageOperation) -> (r: Vec<usize>)
    ensures
        forall|a: int, b: int| 0 <= a < b < r@.len() ==> (#[trigger] r@[a]) < (#[trigger] r@[b]),
        forall|x: usize| r@.contains(x) <==> ((x as int) < operations@.len() && operations@[x as int] == operation),
{
    let mut out: Vec<usize> = Vec::new();
    let mut i: usize = 0;
    while i < operations.len()
        invariant
            i <= operations@.len(),
            forall|a: int, b: int| 0 <= a < b < out@.len() ==> (#[trigger] out@[a]) < (#[trigger] out@[b]),
            forall|a: int| 0 <= a < out@.len() ==> (#[trigger] out@[a]) < i,
            forall|x: usize| out@.contains(x) <==> ((x as int) < i && operations@[x as int] == operation),
        decreases operations@.len() - i,
    {
        if operations[i] == operation {
            let ghost before = out@;
            out.push(i);
            proof {
                assert forall|x: usize| out@.contains(x) <==> ((x as int) < i + 1 && operations@[x as int] == operation) by {
                    if out@.contains(x) {
                        let q = choose|q: int| 0 <= q < out@.len() && out@[q] == x;
                        if q < before.len() {
                            assert(before.contains(x));
                        }
                    }
                    if (x as int) < i && operations@[x as int] == operation {
                        assert(before.contains(x));
                        let q = choose|q: int| 0 <= q < before.len() && before[q] == x;
                        assert(out@[q] == x);
                    }
                    if x == i {
                        assert(out@[before.len() as int] == x);
                    }
                }
            }
        }
        i = i + 1;
    }
    out
}


/// System `i` compiled from `s`: its label, stage, body, initial enabled state, flush mode,
/// conditions, set position, handle and event access.
pub open spec fn system_compiled<B>(
    c: CompiledSystem<B>,
    s: System<B>,
    stage: usize,
    set: Option<usize>,
    access: EventAccess,
    i: int,
) -> bool {
    &&& c.name@ == s.spec_name()
    &&& c.stage_index == stage
    &&& c.body == s.spec_body()
    &&& c.enabled == s.spec_enabled()
    &&& c.flush_mode == s.spec_flush_mode()
    &&& c.conditions@ == s.spec_conditions()
    &&& c.in_set_index == set
    &&& c.id.spec_index() == i as u32
    &&& c.id.spec_generation() == 1
    &&& c.event_access == access
}

/// Compiles each system, in order, handing out generation-1 handles.
fn compile_systems<B>(
    systems: Vec<System<B>>,
    stage_of: &Vec<usize>,
    set_index: &Vec<Option<usize>>,
    access: Vec<EventAccess>,
    owner: &ScheduleOwner,
) -> (r: Vec<CompiledSystem<B>>)
    requires
        stage_of.len() == systems.len(),
        set_index.len() == systems.len(),
        access.len() == systems.len(),
    ensures
        r@.len() == systems@.len(),
        forall|i: int|
            0 <= i < r@.len() ==> system_compiled(#[trigger] r@[i], systems@[i], stage_of@[i], set_index@[i], access@[i], i),
{
    let ghost all = systems@;
    let ghost all_access = access@;
    let count = systems.len();
    let mut rest = systems;
    let mut rest_access = access;
    let mut out: Vec<CompiledSystem<B>> = Vec::new();
    let mut i: usize = 0;
    while i < count
        invariant
            count == all.len(),
            all_access.len() == count,
            stage_of.len() == count,
            set_index.len() == count,
            i <= count,
            rest@ == all.skip(i as int),
            rest_access@ == all_access.skip(i as int),
            out@.len() == i,
            forall|j: int|
                0 <= j < i ==> system_compiled(#[trigger] out@[j], all[j], stage_of@[j], set_index@[j], all_access[j], j),
        decreases count - i,
    {
        let system = rest.remove(0);
        let event_access = rest_access.remove(0);
        proof {
            assert(system == all[i as int]);
            assert(event_access == all_access[i as int]);
            assert(rest@ =~= all.skip(i + 1));
            assert(rest_access@ =~= all_access.skip(i + 1));
        }
        let name = system.name().to_owned();
        let enabled = system.enabled();
        let flush_mode = system.flush_mode_value();
        let (body, conditions) = system.into_parts();
        let id = SystemId::new(owner.clone(), i as u32, 1);
        out.push(
            CompiledSystem {
                name,
                stage_index: stage_of[i],
                body,
                enabled,
                flush_mode,
                conditions,
                in_set_index: set_index[i],
                id,
                event_access,
            },
        );
        proof {
            assert(system_compiled(out@[i as int], all[i as int], stage_of@[i as int], set_index@[i as int], all_access[i as int], i as int));
        }
        i = i + 1;
    }
    out
}

/// Initial enabled state of each compiled system.
fn enabled_flags<B>(systems: &Vec<CompiledSystem<B>>) -> (r: Vec<bool>)
    ensures
        r@.len() == systems@.len(),
        forall|i: int| 0 <= i < r@.len() ==> r@[i] == (#[trigger] systems@[i]).enabled,
{
    let mut out: Vec<bool> = Vec::new();
    let mut i: usize = 0;
    while i < systems.len()
        invariant
            i <= systems@.len(),
            out@.len() == i,
            forall|j: int| 0 <= j < i ==> out@[j] == (#[trigger] systems@[j]).enabled,
        decreases systems@.len() - i,
    {
        out.push(systems[i].enabled);
        i = i + 1;
    }
    out
}

/// Operation of each stage, in order.
fn operation_list(stages: &Vec<StageDescriptor>) -> (r: Vec<StageOperation>)
    ensures
        r@ == stage_operations(stages@),
{
    let mut out: Vec<StageOperation> = Vec::new();
    let mut i: usize = 0;
    while i < stages.len()
        invariant
            i <= stages@.len(),
            out@ == stage_operations(stages@).take(i as int),
        decreases stages@.len() - i,
    {
        out.push(stages[i].operation);
        proof {
            assert(out@ =~= stage_operations(stages@).take(i + 1));
        }
        i = i + 1;
    }
    proof {
        assert(out@ =~= stage_operations(stages@));
    }
    out
}


/// The declared ordering edges as a strictly increasing list (there is exactly one).
pub open spec fn edge_list<B>(systems: Seq<System<B>>, pairs: Seq<(Seq<char>, Seq<char>)>) -> Seq<(usize, usize)> {
    choose|e: Seq<(usize, usize)>|
        strictly_sorted(e) && forall|x: (usize, usize)| #[trigger] e.contains(x) <==> ordering_edge(systems, pairs, x.0 as int, x.1 as int)
}

/// Everything building checks holds: the world is ready, the fixed-step setup is
/// consistent, every system is valid, required resources hold values, ordering references
/// resolve within stages, every stage has a run order, and event roles resolve with their
/// producers running first.
pub open spec fn buildable<B, V>(
    b: ScheduleBuilder<B>,
    world: WorldState<V>,
    regs: Seq<Seq<Option<EventRegistration>>>,
) -> bool {
    let systems = b.spec_systems();
    let stage_of = system_stages(b);
    let operations = stage_operations(b.spec_stages());
    let edges = edge_list(systems, b.spec_set_ordering());
    &&& world_ready(world)
    &&& fixed_ok(b)
    &&& systems_valid(b)
    &&& resources_present(systems, *world.resources)
    &&& ordering_valid(systems, b.spec_sets(), b.spec_set_ordering())
    &&& forall|s: usize| s < b.spec_stages().len() ==> #[trigger] stage_orderable(stage_of, edges, s)
    &&& roles_resolve(systems, stage_of, operations, regs)
    &&& producers_precede(systems, stage_of, operations, edges, regs)
}

/// `e` is one of the failures building reports.
pub open spec fn build_error(e: BuildError) -> bool {
    ||| e is PendingCommands
    ||| e is WorldRunning
    ||| e is WorldMutationPoisoned
    ||| e is LiveLeaseAlreadyAttached
    ||| e is FixedUpdateWithoutConfig
    ||| e is FixedConfigWithoutFixedUpdate
    ||| system_error(e)
    ||| e is MissingRequiredResource
    ||| ordering_error(e)
    ||| e is Cycle
    ||| event_error(e)
}

/// `c` is the schedule compiled from `b`: generation 1, each stage with its descriptor and
/// smallest-first run order, each system compiled in place, Update and Render stages listed
/// in order, systems' initial enabled states, the sets' conditions, the fixed-step
/// configuration with an empty accumulator, startup not yet run, and the required resources,
/// each once.
pub open spec fn compiled_from<B>(c: CompiledSchedule<B>, b: ScheduleBuilder<B>, regs: Seq<Seq<Option<EventRegistration>>>) -> bool {
    let systems = b.spec_systems();
    let stage_of = system_stages(b);
    let operations = stage_operations(b.spec_stages());
    let edges = edge_list(systems, b.spec_set_ordering());
    &&& c.generation == 1
    &&& c.stages@.len() == b.spec_stages().len()
    &&& forall|s: int| 0 <= s < c.stages@.len() ==> stage_compiled(#[trigger] c.stages@[s], b.spec_stages()[s], stage_of, edges, s as usize)
    &&& c.systems@.len() == systems.len()
    &&& forall|i: int|
        0 <= i < c.systems@.len() ==> {
            &&& (#[trigger] c.systems@[i]).name@ == systems[i].spec_name()
            &&& c.systems@[i].stage_index == stage_of[i]
            &&& c.systems@[i].body == systems[i].spec_body()
            &&& c.systems@[i].enabled == systems[i].spec_enabled()
            &&& c.systems@[i].flush_mode == systems[i].spec_flush_mode()
            &&& c.systems@[i].conditions@ == systems[i].spec_conditions()
            &&& c.systems@[i].id.spec_index() == i as u32
            &&& c.systems@[i].id.spec_generation() == 1
            &&& c.systems@[i].event_access.emitted@ == access_ids(systems[i].spec_roles(), regs[i], true)
            &&& c.systems@[i].event_access.consumed@ == access_ids(systems[i].spec_roles(), regs[i], false)
            &&& match c.systems@[i].in_set_index {
                Some(k) => k < b.spec_sets().len() && systems[i].spec_in_set() == Some(b.spec_sets()[k as int]),
                None => !(systems[i].spec_in_set() matches Some(l) && b.spec_sets().contains(l)),
            }
        }
    &&& forall|a: int, z: int| 0 <= a < z < c.update_stage_order@.len() ==> (#[trigger] c.update_stage_order@[a]) < (#[trigger] c.update_stage_order@[z])
    &&& forall|x: usize| c.update_stage_order@.contains(x) <==> ((x as int) < operations.len() && operations[x as int] == StageOperation::Update)
    &&& forall|a: int, z: int| 0 <= a < z < c.render_stage_order@.len() ==> (#[trigger] c.render_stage_order@[a]) < (#[trigger] c.render_stage_order@[z])
    &&& forall|x: usize| c.render_stage_order@.contains(x) <==> ((x as int) < operations.len() && operations[x as int] == StageOperation::Render)
    &&& c.system_enabled@.len() == systems.len()
    &&& forall|i: int| 0 <= i < systems.len() ==> c.system_enabled@[i] == (#[trigger] systems[i]).spec_enabled()
    &&& c.set_conditions@ == b.spec_set_conditions()
    &&& c.fixed_config == b.spec_fixed()
    &&& c.fixed_accumulator.spec_remainder() == 0
    &&& c.fixed_accumulator.spec_next_index() == 0
    &&& !c.startup_complete
    &&& c.required_resources@.no_duplicates()
    &&& forall|id: TypeId| c.required_resources@.contains(id) <==> required_somewhere(systems, id)
}

/// Systems in different stages of one operation run in stage order: the one in the earlier
/// stage runs before the one in the later stage, never the other way round; systems of
/// different operations do not run before one another.
pub proof fn law_earlier_stage_runs_first(
    stage_of: Seq<usize>,
    operations: Seq<StageOperation>,
    edges: Seq<(usize, usize)>,
    p: int,
    c: int,
)
    requires
        0 <= p < stage_of.len(),
        0 <= c < stage_of.len(),
        stage_of[p] != stage_of[c],
    ensures
        ({
            let (early, late) = (stage_of[p], stage_of[c]);
            operations[late as int] == operations[early as int] && late > early ==> precedes(stage_of, operations, edges, p, c)
                && !precedes(stage_of, operations, edges, c, p)
        }),
        operations[stage_of[c] as int] != operations[stage_of[p] as int] ==> !precedes(stage_of, operations, edges, p, c),
{
}

/// A system's stage is one of the builder's stages.
proof fn lemma_system_stage_bound<B>(b: ScheduleBuilder<B>, x: int)
    requires
        b.wf(),
        0 <= x < b.spec_systems().len(),
    ensures
        system_stages(b)[x] < b.spec_stages().len(),
{
    let views = stage_label_views(b.spec_stages());
    let label = b.spec_systems()[x].spec_stage();
    assert(views.contains(label));
    let k = views.index_of(label);
    assert(0 <= k < views.len() && views[k] == label);
    assert(b.stages@.len() == b.stages.len());
    assert(system_stages(b)[x] == k as usize);
}

/// The schedule's stage order for `operation`.
pub open spec fn operation_stage_order<B>(compiled: CompiledSchedule<B>, operation: StageOperation) -> Seq<usize> {
    match operation {
        StageOperation::Update => compiled.update_stage_order@,
        StageOperation::Render => compiled.render_stage_order@,
    }
}

/// `order` lists stage `earlier` before stage `later`.
pub open spec fn runs_in_earlier_stage(order: Seq<usize>, earlier: usize, later: usize) -> bool {
    exists|i: int, j: int| 0 <= i < j < order.len() && order[i] == earlier && order[j] == later
}

/// In a built schedule, every producer of a channel that a consumer in another stage reads
/// runs in an earlier stage of the consumer's operation: the schedule's stage order for
/// that operation lists the producer's stage before the consumer's.
pub proof fn law_producers_run_in_earlier_stages<B, V>(
    compiled: CompiledSchedule<B>,
    b: ScheduleBuilder<B>,
    world: WorldState<V>,
    regs: Seq<Seq<Option<EventRegistration>>>,
    consumer: int,
    k: int,
    producer: int,
)
    requires
        b.wf(),
        buildable(b, world, regs),
        compiled_from(compiled, b, regs),
        0 <= consumer < b.spec_systems().len(),
        0 <= k < b.spec_systems()[consumer].spec_roles().len(),
        b.spec_systems()[consumer].spec_roles()[k].kind == EventRoleKind::Consumes,
        regs[consumer][k] is Some,
        !regs[consumer][k]->0.external_source,
        0 <= producer < b.spec_systems().len(),
        emits_on(b.spec_systems(), regs, producer, regs[consumer][k]->0.event_id),
        system_stages(b)[producer] != system_stages(b)[consumer],
    ensures
        runs_in_earlier_stage(
            operation_stage_order(compiled, stage_operations(b.spec_stages())[system_stages(b)[consumer] as int]),
            system_stages(b)[producer],
            system_stages(b)[consumer],
        ),
{
    let systems = b.spec_systems();
    let stage_of = system_stages(b);
    let operations = stage_operations(b.spec_stages());
    let edges = edge_list(systems, b.spec_set_ordering());
    assert(producers_precede(systems, stage_of, operations, edges, regs));
    let role = systems[consumer].spec_roles()[k];
    assert(role.kind == EventRoleKind::Consumes);
    assert(precedes(stage_of, operations, edges, producer, consumer));
    lemma_system_stage_bound(b, producer);
    lemma_system_stage_bound(b, consumer);
    let sp = stage_of[producer];
    let sc = stage_of[consumer];
    let order = operation_stage_order(compiled, operations[sc as int]);
    assert(operations[sp as int] == operations[sc as int] && sp < sc);
    assert(order.contains(sp));
    assert(order.contains(sc));
    let i = choose|i: int| 0 <= i < order.len() && order[i] == sp;
    let j = choose|j: int| 0 <= j < order.len() && order[j] == sc;
    if j <= i {
        if j < i {
            assert(order[j] < order[i]);
        }
    }
    assert(0 <= i < j < order.len() && order[i] == sp && order[j] == sc);
}

impl<B> ScheduleBuilder<B> {
    /// Number of systems added so far.
    pub fn system_count(&self) -> (r: usize)
        ensures
            r == self.spec_systems().len(),
    {
        self.systems.len()
    }

    /// Event roles declared by system `index`, in declaration order.
    pub fn system_roles(&self, index: usize) -> (r: &Vec<EventRole>)
        requires
            index < self.spec_systems().len(),
        ensures
            r@ == self.spec_systems()[index as int].spec_roles(),
    {
        self.systems[index].roles()
    }

    /// Validates the graph against the world and compiles it. `registrations[i][k]` is how
    /// the world resolves the `k`-th event role of system `i` (`None` when the event is not
    /// registered).
    ///
    /// Checks, in order: the world's state, the fixed-step setup, each system (flush mode,
    /// ordering labels, ordering sets), required resources, ordering edges, each stage's run
    /// order, then event roles; the first failure is returned.
    pub fn build<V>(
        self,
        world: &WorldState<V>,
        registrations: &Vec<Vec<Option<EventRegistration>>>,
    ) -> (r: Result<Schedule<B>, BuildError>)
        requires
            self.wf(),
            world.resources.wf(),
            registrations.len() == self.spec_systems().len(),
            forall|i: int|
                0 <= i < registrations.len() ==> (#[trigger] registrations@[i])@.len() == self.spec_systems()[i].spec_roles().len(),
        ensures
            r is Ok <==> buildable(self, *world, registration_views(registrations@)),
            r matches Ok(schedule) ==> compiled_from(schedule.compiled, self, registration_views(registrations@)),
            r matches Err(e) ==> build_error(e),
            world.pending_commands ==> r == Err::<Schedule<B>, BuildError>(BuildError::PendingCommands),
            !world.pending_commands && world.run_guard != RunGuard::Idle ==> r == Err::<Schedule<B>, BuildError>(
                BuildError::WorldRunning,
            ),
            !world.pending_commands && world.run_guard == RunGuard::Idle && world.mutation_poisoned ==> r == Err::<
                Schedule<B>,
                BuildError,
            >(BuildError::WorldMutationPoisoned),
            !world.pending_commands && world.run_guard == RunGuard::Idle && !world.mutation_poisoned && world.live_lease ==> r
                == Err::<Schedule<B>, BuildError>(BuildError::LiveLeaseAlreadyAttached),
            world_ready(*world) && has_fixed_system(self.spec_systems()) && self.spec_fixed() is None ==> r == Err::<
                Schedule<B>,
                BuildError,
            >(BuildError::FixedUpdateWithoutConfig),
            world_ready(*world) && !(has_fixed_system(self.spec_systems()) && self.spec_fixed() is None) && self.spec_fixed() is Some
                && !has_fixed_stage(self.spec_stages()) ==> r == Err::<Schedule<B>, BuildError>(
                BuildError::FixedConfigWithoutFixedUpdate,
            ),
            world_ready(*world) && fixed_ok(self) && !systems_valid(self) ==> (r matches Err(e) && system_failure(self, e)),
            world_ready(*world) && fixed_ok(self) && systems_valid(self) && !resources_present(self.spec_systems(), *world.resources)
                ==> (r matches Err(e) && missing_resource_error(self.spec_systems(), *world.resources, e)),
            world_ready(*world) && fixed_ok(self) && systems_valid(self) && resources_present(self.spec_systems(), *world.resources)
                && !ordering_valid(self.spec_systems(), self.spec_sets(), self.spec_set_ordering()) ==> (r matches Err(e)
                && ordering_failure(self.spec_systems(), self.spec_sets(), self.spec_set_ordering(), e)),
            forall|s: usize|
                #![trigger members_of(system_stages(self), s)]
                world_ready(*world) && fixed_ok(self) && systems_valid(self) && resources_present(
                    self.spec_systems(),
                    *world.resources,
                ) && ordering_valid(self.spec_systems(), self.spec_sets(), self.spec_set_ordering()) && s
                    < self.spec_stages().len() && !stage_orderable(
                    system_stages(self),
                    edge_list(self.spec_systems(), self.spec_set_ordering()),
                    s,
                ) && (forall|t: usize|
                    t < s ==> #[trigger] stage_orderable(
                        system_stages(self),
                        edge_list(self.spec_systems(), self.spec_set_ordering()),
                        t,
                    )) ==> (r matches Err(e) && is_cycle_error(
                    e,
                    members_of(system_stages(self), s),
                    self.spec_systems(),
                )),
            world_ready(*world) && fixed_ok(self) && systems_valid(self) && resources_present(self.spec_systems(), *world.resources)
                && ordering_valid(self.spec_systems(), self.spec_sets(), self.spec_set_ordering()) && (forall|s: usize|
                s < self.spec_stages().len() ==> #[trigger] stage_orderable(
                    system_stages(self),
                    edge_list(self.spec_systems(), self.spec_set_ordering()),
                    s,
                )) && !(roles_resolve(
                self.spec_systems(),
                system_stages(self),
                stage_operations(self.spec_stages()),
                registration_views(registrations@),
            ) && producers_precede(
                self.spec_systems(),
                system_stages(self),
                stage_operations(self.spec_stages()),
                edge_list(self.spec_systems(), self.spec_set_ordering()),
                registration_views(registrations@),
            )) ==> (r matches Err(e) && event_failure(
                self.spec_systems(),
                system_stages(self),
                stage_operations(self.spec_stages()),
                edge_list(self.spec_systems(), self.spec_set_ordering()),
                registration_views(registrations@),
                e,
            )),
    {
        let ghost regs = registration_views(registrations@);
        let ready = check_world(world);
        if ready.is_err() {
            return Err(ready.unwrap_err());
        }
        let fixed = self.check_fixed();
        if fixed.is_err() {
            return Err(fixed.unwrap_err());
        }
        let stage_of = self.system_stage_indices();
        let checked = self.check_systems(&stage_of);
        if checked.is_err() {
            return Err(checked.unwrap_err());
        }
        let required = match collect_required(&self.systems, world.resources) {
            Ok(ids) => ids,
            Err(e) => {
                return Err(e);
            },
        };
        let edges = match collect_ordering_edges(&self.systems, &self.set_labels, &self.set_ordering) {
            Ok(edges) => edges,
            Err(e) => {
                return Err(e);
            },
        };
        proof {
            let systems = self.spec_systems();
            let pairs = self.spec_set_ordering();
            let chosen = edge_list(systems, pairs);
            assert(strictly_sorted(edges@) && forall|x: (usize, usize)| #[trigger] edges@.contains(x) <==> ordering_edge(systems, pairs, x.0 as int, x.1 as int));
            lemma_sorted_edges_unique(edges@, chosen);
            assert forall|k: int| 0 <= k < edges@.len() implies {
                &&& (#[trigger] edges@[k]).0 < stage_of@.len()
                &&& edges@[k].1 < stage_of@.len()
                &&& stage_of@[edges@[k].0 as int] == stage_of@[edges@[k].1 as int]
            } by {
                let e = edges@[k];
                assert(edges@.contains(e));
                assert(ordering_edge(systems, pairs, e.0 as int, e.1 as int));
                assert(edge_allowed(systems, e.0 as int, e.1 as int));
            }
        }
        let set_index = self.system_set_indices();
        let operations = operation_list(&self.stages);
        let ghost original = self;
        let ScheduleBuilder {
            owner,
            stages,
            systems,
            set_labels: _,
            set_conditions,
            set_ordering: _,
            fixed_config,
            default_update_flush: _,
        } = self;
        let compiled_stages = match compile_stages(stages, &stage_of, &systems, &edges) {
            Ok(compiled) => compiled,
            Err(e) => {
                return Err(e);
            },
        };
        let access = match validate_event_roles(&systems, &stage_of, &operations, &edges, registrations) {
            Ok(access) => access,
            Err(e) => {
                return Err(e);
            },
        };
        let compiled_systems = compile_systems(systems, &stage_of, &set_index, access, &owner);
        let update_stage_order = operation_order(&operations, StageOperation::Update);
        let render_stage_order = operation_order(&operations, StageOperation::Render);
        let system_enabled = enabled_flags(&compiled_systems);
        let schedule = Schedule {
            compiled: CompiledSchedule {
                owner,
                generation: 1,
                stages: compiled_stages,
                systems: compiled_systems,
                update_stage_order,
                render_stage_order,
                fixed_config,
                fixed_accumulator: FixedAccumulator::new(),
                startup_complete: false,
                system_enabled,
                set_conditions,
                required_resources: required,
            },
        };
        proof {
            assert forall|i: int| 0 <= i < original.spec_systems().len() implies schedule.compiled.system_enabled@[i]
                == (#[trigger] original.spec_systems()[i]).spec_enabled() by {
                assert(schedule.compiled.system_enabled@[i] == schedule.compiled.systems@[i].enabled);
            }
            assert(compiled_from(schedule.compiled, original, regs));
        }
        Ok(schedule)
    }
}


impl<B> Default for ScheduleBuilder<B> {
    fn default() -> (r: ScheduleBuilder<B>)
        ensures
            r.wf(),
            r.spec_stages() == Seq::<StageDescriptor>::empty(),
            r.spec_systems() == Seq::<System<B>>::empty(),
            r.spec_fixed() is None,
            r.spec_default_flush() == FlushMode::Final,
    {
        ScheduleBuilder::new()
    }
}

impl<B> Schedule<B> {
    /// An empty builder; see [`ScheduleBuilder::new`].
    pub fn builder() -> (r: ScheduleBuilder<B>)
        ensures
            r.wf(),
            r.spec_stages() == Seq::<StageDescriptor>::empty(),
            r.spec_systems() == Seq::<System<B>>::empty(),
            r.spec_sets() == Seq::<Seq<char>>::empty(),
            r.spec_fixed() is None,
            r.spec_default_flush() == FlushMode::Final,
    {
        ScheduleBuilder::new()
    }

    /// The builder with the built-in stages; see [`ScheduleBuilder::standard`].
    pub fn standard_builder() -> (r: ScheduleBuilder<B>)
        ensures
            r.wf(),
            r.spec_stages().len() == 4,
            r.spec_stages()[0].label@ == STARTUP@,
            r.spec_stages()[1].label@ == FIXED_UPDATE@,
            r.spec_stages()[2].label@ == UPDATE@,
            r.spec_stages()[3].label@ == RENDER@,
            r.spec_stages()[0].operation == StageOperation::Update,
            r.spec_stages()[1].operation == StageOperation::Update,
            r.spec_stages()[2].operation == StageOperation::Update,
            r.spec_stages()[3].operation == StageOperation::Render,
            r.spec_stages()[0].flush_mode == FlushMode::Stage,
            r.spec_stages()[1].flush_mode == FlushMode::Stage,
            r.spec_stages()[2].flush_mode == FlushMode::Stage,
            r.spec_stages()[3].flush_mode == FlushMode::Final,
            r.spec_systems() == Seq::<System<B>>::empty(),
            r.spec_sets() == Seq::<Seq<char>>::empty(),
            r.spec_fixed() is None,
            r.spec_default_flush() == FlushMode::Stage,
    {
        ScheduleBuilder::standard()
    }
}

/// Attaches a live execution lease to the world (`live_lease`) and locks each resource a
/// schedule requires, so that nothing removes them while the schedule lives.
pub fn attach_execution_lease_with_locks<V>(live_lease: &mut bool, resources: &mut ResourceStore<V>, required: &Vec<TypeId>)
    requires
        old(resources).wf(),
    ensures
        *final(live_lease),
        final(resources).wf(),
        final(resources).ids() == old(resources).ids(),
        final(resources).names() == old(resources).names(),
        final(resources).slots() == old(resources).slots(),
        final(resources).scope() == old(resources).scope(),
        forall|t: TypeId| #[trigger] final(resources).is_locked_spec(t) == (old(resources).is_locked_spec(t) || required@.contains(t)),
{
    let mut i: usize = 0;
    while i < required.len()
        invariant
            i <= required@.len(),
            resources.wf(),
            resources.ids() == old(resources).ids(),
            resources.names() == old(resources).names(),
            resources.slots() == old(resources).slots(),
            resources.scope() == old(resources).scope(),
            forall|t: TypeId| #[trigger] resources.is_locked_spec(t) == (old(resources).is_locked_spec(t) || required@.take(i as int).contains(t)),
        decreases required@.len() - i,
    {
        let ghost before = *resources;
        resources.lock_type(required[i]);
        proof {
            assert forall|t: TypeId| #[trigger] resources.is_locked_spec(t) == (old(resources).is_locked_spec(t) || required@.take(i + 1).contains(t)) by {
                assert(before.is_locked_spec(t) == (old(resources).is_locked_spec(t) || required@.take(i as int).contains(t)));
                assert(required@.take(i + 1) =~= required@.take(i as int).push(required@[i as int]));
                if required@.take(i as int).contains(t) {
                    let q = choose|q: int| 0 <= q < i && required@.take(i as int)[q] == t;
                    assert(required@.take(i + 1)[q] == t);
                }
                if t == required@[i as int] {
                    assert(required@.take(i + 1)[i as int] == t);
                }
                if required@.take(i + 1).contains(t) {
                    let q = choose|q: int| 0 <= q < i + 1 && #[trigger] required@.take(i + 1)[q] == t;
                    if q < i {
                        assert(required@.take(i as int)[q] == t);
                    }
                }
            }
        }
        i = i + 1;
    }
    proof {
        assert(required@.take(required@.len() as int) =~= required@);
    }
    *live_lease = true;
}

impl<B> ScheduleBuilder<B> {
    /// Builds against a world with these flags and resources (see
    /// [`ScheduleBuilder::build`]) and, on success, attaches the schedule's live execution
    /// lease to the world and locks every resource the schedule requires. A failure changes
    /// nothing.
    pub fn build_attached<V>(
        self,
        pending_commands: bool,
        run_guard: RunGuard,
        mutation_poisoned: bool,
        live_lease: &mut bool,
        resources: &mut ResourceStore<V>,
        registrations: &Vec<Vec<Option<EventRegistration>>>,
    ) -> (r: Result<Schedule<B>, BuildError>)
        requires
            self.wf(),
            old(resources).wf(),
            registrations.len() == self.spec_systems().len(),
            forall|i: int|
                0 <= i < registrations.len() ==> (#[trigger] registrations@[i])@.len() == self.spec_systems()[i].spec_roles().len(),
        ensures
            ({
                let world = WorldState {
                    pending_commands,
                    run_guard,
                    mutation_poisoned,
                    live_lease: *old(live_lease),
                    resources: &*old(resources),
                };
                &&& r is Ok <==> buildable(self, world, registration_views(registrations@))
                &&& r matches Err(e) ==> build_error(e)
            }),
            r matches Ok(schedule) ==> {
                &&& compiled_from(schedule.compiled, self, registration_views(registrations@))
                &&& *final(live_lease)
                &&& final(resources).wf()
                &&& final(resources).ids() == old(resources).ids()
                &&& final(resources).names() == old(resources).names()
                &&& final(resources).slots() == old(resources).slots()
                &&& final(resources).scope() == old(resources).scope()
                &&& forall|t: TypeId| #[trigger] final(resources).is_locked_spec(t) == (old(resources).is_locked_spec(t)
                    || schedule.compiled.required_resources@.contains(t))
            },
            r is Err ==> *final(live_lease) == *old(live_lease) && *final(resources) == *old(resources),
    {
        let world = WorldState { pending_commands, run_guard, mutation_poisoned, live_lease: *live_lease, resources: &*resources };
        let built = self.build(&world, registrations);
        match built {
            Ok(schedule) => {
                attach_execution_lease_with_locks(live_lease, resources, &schedule.compiled.required_resources);
                Ok(schedule)
            },
            Err(e) => Err(e),
        }
    }
}

} // verus!
