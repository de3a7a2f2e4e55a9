use lib::entity::EntityId;
use lib::query::cursor::QueryCursor;
use lib::query::error::QueryError;
use lib::query::iter::{select_walk, CandidateFilter, Query1, Query2, QueryIds, QueryWalk};
use lib::query::prepared::{check_materialization_policy, QueryPolicy, TraversalSource};
use lib::query::spec::QuerySpec;
use lib::time::ChangeTick;
use lib::world::WorldOwner;

struct A;

fn entity(slot: u32) -> EntityId {
    EntityId::from_parts(slot, 0)
}

fn drain(walk: &mut QueryWalk) -> Vec<(EntityId, CandidateFilter)> {
    let mut out = Vec::new();
    while let Some(c) = walk.next_candidate() {
        out.push(c);
    }
    out
}

#[test]
fn table_walk_visits_rows_in_archetype_order_skipping_empty_tables() {
    let mut walk = QueryWalk::Table {
        rows: vec![vec![], vec![entity(1), entity(2)], vec![], vec![entity(3)]],
        archetype_index: 0,
        row: 0,
    };
    let visited = drain(&mut walk);
    assert_eq!(
        visited,
        vec![(entity(1), CandidateFilter::Full), (entity(2), CandidateFilter::Full), (entity(3), CandidateFilter::Full)]
    );
    assert!(matches!(walk, QueryWalk::Done));
    assert_eq!(walk.next_candidate(), None);
}

#[test]
fn borrowed_walk_checks_only_what_materialization_left_open() {
    let mut temporal = QueryWalk::Borrowed { ids: vec![entity(4), entity(5)], index: 0, apply_temporal: true };
    assert_eq!(
        drain(&mut temporal),
        vec![(entity(4), CandidateFilter::Temporal), (entity(5), CandidateFilter::Temporal)]
    );
    let mut trusted = QueryWalk::Borrowed { ids: vec![entity(6)], index: 0, apply_temporal: false };
    assert_eq!(drain(&mut trusted), vec![(entity(6), CandidateFilter::Trusted)]);
    let mut sparse = QueryWalk::Sparse { entities: vec![entity(7), entity(8)], index: 1 };
    assert_eq!(drain(&mut sparse), vec![(entity(8), CandidateFilter::Full)]);
}

#[test]
fn walk_selection_prefers_materialized_then_cached_then_traversal() {
    let exact = TraversalSource::Exact { ids: vec![entity(1), entity(2)] };
    let mut walk = select_walk(&exact, Some(vec![entity(9)]), Some((vec![entity(3)], false)), None, None).expect("walk");
    assert_eq!(drain(&mut walk), vec![(entity(3), CandidateFilter::Trusted)]);
    let mut walk = select_walk(&exact, Some(vec![entity(9)]), None, None, None).expect("walk");
    assert_eq!(drain(&mut walk), vec![(entity(9), CandidateFilter::Full)]);
    let mut walk = select_walk(&exact, None, None, None, None).expect("walk");
    assert_eq!(drain(&mut walk), vec![(entity(1), CandidateFilter::Full), (entity(2), CandidateFilter::Full)]);
    let table = TraversalSource::Table { component_index: 0 };
    let mut walk = select_walk(&table, None, None, None, Some(vec![vec![entity(5)]])).expect("walk");
    assert_eq!(drain(&mut walk), vec![(entity(5), CandidateFilter::Full)]);
}

#[test]
fn walk_selection_rejects_entity_only_plans_and_missing_sparse_storage() {
    match select_walk(&TraversalSource::All, None, None, None, None) {
        Err(QueryError::WrongQuery { detail }) => assert_eq!(detail, "entity-only plan cannot back a typed query"),
        _ => panic!("expected WrongQuery"),
    }
    match select_walk(&TraversalSource::Sparse { component_index: 12 }, None, None, None, None) {
        Err(QueryError::WrongStorageKind { name }) => assert_eq!(name, "component 12"),
        _ => panic!("expected WrongStorageKind"),
    }
    let mut walk =
        select_walk(&TraversalSource::Sparse { component_index: 12 }, None, None, Some(vec![entity(2)]), None)
            .expect("walk");
    assert_eq!(drain(&mut walk), vec![(entity(2), CandidateFilter::Full)]);
}

#[test]
fn query_cursor_commits_on_exhaustion() {
    let owner = WorldOwner::new();
    let mut cursor = QueryCursor::from_start(owner.clone(), 7);
    let now = ChangeTick::from_raw(3);
    let walk = QueryWalk::Sparse { entities: vec![entity(0)], index: 0 };
    let mut query = Query1::new(owner, 7, cursor.since(), now, Some(&mut cursor), walk);
    let accept_all = |e: EntityId, _f: CandidateFilter, _since: ChangeTick, _now: ChangeTick| Some(e.slot());
    assert!(query.next(&accept_all).is_some());
    assert!(query.next(&accept_all).is_none());
    drop(query);
    assert!(cursor.since().raw() > 0);
}

#[test]
fn query_cursor_skips_commit_on_partial_iteration() {
    let owner = WorldOwner::new();
    let mut cursor = QueryCursor::from_start(owner.clone(), 7);
    let before = cursor.since();
    let now = ChangeTick::from_raw(3);
    let walk = QueryWalk::Sparse { entities: vec![entity(0), entity(1)], index: 0 };
    let mut query = Query1::new(owner, 7, before, now, Some(&mut cursor), walk);
    let accept_all = |e: EntityId, _f: CandidateFilter, _since: ChangeTick, _now: ChangeTick| Some(e.slot());
    let _ = query.next(&accept_all);
    drop(query);
    assert_eq!(cursor.since(), before);
}

#[test]
fn cursor_commits_only_after_full_iteration() {
    let owner = WorldOwner::new();
    let mut cursor = QueryCursor::from_start(owner.clone(), 11);
    let before = cursor.since();
    let now = ChangeTick::from_raw(5);
    let accept_all = |e: EntityId, _f: CandidateFilter, _since: ChangeTick, _now: ChangeTick| Some(e);
    {
        let walk = QueryWalk::Exact { ids: vec![entity(1)], index: 0 };
        let mut iter = Query1::new(owner.clone(), 11, before, now, Some(&mut cursor), walk);
        assert!(iter.next(&accept_all).is_some());
    }
    assert_eq!(cursor.since(), before);
    {
        let walk = QueryWalk::Exact { ids: vec![entity(1)], index: 0 };
        let mut iter = Query1::new(owner, 11, before, now, Some(&mut cursor), walk);
        while iter.next(&accept_all).is_some() {}
    }
    assert!(cursor.since() > before);
}

#[test]
fn query_skips_rejected_candidates_and_commits_once() {
    let owner = WorldOwner::new();
    let mut cursor = QueryCursor::from_start(owner.clone(), 1);
    let walk = QueryWalk::Exact { ids: vec![entity(1), entity(2), entity(3), entity(4)], index: 0 };
    let mut query = Query1::new(owner, 1, ChangeTick::from_raw(0), ChangeTick::from_raw(8), Some(&mut cursor), walk);
    let even = |e: EntityId, _f: CandidateFilter, _since: ChangeTick, _now: ChangeTick| {
        if e.slot() % 2 == 0 {
            Some(e.slot() * 10)
        } else {
            None
        }
    };
    assert_eq!(query.next(&even), Some((entity(2), 20)));
    assert_eq!(query.next(&even), Some((entity(4), 40)));
    assert_eq!(query.next(&even), None);
    assert_eq!(query.next(&even), None);
    drop(query);
    assert_eq!(cursor.since(), ChangeTick::from_raw(8));
}

#[test]
fn cursor_of_another_query_or_world_is_not_moved() {
    let owner = WorldOwner::new();
    let mut other_query = QueryCursor::from_start(owner.clone(), 2);
    let walk = QueryWalk::Exact { ids: vec![], index: 0 };
    let mut query =
        Query1::new(owner.clone(), 1, ChangeTick::from_raw(0), ChangeTick::from_raw(8), Some(&mut other_query), walk);
    let accept_all = |e: EntityId, _f: CandidateFilter, _since: ChangeTick, _now: ChangeTick| Some(e);
    assert!(query.next(&accept_all).is_none());
    drop(query);
    assert_eq!(other_query.since(), ChangeTick::from_raw(0));

    let mut other_world = QueryCursor::from_start(WorldOwner::new(), 1);
    let walk = QueryWalk::Exact { ids: vec![], index: 0 };
    let mut query = Query1::new(owner, 1, ChangeTick::from_raw(0), ChangeTick::from_raw(8), Some(&mut other_world), walk);
    assert!(query.next(&accept_all).is_none());
    drop(query);
    assert_eq!(other_world.since(), ChangeTick::from_raw(0));
}

#[test]
fn query2_yields_both_components_of_accepted_candidates() {
    let owner = WorldOwner::new();
    let walk = QueryWalk::Table { rows: vec![vec![entity(1)], vec![entity(2), entity(3)]], archetype_index: 0, row: 0 };
    let mut query = Query2::new(owner, 3, ChangeTick::from_raw(1), ChangeTick::from_raw(2), None, walk);
    let pairs = |e: EntityId, f: CandidateFilter, since: ChangeTick, now: ChangeTick| {
        assert_eq!(f, CandidateFilter::Full);
        assert_eq!((since.raw(), now.raw()), (1, 2));
        if e.slot() == 2 {
            None
        } else {
            Some((e.slot(), e.slot() + 100))
        }
    };
    assert_eq!(query.next(&pairs), Some((entity(1), 1, 101)));
    assert_eq!(query.next(&pairs), Some((entity(3), 3, 103)));
    assert_eq!(query.next(&pairs), None);
}

#[test]
fn exhausted_query_ids_commit_the_entity_cursor() {
    let owner = WorldOwner::new();
    let mut cursor = QueryCursor::from_start(owner.clone(), 4);
    let before = cursor.since();
    let mut ids = QueryIds::new(owner, 4, ChangeTick::from_raw(2), Some(&mut cursor), vec![entity(0)]);
    assert_eq!(ids.len(), 1);
    let mut collected = Vec::new();
    while let Some(id) = ids.next() {
        collected.push(id);
    }
    assert_eq!(ids.len(), 0);
    drop(ids);
    assert_eq!(collected, vec![entity(0)]);
    assert!(cursor.since() > before);
}

#[test]
fn result_policy_rejects_moving_windows() {
    let spec = QuerySpec::new().changed(std::any::TypeId::of::<A>());
    let temporal = !spec.added.is_empty() || !spec.changed.is_empty();
    let traversal = TraversalSource::Sparse { component_index: 0 };
    assert!(matches!(
        check_materialization_policy(QueryPolicy::Result, &traversal, temporal),
        Err(QueryError::MovingChangeWindow)
    ));
}

use lib::query::prepared::{topology_changed, Materialization};

fn structural_members() -> Vec<EntityId> {
    vec![entity(1), entity(2)]
}

fn all_results() -> Vec<EntityId> {
    vec![entity(2)]
}

fn no_changes() -> Vec<(EntityId, bool)> {
    Vec::new()
}

#[test]
fn topology_snapshot_catches_up_unless_dependencies_changed() {
    let mut observed = 4;
    assert!(!topology_changed(&mut observed, 4, false));
    assert_eq!(observed, 4);
    assert!(!topology_changed(&mut observed, 6, true));
    assert_eq!(observed, 6);
    assert!(topology_changed(&mut observed, 9, false));
    assert_eq!(observed, 6);
}

#[test]
fn materialization_keeps_what_its_policy_needs() {
    let sparse = TraversalSource::Sparse { component_index: 0 };
    let prepared =
        Materialization::build(QueryPolicy::Prepared, &sparse, true, 3, &structural_members, &all_results).expect("prepared");
    assert!(prepared.ids_and_temporal_filter(true).is_none());

    let membership =
        Materialization::build(QueryPolicy::Membership, &sparse, true, 3, &structural_members, &all_results).expect("membership");
    assert_eq!(membership.ids_and_temporal_filter(true), Some((&[entity(1), entity(2)][..], true)));
    assert_eq!(membership.ids_and_temporal_filter(false), Some((&[entity(1), entity(2)][..], false)));

    let delta = Materialization::build(QueryPolicy::DeltaMembership, &sparse, true, 3, &structural_members, &all_results)
        .expect("delta");
    assert_eq!(delta.ids_and_temporal_filter(true), Some((&[entity(1), entity(2)][..], true)));

    let result =
        Materialization::build(QueryPolicy::Result, &sparse, false, 3, &structural_members, &all_results).expect("result");
    assert_eq!(result.ids_and_temporal_filter(true), Some((&[entity(2)][..], false)));
}

#[test]
fn materialization_rejects_exact_order_and_moving_result_windows() {
    let exact = TraversalSource::Exact { ids: vec![entity(1)] };
    assert!(matches!(
        Materialization::build(QueryPolicy::Membership, &exact, false, 0, &structural_members, &all_results),
        Err(QueryError::UnsupportedCachePolicy { .. })
    ));
    let sparse = TraversalSource::Sparse { component_index: 0 };
    assert!(matches!(
        Materialization::build(QueryPolicy::Result, &sparse, true, 0, &structural_members, &all_results),
        Err(QueryError::MovingChangeWindow)
    ));
    assert!(Materialization::build(QueryPolicy::Prepared, &exact, true, 0, &structural_members, &all_results).is_ok());
}

#[test]
fn membership_is_collected_again_only_when_its_dependencies_changed() {
    let sparse = TraversalSource::Sparse { component_index: 0 };
    let mut membership =
        Materialization::build(QueryPolicy::Membership, &sparse, false, 1, &structural_members, &all_results).expect("membership");
    let fewer = || vec![entity(2)];
    membership.refresh(2, true, &fewer, &all_results, &no_changes);
    assert_eq!(membership.ids_and_temporal_filter(false), Some((&[entity(1), entity(2)][..], false)));
    membership.refresh(3, false, &fewer, &all_results, &no_changes);
    assert_eq!(membership.ids_and_temporal_filter(false), Some((&[entity(2)][..], false)));
    assert!(matches!(membership, Materialization::Membership { observed: 3, .. }));
}

#[test]
fn delta_membership_applies_the_change_log_when_the_revision_moved() {
    let sparse = TraversalSource::Sparse { component_index: 0 };
    let mut delta = Materialization::build(QueryPolicy::DeltaMembership, &sparse, false, 1, &structural_members, &all_results)
        .expect("delta");
    let log = || vec![(entity(1), false), (entity(5), true), (entity(2), true)];
    delta.refresh(1, false, &structural_members, &all_results, &log);
    assert_eq!(delta.ids_and_temporal_filter(false), Some((&[entity(1), entity(2)][..], false)));
    delta.refresh(2, true, &structural_members, &all_results, &log);
    let (ids, _) = delta.ids_and_temporal_filter(false).expect("ids");
    let mut ids = ids.to_vec();
    ids.sort();
    assert_eq!(ids, vec![entity(2), entity(5)]);
    assert!(matches!(delta, Materialization::DeltaMembership { observed: 2, .. }));
}

#[test]
fn materialized_ids_feed_a_borrowed_walk() {
    let sparse = TraversalSource::Sparse { component_index: 0 };
    let membership =
        Materialization::build(QueryPolicy::Membership, &sparse, true, 1, &structural_members, &all_results).expect("membership");
    let (ids, apply_temporal) = membership.ids_and_temporal_filter(true).expect("ids");
    let mut walk = select_walk(&sparse, None, Some((ids.to_vec(), apply_temporal)), None, None).expect("walk");
    assert_eq!(drain(&mut walk), vec![(entity(1), CandidateFilter::Temporal), (entity(2), CandidateFilter::Temporal)]);
}

use lib::query::prepared::{
    ComponentCandidates, PairWorldView, PreparedQuery1, PreparedQuery2, QueryPlan, QueryWindow, QueryWorldView,
};

fn plan(fingerprint: u64, traversal: TraversalSource, primary_index: u32, temporal: bool) -> QueryPlan {
    QueryPlan { fingerprint, traversal, primary_index, primary_is_table: false, temporal }
}

fn view(owner: &WorldOwner, tick: u64, revision: u64, sparse: Option<Vec<EntityId>>) -> QueryWorldView {
    QueryWorldView {
        owner: owner.clone(),
        change_tick: ChangeTick::from_raw(tick),
        topology_revision: revision,
        dependencies_current: true,
        sparse_entities: sparse,
        table_rows: None,
    }
}

fn count1(query: &mut Query1<'_>, accept: &[EntityId]) -> usize {
    let matcher = |e: EntityId, _f: CandidateFilter, _s: ChangeTick, _n: ChangeTick| {
        if accept.contains(&e) {
            Some(e)
        } else {
            None
        }
    };
    let mut n = 0;
    while query.next(&matcher).is_some() {
        n += 1;
    }
    n
}

#[test]
fn prepared_query_executes_over_the_traversal_and_commits_its_cursor() {
    let owner = WorldOwner::new();
    let sparse = TraversalSource::Sparse { component_index: 0 };
    let mut prepared = PreparedQuery1::new(owner.clone(), plan(5, sparse, 0, true), QueryPolicy::Prepared, 1, &structural_members, &all_results)
        .expect("prepare");
    let mut cursor = QueryCursor::from_start(owner.clone(), 5);
    {
        let mut query = prepared
            .iter(view(&owner, 9, 1, Some(vec![entity(1), entity(2)])), QueryWindow::cursor(&mut cursor), &structural_members, &all_results, &no_changes)
            .expect("iter");
        assert_eq!(query.since(), ChangeTick::from_raw(0));
        assert_eq!(query.captured_now(), ChangeTick::from_raw(9));
        assert_eq!(count1(&mut query, &[entity(2)]), 1);
    }
    assert_eq!(cursor.since(), ChangeTick::from_raw(9));
}

#[test]
fn prepared_query_rejects_other_worlds_and_cursors_of_other_queries() {
    let owner = WorldOwner::new();
    let sparse = TraversalSource::Sparse { component_index: 0 };
    let mut prepared = PreparedQuery1::new(owner.clone(), plan(5, sparse, 0, false), QueryPolicy::Prepared, 1, &structural_members, &all_results)
        .expect("prepare");
    let other = WorldOwner::new();
    assert!(matches!(
        prepared.iter(view(&other, 1, 1, Some(vec![])), QueryWindow::all(), &structural_members, &all_results, &no_changes),
        Err(QueryError::WrongOwner)
    ));
    let mut cursor = QueryCursor::from_start(owner.clone(), 6);
    assert!(matches!(
        prepared.iter(view(&owner, 1, 1, Some(vec![])), QueryWindow::cursor(&mut cursor), &structural_members, &all_results, &no_changes),
        Err(QueryError::WrongQuery { .. })
    ));
    assert!(matches!(
        prepared.iter(view(&owner, 1, 1, None), QueryWindow::all(), &structural_members, &all_results, &no_changes),
        Err(QueryError::WrongStorageKind { .. })
    ));
}

#[test]
fn membership_policy_executes_over_the_kept_ids_with_the_window_reapplied() {
    let owner = WorldOwner::new();
    let sparse = TraversalSource::Sparse { component_index: 0 };
    let mut prepared = PreparedQuery1::new(owner.clone(), plan(5, sparse, 0, true), QueryPolicy::Membership, 1, &structural_members, &all_results)
        .expect("prepare");
    let mut query = prepared
        .iter(view(&owner, 4, 1, Some(vec![entity(9)])), QueryWindow::since(ChangeTick::from_raw(2)), &structural_members, &all_results, &no_changes)
        .expect("iter");
    let seen = |e: EntityId, f: CandidateFilter, since: ChangeTick, now: ChangeTick| Some((e, f, since.raw(), now.raw()));
    assert_eq!(query.next(&seen), Some((entity(1), (entity(1), CandidateFilter::Temporal, 2, 4))));
    assert_eq!(query.next(&seen), Some((entity(2), (entity(2), CandidateFilter::Temporal, 2, 4))));
    assert_eq!(query.next(&seen), None);
}

fn pair_view(owner: &WorldOwner, revisions: (u64, u64), a: Vec<EntityId>, c: Vec<EntityId>) -> PairWorldView {
    let (primary_population, second_population) = (a.len(), c.len());
    PairWorldView {
        owner: owner.clone(),
        change_tick: ChangeTick::from_raw(10),
        topology_revision: 1,
        dependencies_current: true,
        primary: ComponentCandidates { sparse_entities: Some(a), table_rows: None },
        second: ComponentCandidates { sparse_entities: Some(c), table_rows: None },
        revisions,
        primary_population,
        second_population,
    }
}

#[test]
fn query2_reselects_driver_after_cardinality_crossover_with_stable_cursors() {
    let owner = WorldOwner::new();
    let (a_index, c_index) = (0u32, 1u32);
    let first = entity(0);
    let a_holders = vec![first, entity(1), entity(2)];
    let mut prepared = PreparedQuery2::new(
        owner.clone(),
        plan(3, TraversalSource::Sparse { component_index: c_index }, a_index, false),
        c_index,
        false,
        (1, 1),
        QueryPolicy::Prepared,
        1,
        &structural_members,
        &all_results,
    )
    .expect("prepare sparse/sparse");
    let c_holders = vec![first, entity(3), entity(4), entity(5)];
    let both = |e: EntityId, _f: CandidateFilter, _s: ChangeTick, _n: ChangeTick| {
        if e == first {
            Some((1, 1))
        } else {
            None
        }
    };
    let mut before = QueryCursor::from_start(owner.clone(), 3);
    {
        let mut query = prepared
            .iter(pair_view(&owner, (1, 2), a_holders.clone(), c_holders.clone()), QueryWindow::cursor(&mut before), &structural_members, &all_results, &no_changes)
            .expect("sparse/sparse before cursor");
        let mut n = 0;
        while query.next(&both).is_some() {
            n += 1;
        }
        assert_eq!(n, 1);
    }
    let mut after = QueryCursor::from_start(owner.clone(), 3);
    let mut query = prepared
        .iter(pair_view(&owner, (1, 2), a_holders, c_holders), QueryWindow::cursor(&mut after), &structural_members, &all_results, &no_changes)
        .expect("sparse/sparse after cursor");
    let mut visited = Vec::new();
    let record = |e: EntityId, _f: CandidateFilter, _s: ChangeTick, _n: ChangeTick| Some((e.slot(), 0));
    while let Some((e, _, _)) = query.next(&record) {
        visited.push(e);
    }
    assert_eq!(visited, vec![entity(0), entity(1), entity(2)]);
}

#[test]
fn query2_keeps_its_driver_while_revisions_are_unchanged() {
    let owner = WorldOwner::new();
    let mut prepared = PreparedQuery2::new(
        owner.clone(),
        plan(3, TraversalSource::Sparse { component_index: 1 }, 0, false),
        1,
        false,
        (4, 4),
        QueryPolicy::Prepared,
        1,
        &structural_members,
        &all_results,
    )
    .expect("prepare");
    let mut query = prepared
        .iter(pair_view(&owner, (4, 4), vec![entity(1), entity(2)], vec![entity(7), entity(8), entity(9)]), QueryWindow::all(), &structural_members, &all_results, &no_changes)
        .expect("iter");
    let record = |e: EntityId, _f: CandidateFilter, _s: ChangeTick, _n: ChangeTick| Some((e.slot(), 0));
    let mut visited = Vec::new();
    while let Some((e, _, _)) = query.next(&record) {
        visited.push(e);
    }
    assert_eq!(visited, vec![entity(7), entity(8), entity(9)]);
}

#[test]
fn query2_iterator_skips_entities_missing_second_component() {
    let (partial, matched) = (entity(0), entity(1));
    let pos = |e: EntityId| if e == partial { Some(1) } else if e == matched { Some(2) } else { None };
    let vel = |e: EntityId| if e == matched { Some(9) } else { None };
    let walk = QueryWalk::Sparse { entities: vec![partial, matched], index: 0 };
    let mut iter = Query2::new(WorldOwner::new(), 1, ChangeTick::from_raw(0), ChangeTick::from_raw(1), None, walk);
    let both = |e: EntityId, _f: CandidateFilter, _s: ChangeTick, _n: ChangeTick| match (pos(e), vel(e)) {
        (Some(p), Some(v)) => Some((p, v)),
        _ => None,
    };
    assert_eq!(iter.next(&both).map(|(_, p, _)| p), Some(2));
    assert!(iter.next(&both).is_none());
}

#[test]
fn query2_exact_ids_preserve_order_independent_of_driver() {
    let owner = WorldOwner::new();
    let (first, second) = (entity(0), entity(1));
    let mut query = PreparedQuery2::new(
        owner.clone(),
        plan(1, TraversalSource::Exact { ids: vec![second, first] }, 0, false),
        1,
        false,
        (0, 0),
        QueryPolicy::Prepared,
        1,
        &structural_members,
        &all_results,
    )
    .expect("prepare");
    let mut iter = query
        .iter(pair_view(&owner, (3, 5), vec![first, second], vec![first]), QueryWindow::all(), &structural_members, &all_results, &no_changes)
        .expect("iter");
    let record = |e: EntityId, _f: CandidateFilter, _s: ChangeTick, _n: ChangeTick| Some((e.slot(), e.slot()));
    let mut ids = Vec::new();
    while let Some((e, _, _)) = iter.next(&record) {
        ids.push(e);
    }
    assert_eq!(ids, vec![second, first]);
}
