use lib::component::ComponentId;
use lib::entity::{AllocatorError, EntityId};
use lib::operation::StageOperation;
use lib::query::cursor::{check_cursor, QueryCursor};
use lib::query::effects::{command_access, ensure_target, map_allocator_error_query};
use lib::query::error::QueryError;
use lib::query::params::QueryParams;
use lib::query::prepared::{
    build_reverse, check_materialization_policy, same_traversal, DeltaMembership, QueryPolicy, QueryWindow, TraversalSource,
};
use lib::query::spec::QuerySpec;
use lib::time::ChangeTick;
use lib::world::{RunGuard, WorldOwner};

#[test]
fn map_allocator_error_query_covers_all_variants() {
    assert!(matches!(
        map_allocator_error_query(AllocatorError::GenerationOverflow),
        QueryError::CommandRejected { .. }
    ));
    assert!(matches!(map_allocator_error_query(AllocatorError::SlotRetired), QueryError::CommandRejected { .. }));
    assert!(matches!(map_allocator_error_query(AllocatorError::StaleEntity), QueryError::CommandRejected { .. }));
}

#[test]
fn default_matches_new() {
    let params = QueryParams::default();
    assert!(params.since.is_none());
    assert!(params.cursor.is_none());
    assert!(params.membership_cache.is_none());
    assert!(params.result_cache.is_none());
}

#[test]
fn dynamic_id_builders_populate_each_selector_group() {
    let position = ComponentId::from_index(0);
    let player = ComponentId::from_index(1);

    let spec = QuerySpec::new()
        .with_id(position)
        .without_id(position)
        .with_tag_id(player)
        .without_tag_id(player)
        .added_id(position)
        .changed_id(position);

    assert_eq!(spec.required_ids.len(), 1);
    assert_eq!(spec.without_ids.len(), 1);
    assert_eq!(spec.with_tag_ids.len(), 1);
    assert_eq!(spec.without_tag_ids.len(), 1);
    assert_eq!(spec.added_ids.len(), 1);
    assert_eq!(spec.changed_ids.len(), 1);
}

#[test]
fn display_covers_entity_and_command_diagnostics() {
    let entity = EntityId::from_parts(0, 0);

    assert!(QueryError::DuplicateExactId { entity }.to_string().contains("duplicate entity"));
    assert_eq!(
        QueryError::CommandRejected { detail: String::from("stale target") }.to_string(),
        "query command rejected: stale target"
    );
}

#[test]
fn entity_debug_text_matches_the_derived_rendering() {
    let entity = EntityId::from_parts(3, 7);
    assert_eq!(entity.debug_text(), format!("{:?}", entity));
}

#[test]
fn allocator_errors_name_their_cause() {
    match map_allocator_error_query(AllocatorError::GenerationOverflow) {
        QueryError::CommandRejected { detail } => assert_eq!(detail, "allocator generation overflow"),
        _ => panic!("expected a rejected command"),
    }
}

#[test]
fn commands_need_a_running_operation() {
    assert!(command_access(RunGuard::Running(StageOperation::Update)).is_ok());
    assert!(command_access(RunGuard::Idle).is_err());
}

#[test]
fn cursors_validate_owner_and_fingerprint_and_commit() {
    let owner = WorldOwner::new();
    let mut cursor = QueryCursor::from_start(owner.clone(), 42);
    assert_eq!(cursor.since(), ChangeTick::zero());
    assert!(cursor.validate(&owner, 42).is_ok());
    assert!(matches!(cursor.validate(&owner, 7), Err(QueryError::WrongQuery { .. })));
    assert!(matches!(cursor.validate(&WorldOwner::new(), 42), Err(QueryError::WrongOwner)));
    cursor.commit(ChangeTick::from_raw(9));
    assert_eq!(cursor.since(), ChangeTick::from_raw(9));
    let later = QueryCursor::from_now(owner, 1, ChangeTick::from_raw(5));
    assert_eq!(later.since(), ChangeTick::from_raw(5));
}

#[test]
fn query_windows_resolve_their_start() {
    let owner = WorldOwner::new();
    let (since, cursor) = QueryWindow::all().into_parts(&owner, 1).expect("all");
    assert_eq!(since, ChangeTick::zero());
    assert!(cursor.is_none());
    let (since, _) = QueryWindow::since(ChangeTick::from_raw(3)).into_parts(&owner, 1).expect("since");
    assert_eq!(since, ChangeTick::from_raw(3));
    let mut cursor = QueryCursor::from_now(owner.clone(), 1, ChangeTick::from_raw(4));
    let (since, active) = QueryWindow::cursor(&mut cursor).into_parts(&owner, 1).expect("cursor");
    assert_eq!(since, ChangeTick::from_raw(4));
    assert!(active.is_some());
    let mut wrong = QueryCursor::from_now(owner.clone(), 2, ChangeTick::from_raw(4));
    assert!(matches!(QueryWindow::cursor(&mut wrong).into_parts(&owner, 1), Err(QueryError::WrongQuery { .. })));
}

#[test]
fn reverse_indexed_delta_handles_add_remove_and_slot_reuse() {
    let first = EntityId::from_parts(0, 0);
    let second = EntityId::from_parts(1, 0);
    let third = EntityId::from_parts(2, 0);
    let mut state = DeltaMembership::from_ids(vec![first]);

    state.update_delta_entity(second, true);
    state.update_delta_entity(third, true);
    assert_eq!(state.ids(), &[first, second, third]);

    state.update_delta_entity(first, false);
    assert_eq!(state.ids().len(), 2);
    assert!(state.ids().contains(&second));
    assert!(state.ids().contains(&third));

    let replacement = EntityId::from_parts(1, 1);
    state.update_delta_entity(replacement, true);
    assert_eq!(state.ids().len(), 2);
    assert!(state.ids().contains(&third));
    assert!(state.ids().contains(&replacement));
    assert!(!state.ids().contains(&second));
}

#[test]
fn reverse_index_maps_slots_to_positions() {
    let ids = vec![EntityId::from_parts(2, 0), EntityId::from_parts(0, 4)];
    assert_eq!(build_reverse(&ids), vec![Some(1), None, Some(0)]);
}

#[test]
fn commit_cursor_validates_and_commits_active_cursor() {
    let owner = WorldOwner::new();
    let fingerprint = 17;
    let mut cursor = QueryCursor::from_start(owner.clone(), fingerprint);
    let mut params = QueryParams::new().cursor(&mut cursor);
    let captured_now = ChangeTick::from_raw(3);
    params.commit_cursor(fingerprint, &owner, captured_now).expect("commit");
    assert_eq!(cursor.since(), captured_now);
}

#[test]
fn rejected_cursors_are_not_committed() {
    let owner = WorldOwner::new();
    let mut cursor = QueryCursor::from_start(owner.clone(), 17);
    let mut params = QueryParams::new().cursor(&mut cursor);
    assert!(matches!(
        params.commit_cursor(18, &owner, ChangeTick::from_raw(3)),
        Err(QueryError::WrongQuery { .. })
    ));
    assert!(matches!(params.since_tick(18, &owner), Err(QueryError::WrongQuery { .. })));
    assert_eq!(cursor.since(), ChangeTick::zero());
}

#[test]
fn window_start_prefers_the_fixed_tick() {
    let owner = WorldOwner::new();
    assert_eq!(QueryParams::new().since_tick(1, &owner).expect("start"), ChangeTick::zero());
    assert_eq!(
        QueryParams::new().since(ChangeTick::from_raw(8)).since_tick(1, &owner).expect("fixed"),
        ChangeTick::from_raw(8)
    );
    let mut cursor = QueryCursor::from_now(owner.clone(), 1, ChangeTick::from_raw(5));
    assert_eq!(QueryParams::new().cursor(&mut cursor).since_tick(1, &owner).expect("cursor"), ChangeTick::from_raw(5));
}

#[test]
fn traversal_sources_compare_by_kind_and_target() {
    let a = EntityId::from_parts(1, 0);
    let b = EntityId::from_parts(2, 0);
    assert!(same_traversal(&TraversalSource::All, &TraversalSource::All));
    assert!(same_traversal(
        &TraversalSource::Sparse { component_index: 3 },
        &TraversalSource::Sparse { component_index: 3 }
    ));
    assert!(!same_traversal(
        &TraversalSource::Sparse { component_index: 3 },
        &TraversalSource::Table { component_index: 3 }
    ));
    assert!(!same_traversal(
        &TraversalSource::Table { component_index: 3 },
        &TraversalSource::Table { component_index: 4 }
    ));
    assert!(same_traversal(&TraversalSource::Exact { ids: vec![a, b] }, &TraversalSource::Exact { ids: vec![a, b] }));
    assert!(!same_traversal(&TraversalSource::Exact { ids: vec![a, b] }, &TraversalSource::Exact { ids: vec![b, a] }));
    assert!(!same_traversal(&TraversalSource::Exact { ids: vec![a] }, &TraversalSource::Exact { ids: vec![a, b] }));
}

#[test]
fn materializing_policies_reject_exact_order_and_moving_windows() {
    let exact = TraversalSource::Exact { ids: vec![EntityId::from_parts(0, 0)] };
    let sparse = TraversalSource::Sparse { component_index: 0 };
    assert!(check_materialization_policy(QueryPolicy::Prepared, &exact, true).is_ok());
    assert!(matches!(
        check_materialization_policy(QueryPolicy::Membership, &exact, false),
        Err(QueryError::UnsupportedCachePolicy { .. })
    ));
    assert!(matches!(
        check_materialization_policy(QueryPolicy::Result, &sparse, true),
        Err(QueryError::MovingChangeWindow)
    ));
    assert!(check_materialization_policy(QueryPolicy::Result, &sparse, false).is_ok());
    assert!(check_materialization_policy(QueryPolicy::DeltaMembership, &sparse, true).is_ok());
}

#[test]
fn commands_target_only_live_or_reserved_entities() {
    let e = EntityId::from_parts(3, 1);
    assert!(ensure_target(e, true, false).is_ok());
    assert!(ensure_target(e, false, true).is_ok());
    match ensure_target(e, false, false) {
        Err(QueryError::CommandRejected { detail }) => {
            assert_eq!(detail, "stale command target EntityId { slot: 3, generation: 1 }")
        }
        _ => panic!("expected CommandRejected"),
    }
}

#[test]
fn cursor_checks_and_commits_follow_the_owner_answer() {
    assert!(check_cursor(true, 3, 3).is_ok());
    assert!(matches!(check_cursor(false, 3, 3), Err(QueryError::WrongOwner)));
    assert!(matches!(check_cursor(false, 3, 4), Err(QueryError::WrongOwner)));
    assert!(matches!(check_cursor(true, 3, 4), Err(QueryError::WrongQuery { .. })));
    let owner = WorldOwner::new();
    let mut cursor = QueryCursor::from_start(owner.clone(), 3);
    cursor.commit_checked(false, 3, ChangeTick::from_raw(5));
    assert_eq!(cursor.since(), ChangeTick::from_raw(0));
    cursor.commit_checked(true, 4, ChangeTick::from_raw(5));
    assert_eq!(cursor.since(), ChangeTick::from_raw(0));
    cursor.commit_checked(cursor.same_owner(&owner), 3, ChangeTick::from_raw(5));
    assert_eq!(cursor.since(), ChangeTick::from_raw(5));
    assert!(cursor.validate(&owner, 3).is_ok());
    assert!(matches!(cursor.validate(&WorldOwner::new(), 3), Err(QueryError::WrongOwner)));
}
