use std::any::TypeId;

use lib::operation::StageOperation;
use lib::resource::store::ResourceStore;
use lib::schedule::builder::{
    attach_execution_lease_with_locks, collect_ordering_edges, ensure_set_label, has_explicit_path, push_ordering_edge, topological_sort,
    validate_system_flush_mode, EventRegistration, ScheduleBuilder,
};
use lib::schedule::compiled::{CompiledSchedule, CompiledStage, CompiledSystem, Schedule};
use lib::schedule::condition::{
    resource_tick_advanced, state_tick_advanced, Condition, ConditionError, Resource,
};
use lib::schedule::context::RunContext;
use lib::schedule::error::{BuildError, ScheduleError};
use lib::schedule::owner::ScheduleOwner;
use lib::schedule::stage::{check_stage_owner, StageDescriptor, StageId, FIXED_UPDATE, RENDER, STARTUP, UPDATE};
use lib::schedule::system::{check_system_handle, FlushMode, System, SystemId, SystemSet};
use lib::schedule::builder::EventAccess;
use lib::state::{on_enter, on_transition, State, StateError};
use lib::time::{ChangeTick, Duration, FixedAccumulator, FixedConfig, FixedStep};
use lib::world::{RunGuard, WorldError, WorldState};

struct Score;
struct Ping;

type Val = Resource<i32, u8>;

fn score() -> TypeId {
    TypeId::of::<Score>()
}

fn mode() -> TypeId {
    TypeId::of::<State<u8>>()
}

fn store_with_score() -> ResourceStore<Val> {
    let mut store = ResourceStore::new();
    store.register(score(), "Score");
    store
}

fn ready_world(store: &ResourceStore<Val>) -> WorldState<'_, Val> {
    WorldState {
        pending_commands: false,
        run_guard: RunGuard::Idle,
        mutation_poisoned: false,
        live_lease: false,
        resources: store,
    }
}

fn no_roles(count: usize) -> Vec<Vec<Option<EventRegistration>>> {
    (0..count).map(|_| Vec::new()).collect()
}

fn build(builder: ScheduleBuilder<()>, world: &WorldState<'_, Val>) -> Result<Schedule<()>, BuildError> {
    let roles = no_roles(builder.system_count());
    builder.build(world, &roles)
}

fn step(index: u64) -> FixedStep {
    FixedStep { index, delta: Duration::from_millis(16), steps: 1 }
}

// ---------------------------------------------------------------- conditions

#[test]
fn fixed_step_mod_validates_binary_cadence() {
    assert_eq!(Condition::fixed_step_mod(0, 0).err(), Some(ConditionError::ZeroPeriod));
    assert_eq!(Condition::fixed_step_mod(3, 0).err(), Some(ConditionError::PeriodNotPowerOfTwo { period: 3 }));
    assert_eq!(Condition::fixed_step_mod(4, 4).err(), Some(ConditionError::PhaseOutOfRange { period: 4, phase: 4 }));
    assert_eq!(ConditionError::ZeroPeriod.to_string(), "fixed-step cadence period must be nonzero");
    assert!(ConditionError::PeriodNotPowerOfTwo { period: 3 }.to_string().contains('3'));
    assert!(ConditionError::PhaseOutOfRange { period: 4, phase: 4 }.to_string().contains('4'));
}

#[test]
fn fixed_step_mod_uses_zero_based_mask_and_is_false_outside_fixed_update() {
    let store: ResourceStore<Val> = ResourceStore::new();
    let condition = Condition::fixed_step_mod(4, 0).expect("condition");
    let mut context = RunContext::new();
    assert!(!condition.evaluate(&store, 0, &context));

    for index in 0..8 {
        context.set_fixed_step(Some(step(index)));
        assert_eq!(condition.evaluate(&store, 0, &context), index % 4 == 0);
        assert_eq!(condition.evaluate_for_set(&store, 0, &context), index % 4 == 0);
    }
}

#[test]
fn resource_added_and_changed_advance_system_cursors() {
    let mut store = store_with_score();
    let mut context = RunContext::new();

    assert!(!Condition::resource_added(score()).evaluate(&store, 0, &context));
    store.insert(score(), "Score", Val::Plain(1), ChangeTick::from_raw(1)).expect("insert");
    assert!(Condition::resource_added(score()).evaluate(&store, 0, &context));
    Condition::resource_added(score()).advance_cursors(&store, 0, &mut context);
    assert!(!Condition::resource_added(score()).evaluate(&store, 0, &context));

    store.insert(score(), "Score", Val::Plain(2), ChangeTick::from_raw(2)).expect("replace");
    assert!(Condition::resource_changed(score()).evaluate(&store, 1, &context));
    Condition::resource_changed(score()).advance_cursors(&store, 1, &mut context);
    assert!(!Condition::resource_changed(score()).evaluate(&store, 1, &context));
}

#[test]
fn resource_added_evaluate_for_set_advances_set_cursors() {
    let mut store = store_with_score();
    let mut context = RunContext::with_set_capacity(1);

    store.insert(score(), "Score", Val::Plain(1), ChangeTick::from_raw(1)).expect("insert");
    let condition = Condition::resource_added(score());
    assert!(condition.evaluate_for_set(&store, 0, &context));
    condition.advance_set_cursors(&store, 0, &mut context);
    assert!(!condition.evaluate_for_set(&store, 0, &context));
}

#[test]
fn and_or_combinators_delegate_cursor_advance() {
    let mut store = store_with_score();
    let mut context = RunContext::new();
    store.insert(score(), "Score", Val::Plain(1), ChangeTick::from_raw(1)).expect("insert");

    let condition = Condition::resource_added(score()).and(Condition::resource_changed(score()));
    assert!(condition.evaluate(&store, 0, &context));
    condition.advance_cursors(&store, 0, &mut context);

    store.insert(score(), "Score", Val::Plain(2), ChangeTick::from_raw(2)).expect("change");
    let or_condition = Condition::never().or(Condition::resource_changed(score()));
    assert!(or_condition.evaluate(&store, 1, &context));
    or_condition.advance_set_cursors(&store, 1, &mut context);
    let tick = store.changed_tick_for(score()).expect("tick").expect("present");
    assert_eq!(context.resource_changed_cursor_for_set(1, score()), tick);
}

#[test]
fn state_changed_condition_tracks_transitions() {
    let mut store: ResourceStore<Val> = ResourceStore::new();
    store.register(mode(), "State<u8>");
    let mut context = RunContext::new();

    store.insert(mode(), "State<u8>", Val::State(State::new(1u8)), ChangeTick::from_raw(1)).expect("state");
    match store.get_mut(mode(), "State<u8>", ChangeTick::from_raw(2)).expect("mut").expect("present") {
        Val::State(state) => state.request(2).expect("request"),
        Val::Plain(_) => panic!("state expected"),
    }
    let tick = ChangeTick::from_raw(3);
    match store.get_mut(mode(), "State<u8>", tick).expect("mut").expect("present") {
        Val::State(state) => state.apply_pending(tick),
        Val::Plain(_) => panic!("state expected"),
    }

    let condition = Condition::state_changed::<u8>();
    assert!(condition.evaluate(&store, 0, &context));
    condition.advance_cursors(&store, 0, &mut context);
    assert!(!condition.evaluate(&store, 0, &context));
}

#[test]
fn resource_tick_advanced_helper() {
    let tick = ChangeTick::from_raw(5);
    assert!(!resource_tick_advanced(Some(ChangeTick::from_raw(4)), tick));
    assert!(resource_tick_advanced(Some(ChangeTick::from_raw(6)), tick));
    assert!(!resource_tick_advanced(None, tick));
    assert!(!state_tick_advanced(Some(ChangeTick::from_raw(4)), tick));
    assert!(state_tick_advanced(Some(ChangeTick::from_raw(6)), tick));
}

#[test]
fn advancing_absent_temporal_values_leaves_cursors_at_zero() {
    let mut store: ResourceStore<Val> = ResourceStore::new();
    store.register(score(), "Score");
    store.register(mode(), "State<u8>");
    let mut context = RunContext::with_set_capacity(1);

    for condition in [
        Condition::resource_added(score()),
        Condition::resource_changed(score()),
        Condition::state_changed::<u8>(),
    ] {
        condition.advance_cursors(&store, 0, &mut context);
        condition.advance_set_cursors(&store, 0, &mut context);
    }

    assert_eq!(context.resource_added_cursor(0, score()), ChangeTick::zero());
    assert_eq!(context.resource_changed_cursor(0, score()), ChangeTick::zero());
    assert_eq!(context.state_transition_cursor(0, mode()), ChangeTick::zero());
    assert_eq!(context.resource_added_cursor_for_set(0, score()), ChangeTick::zero());
    assert_eq!(context.resource_changed_cursor_for_set(0, score()), ChangeTick::zero());
    assert_eq!(context.state_transition_cursor_for_set(0, mode()), ChangeTick::zero());
}

#[test]
fn resource_exists_and_constant_conditions() {
    let mut store = store_with_score();
    let context = RunContext::with_set_capacity(2);
    assert!(!Condition::resource_exists(score()).evaluate_for_set(&store, 0, &context));
    assert!(!Condition::never().evaluate_for_set(&store, 0, &context));
    assert!(Condition::always().evaluate_for_set(&store, 0, &context));
    store.insert(score(), "Score", Val::Plain(1), ChangeTick::from_raw(1)).expect("insert");
    assert!(Condition::resource_exists(score()).evaluate_for_set(&store, 0, &context));
    assert!(Condition::always().and(Condition::resource_exists(score())).evaluate_for_set(&store, 0, &context));
    assert!(Condition::never().or(Condition::resource_exists(score())).evaluate_for_set(&store, 0, &context));
    assert!(!Condition::never().and(Condition::always()).evaluate(&store, 0, &context));
}

// ---------------------------------------------------------------- run context

#[test]
fn set_gate_resizes_cache_for_out_of_range_indices() {
    let mut context = RunContext::with_set_capacity(0);
    context.set_gate(3, true);
    assert_eq!(context.set_gate_capacity(), 4);
    assert_eq!(context.set_gate_cached(3), Some(true));
}

#[test]
fn clearing_the_set_cache_keeps_its_slots() {
    let mut context = RunContext::with_set_capacity(2);
    context.set_gate(1, false);
    assert_eq!(context.set_gate_cached(1), Some(false));
    context.clear_set_cache();
    assert_eq!(context.set_gate_capacity(), 2);
    assert_eq!(context.set_gate_cached(1), None);
}

#[test]
fn cursor_setters_only_touch_their_key() {
    let mut context = RunContext::new();
    context.set_resource_added_cursor(2, score(), ChangeTick::from_raw(7));
    assert_eq!(context.resource_added_cursor(2, score()), ChangeTick::from_raw(7));
    assert_eq!(context.resource_added_cursor(3, score()), ChangeTick::zero());
    assert_eq!(context.resource_changed_cursor(2, score()), ChangeTick::zero());
    context.set_state_transition_cursor_for_set(0, mode(), ChangeTick::from_raw(4));
    assert_eq!(context.state_transition_cursor_for_set(0, mode()), ChangeTick::from_raw(4));
    assert_eq!(context.state_transition_cursor(0, mode()), ChangeTick::zero());
}

// ---------------------------------------------------------------- errors and handles

#[test]
fn world_error_converts_into_build_error() {
    let error: BuildError = WorldError::NestedRun.into();
    assert!(matches!(error, BuildError::WorldBuild(WorldError::NestedRun)));
}

#[test]
fn stage_id_index_round_trip() {
    let owner = ScheduleOwner::new();
    let id = StageId::new(owner, 3);
    assert_eq!(id.index(), 3);
}

#[test]
fn stage_id_owner_mismatch_is_rejected() {
    let owner_a = ScheduleOwner::new();
    let owner_b = ScheduleOwner::new();
    let id = StageId::new(owner_a, 0);
    assert!(matches!(id.validate_owner(&owner_b), Err(ScheduleError::OwnerMismatch)));
}

#[test]
fn stage_id_owner_match_is_accepted() {
    let owner = ScheduleOwner::new();
    let id = StageId::new(owner.clone(), 0);
    assert!(id.validate_owner(&owner).is_ok());
}

#[test]
fn system_id_validate_owner_and_generation() {
    let owner = ScheduleOwner::new();
    let id = SystemId::new(owner.clone(), 0, 1);
    assert!(id.validate_owner(&owner, 1).is_ok());
    assert!(matches!(id.validate_owner(&ScheduleOwner::new(), 1), Err(ScheduleError::OwnerMismatch)));
    assert!(matches!(id.validate_owner(&owner, 0), Err(ScheduleError::StaleHandle)));
}

#[test]
fn schedule_owners_compare_by_identity() {
    let a = ScheduleOwner::new();
    let b = ScheduleOwner::new();
    assert!(a.same(&a));
    assert!(a.same(&a.clone()));
    assert!(!a.same(&b));
}

#[test]
fn system_builder_fluent_api() {
    let set = SystemSet::new("physics");
    let system = System::new("move", "Update", ())
        .before("setup")
        .after("cleanup")
        .before_set(&set)
        .after_set(&set)
        .in_set(&set)
        .run_if(Condition::always())
        .requires_resource(score())
        .emits(TypeId::of::<u32>(), "u32")
        .consumes(TypeId::of::<u32>(), "u32")
        .consumes_on_add(TypeId::of::<u32>(), "u32")
        .consumes_on_remove(TypeId::of::<u32>(), "u32")
        .flush_mode(FlushMode::Stage)
        .flush_after()
        .disabled();
    assert_eq!(system.name(), "move");
    assert_eq!(system.before_labels(), &vec![String::from("setup")]);
    assert_eq!(system.after_labels(), &vec![String::from("cleanup")]);
    assert_eq!(system.in_set_label(), Some("physics"));
    assert_eq!(system.roles().len(), 4);
    assert_eq!(system.flush_mode_value(), FlushMode::AfterSystem);
    assert!(!system.enabled());
}

// ---------------------------------------------------------------- state

#[derive(Clone, Debug, Eq, PartialEq)]
enum Phase {
    A,
    B,
    C,
}

#[test]
fn state_request_idempotent_and_conflicting() {
    let mut state = State::new(Phase::A);
    state.request(Phase::B).expect("first");
    state.request(Phase::B).expect("repeat");
    assert!(matches!(state.request(Phase::C), Err(StateError::ConflictingTransition)));
    assert_eq!(state.pending(), Some(&Phase::B));
    assert_eq!(StateError::ConflictingTransition.to_string(), "conflicting state transition request");
}

#[test]
fn apply_pending_moves_current_and_records_tick() {
    let mut state = State::new(Phase::A);
    state.request(Phase::B).expect("request");
    let tick = ChangeTick::from_raw(9);
    state.apply_pending(tick);
    assert_eq!(state.current(), &Phase::B);
    assert_eq!(state.previous(), Some(&Phase::A));
    assert_eq!(state.transition_tick(), Some(tick));
    state.apply_pending(tick);
    assert_eq!(state.current(), &Phase::B);
}

#[test]
fn requesting_the_current_value_is_accepted() {
    let mut state = State::new(Phase::A);
    state.request(Phase::A).expect("same");
    assert_eq!(state.pending(), None);
    state.apply_pending(ChangeTick::from_raw(1));
    assert_eq!(state.current(), &Phase::A);
    assert_eq!(state.previous(), None);
    assert_eq!(state.transition_tick(), None);
}

// ---------------------------------------------------------------- builder

#[test]
fn defaults_construct() {
    assert_eq!(RunContext::default().set_gate_capacity(), 0);
    let _builder: ScheduleBuilder<()> = Schedule::standard_builder();
}

#[test]
fn schedule_builder_entry_point_constructs() {
    let _builder: ScheduleBuilder<()> = Schedule::builder();
}

#[test]
fn build_rejects_running_world() {
    let store: ResourceStore<Val> = ResourceStore::new();
    let world = WorldState { run_guard: RunGuard::Running(StageOperation::Update), ..ready_world(&store) };
    assert!(matches!(build(ScheduleBuilder::standard(), &world), Err(BuildError::WorldRunning)));
}

#[test]
fn build_rejects_poisoned_world() {
    let store: ResourceStore<Val> = ResourceStore::new();
    let world = WorldState { mutation_poisoned: true, ..ready_world(&store) };
    assert!(matches!(build(ScheduleBuilder::standard(), &world), Err(BuildError::WorldMutationPoisoned)));
}

#[test]
fn build_reports_world_state_in_order() {
    let store: ResourceStore<Val> = ResourceStore::new();
    let world = WorldState {
        pending_commands: true,
        run_guard: RunGuard::Running(StageOperation::Render),
        mutation_poisoned: true,
        live_lease: true,
        resources: &store,
    };
    assert!(matches!(build(ScheduleBuilder::standard(), &world), Err(BuildError::PendingCommands)));
    let world = WorldState { live_lease: true, ..ready_world(&store) };
    assert!(matches!(build(ScheduleBuilder::standard(), &world), Err(BuildError::LiveLeaseAlreadyAttached)));
}

#[test]
fn build_detects_fixed_update_without_config_when_add_system_validation_bypassed() {
    let store: ResourceStore<Val> = ResourceStore::new();
    let mut builder: ScheduleBuilder<()> = ScheduleBuilder::new();
    builder.add_stage(FIXED_UPDATE, StageOperation::Update).expect("stage");
    builder.add_system(System::new("fixed", FIXED_UPDATE, ())).expect("system");
    assert!(matches!(build(builder, &ready_world(&store)), Err(BuildError::FixedUpdateWithoutConfig)));
}

#[test]
fn fixed_config_requires_a_fixed_stage() {
    let store: ResourceStore<Val> = ResourceStore::new();
    let mut builder: ScheduleBuilder<()> = ScheduleBuilder::new();
    builder.add_stage(UPDATE, StageOperation::Update).expect("stage");
    builder.fixed(FixedConfig::new(Duration::from_millis(10)).expect("delta"));
    assert!(matches!(build(builder, &ready_world(&store)), Err(BuildError::FixedConfigWithoutFixedUpdate)));
}

#[test]
fn topological_sort_rejects_unknown_before_and_after_edges() {
    let sets: Vec<String> = Vec::new();
    let systems = vec![System::new("leaf", UPDATE, ()).before("ghost")];
    assert!(matches!(
        collect_ordering_edges(&systems, &sets, &Vec::new()),
        Err(BuildError::UnknownSystem { label }) if label == "ghost"
    ));

    let systems = vec![System::new("leaf", UPDATE, ()).after("missing")];
    assert!(matches!(
        collect_ordering_edges(&systems, &sets, &Vec::new()),
        Err(BuildError::UnknownSystem { label }) if label == "missing"
    ));
}

#[test]
fn builder_reports_unknown_sets_and_invalid_flush_modes() {
    let mut builder: ScheduleBuilder<()> = ScheduleBuilder::standard();
    assert!(matches!(builder.set_stage_flush_mode("missing", FlushMode::Final), Err(BuildError::UnknownStage { .. })));
    assert!(matches!(
        builder.set_stage_flush_mode(RENDER, FlushMode::Stage),
        Err(BuildError::InvalidStageFlushMode { .. })
    ));

    let missing = SystemSet::new("missing");
    assert!(matches!(
        builder.add_system(System::new("member", UPDATE, ()).in_set(&missing)),
        Err(BuildError::UnknownSystemSet { .. })
    ));
    assert!(matches!(
        builder.add_system(System::new("before", UPDATE, ()).before_set(&missing)),
        Err(BuildError::UnknownSystemSet { .. })
    ));
}

#[test]
fn internal_ordering_helpers_cover_cycles_unknown_sets_and_invalid_edges() {
    assert!(!has_explicit_path(0, 2, 3, &vec![(0, 1), (1, 0)]));

    let sets: Vec<String> = Vec::new();
    assert!(matches!(ensure_set_label(&sets, "missing"), Err(BuildError::UnknownSystemSet { .. })));

    let systems = vec![System::new("update", UPDATE, ()), System::new("render", RENDER, ())];
    assert!(matches!(push_ordering_edge(&mut Vec::new(), 0, 0, &systems), Err(BuildError::SelfEdge { .. })));
    assert!(matches!(
        push_ordering_edge(&mut Vec::new(), 0, 1, &systems),
        Err(BuildError::CrossStageSystemEdge { .. })
    ));
    assert!(matches!(
        validate_system_flush_mode(&System::new("render", RENDER, ()).flush_after(), StageOperation::Render),
        Err(BuildError::InvalidSystemFlushMode { .. })
    ));
}

#[test]
fn build_deduplicates_present_required_resource_locks() {
    let mut store = store_with_score();
    store.insert(score(), "Score", Val::Plain(1), ChangeTick::from_raw(1)).expect("insert resource");

    let mut builder: ScheduleBuilder<()> = ScheduleBuilder::standard();
    builder.add_system(System::new("first", UPDATE, ()).requires_resource(score())).expect("first");
    builder.add_system(System::new("second", UPDATE, ()).requires_resource(score())).expect("second");

    let schedule = build(builder, &ready_world(&store)).expect("schedule");
    assert_eq!(schedule.compiled.required_resources, vec![score()]);
}

#[test]
fn build_reports_missing_required_resources_by_name() {
    let store = store_with_score();
    let mut builder: ScheduleBuilder<()> = ScheduleBuilder::standard();
    builder.add_system(System::new("needs", UPDATE, ()).requires_resource(score())).expect("system");
    match build(builder, &ready_world(&store)) {
        Err(BuildError::MissingRequiredResource { name }) => assert_eq!(name, "Score"),
        _ => panic!("expected a missing resource"),
    }
}

#[test]
fn build_orders_systems_by_edges_then_by_index() {
    let store: ResourceStore<Val> = ResourceStore::new();
    let mut builder: ScheduleBuilder<()> = ScheduleBuilder::standard();
    builder.add_system(System::new("c", UPDATE, ())).expect("c");
    builder.add_system(System::new("b", UPDATE, ()).before("c")).expect("b");
    builder.add_system(System::new("a", UPDATE, ()).after("b")).expect("a");
    builder.add_system(System::new("draw", RENDER, ())).expect("draw");
    let schedule = build(builder, &ready_world(&store)).expect("schedule");
    let update = schedule.stage_index(UPDATE).expect("update stage");
    assert_eq!(schedule.compiled.stages[update].system_order, vec![1, 0, 2]);
    let render = schedule.stage_index(RENDER).expect("render stage");
    assert_eq!(schedule.compiled.stages[render].system_order, vec![3]);
    assert_eq!(schedule.compiled.update_stage_order, vec![0, 1, 2]);
    assert_eq!(schedule.compiled.render_stage_order, vec![3]);
    assert_eq!(schedule.compiled.system_enabled, vec![true, true, true, true]);
    assert_eq!(schedule.compiled.systems[2].stage_index, 2);
    assert_eq!(schedule.system_id("a").expect("a").index(), 2);
}

#[test]
fn build_reports_cycles_with_member_names() {
    let store: ResourceStore<Val> = ResourceStore::new();
    let mut builder: ScheduleBuilder<()> = ScheduleBuilder::standard();
    builder.add_system(System::new("x", UPDATE, ()).before("y")).expect("x");
    builder.add_system(System::new("y", UPDATE, ()).before("x")).expect("y");
    match build(builder, &ready_world(&store)) {
        Err(BuildError::Cycle { path }) => assert_eq!(path, vec![String::from("x"), String::from("y")]),
        _ => panic!("expected a cycle"),
    }
}

#[test]
fn build_rejects_cross_stage_edges() {
    let store: ResourceStore<Val> = ResourceStore::new();
    let mut builder: ScheduleBuilder<()> = ScheduleBuilder::standard();
    builder.add_system(System::new("logic", UPDATE, ()).before("draw")).expect("logic");
    builder.add_system(System::new("draw", RENDER, ())).expect("draw");
    assert!(matches!(build(builder, &ready_world(&store)), Err(BuildError::CrossStageSystemEdge { .. })));
}

#[test]
fn set_ordering_orders_members_of_sets() {
    let store: ResourceStore<Val> = ResourceStore::new();
    let early = SystemSet::new("early");
    let late = SystemSet::new("late");
    let mut builder: ScheduleBuilder<()> = ScheduleBuilder::standard();
    builder.register_set(early.clone()).expect("early");
    builder.register_set(late.clone()).expect("late");
    builder.order_set_before(&early, &late).expect("order");
    builder.add_system(System::new("second", UPDATE, ()).in_set(&late)).expect("second");
    builder.add_system(System::new("first", UPDATE, ()).in_set(&early)).expect("first");
    let schedule = build(builder, &ready_world(&store)).expect("schedule");
    let update = schedule.stage_index(UPDATE).expect("update");
    assert_eq!(schedule.compiled.stages[update].system_order, vec![1, 0]);
    assert_eq!(schedule.set_count(), 2);
    assert_eq!(schedule.compiled.systems[0].in_set_index, Some(1));
}

#[test]
fn consumers_need_a_producer_that_runs_first() {
    let store: ResourceStore<Val> = ResourceStore::new();
    let registered = EventRegistration { event_id: 0, frame_operation: Some(StageOperation::Update), external_source: false };
    let mut builder: ScheduleBuilder<()> = ScheduleBuilder::standard();
    builder.add_system(System::new("reader", UPDATE, ()).consumes(TypeId::of::<Ping>(), "Ping")).expect("reader");
    let roles = vec![vec![Some(registered)]];
    assert!(matches!(builder.build(&ready_world(&store), &roles), Err(BuildError::MissingEventProducer { .. })));

    let mut builder: ScheduleBuilder<()> = ScheduleBuilder::standard();
    builder.add_system(System::new("reader", UPDATE, ()).consumes(TypeId::of::<Ping>(), "Ping")).expect("reader");
    builder.add_system(System::new("writer", UPDATE, ()).emits(TypeId::of::<Ping>(), "Ping")).expect("writer");
    let roles = vec![vec![Some(registered)], vec![Some(registered)]];
    assert!(matches!(
        builder.build(&ready_world(&store), &roles),
        Err(BuildError::UnreachableEventProducer { .. })
    ));

    let mut builder: ScheduleBuilder<()> = ScheduleBuilder::standard();
    builder.add_system(System::new("reader", UPDATE, ()).consumes(TypeId::of::<Ping>(), "Ping").after("writer")).expect("reader");
    builder.add_system(System::new("writer", UPDATE, ()).emits(TypeId::of::<Ping>(), "Ping")).expect("writer");
    let roles = vec![vec![Some(registered)], vec![Some(registered)]];
    let schedule = builder.build(&ready_world(&store), &roles).expect("schedule");
    assert_eq!(schedule.compiled.systems[0].event_access.consumed, vec![0]);
    assert_eq!(schedule.compiled.systems[1].event_access.emitted, vec![0]);
}

#[test]
fn unregistered_event_roles_are_rejected() {
    let store: ResourceStore<Val> = ResourceStore::new();
    let mut builder: ScheduleBuilder<()> = ScheduleBuilder::standard();
    builder.add_system(System::new("writer", UPDATE, ()).emits(TypeId::of::<Ping>(), "Ping")).expect("writer");
    let roles = vec![vec![None]];
    assert!(matches!(builder.build(&ready_world(&store), &roles), Err(BuildError::UnregisteredEventRole { .. })));
}

#[test]
fn topological_sort_prefers_smallest_ready_index() {
    let systems = vec![
        System::new("a", UPDATE, ()),
        System::new("b", UPDATE, ()),
        System::new("c", UPDATE, ()),
    ];
    let order = topological_sort(&vec![0, 1, 2], &systems, &vec![(2, 0)]).expect("order");
    assert_eq!(order, vec![1, 2, 0]);
}

// ---------------------------------------------------------------- compiled schedules

fn compiled_with_update_stage() -> CompiledSchedule<()> {
    CompiledSchedule {
        owner: ScheduleOwner::new(),
        generation: 1,
        stages: vec![CompiledStage {
            descriptor: StageDescriptor {
                label: String::from(UPDATE),
                operation: StageOperation::Update,
                flush_mode: FlushMode::Final,
            },
            system_order: Vec::new(),
        }],
        systems: Vec::new(),
        update_stage_order: vec![0],
        render_stage_order: Vec::new(),
        fixed_config: None,
        fixed_accumulator: FixedAccumulator::new(),
        startup_complete: false,
        system_enabled: Vec::new(),
        set_conditions: Vec::new(),
        required_resources: Vec::new(),
    }
}

#[test]
fn system_name_returns_registered_label() {
    let mut schedule = compiled_with_update_stage();
    let id = SystemId::new(schedule.owner.clone(), 0, schedule.generation);
    schedule.systems.push(CompiledSystem {
        name: String::from("work"),
        stage_index: 0,
        body: (),
        enabled: true,
        flush_mode: FlushMode::Final,
        in_set_index: None,
        conditions: Vec::new(),
        id,
        event_access: EventAccess { emitted: Vec::new(), consumed: Vec::new() },
    });
    schedule.system_enabled.push(true);
    assert_eq!(schedule.system_name(0), "work");
}

#[test]
fn operation_stages_returns_update_order() {
    let compiled = compiled_with_update_stage();
    assert_eq!(compiled.operation_stages(StageOperation::Update), &[0]);
}

#[test]
fn set_system_enabled_rejects_stale_handle_index() {
    let mut compiled = compiled_with_update_stage();
    let id = SystemId::new(compiled.owner.clone(), 9, compiled.generation);
    assert!(matches!(compiled.set_system_enabled(&id, false), Err(ScheduleError::StaleHandle)));
}

#[test]
fn schedule_test_accessors_resolve_standard_stages() {
    let store: ResourceStore<Val> = ResourceStore::new();
    let schedule = build(Schedule::standard_builder(), &ready_world(&store)).expect("schedule");
    assert!(schedule.stage_index(UPDATE).is_some());
    assert_eq!(schedule.stage_flush_mode_for_test(UPDATE), Some(FlushMode::Stage));
    assert_eq!(schedule.stage_flush_mode_for_test(RENDER), Some(FlushMode::Final));
}

#[test]
fn update_plans_reject_foreign_render_startup_and_duplicate_stages() {
    let store: ResourceStore<Val> = ResourceStore::new();
    let schedule = build(Schedule::standard_builder(), &ready_world(&store)).expect("schedule");
    let update = schedule.stage_id(UPDATE).expect("update");
    let fixed = schedule.stage_id(FIXED_UPDATE).expect("fixed");
    let plan = schedule.update_plan(vec![fixed.clone(), update.clone()]).expect("plan");
    assert_eq!(plan.stages(), &[1, 2]);
    assert!(schedule.plan_contains_stage(&plan, 2));
    assert!(!schedule.plan_contains_stage(&plan, 0));
    assert!(matches!(
        schedule.update_plan(vec![schedule.stage_id(RENDER).expect("render")]),
        Err(ScheduleError::NonUpdateStageInPlan)
    ));
    assert!(matches!(
        schedule.update_plan(vec![schedule.stage_id(STARTUP).expect("startup")]),
        Err(ScheduleError::StartupStageInPlan)
    ));
    assert!(matches!(schedule.update_plan(vec![update.clone(), update]), Err(ScheduleError::DuplicateStageInPlan)));
    let other = build(Schedule::standard_builder(), &ready_world(&store)).expect("other");
    assert!(matches!(
        schedule.update_plan(vec![other.stage_id(UPDATE).expect("foreign")]),
        Err(ScheduleError::OwnerMismatch)
    ));
}

#[test]
fn enabling_a_system_through_its_handle() {
    let store: ResourceStore<Val> = ResourceStore::new();
    let mut builder: ScheduleBuilder<()> = ScheduleBuilder::standard();
    builder.add_system(System::new("work", UPDATE, ())).expect("work");
    let mut schedule = build(builder, &ready_world(&store)).expect("schedule");
    let id = schedule.system_id("work").expect("id");
    schedule.set_system_enabled(&id, false).expect("disable");
    assert_eq!(schedule.compiled.system_enabled, vec![false]);
    assert!(!schedule.compiled.systems[0].enabled);
    assert!(schedule.system_id("missing").is_none());
}

#[test]
fn plans_run_in_compiled_order_whatever_order_they_name() {
    let store: ResourceStore<Val> = ResourceStore::new();
    let schedule = build(Schedule::standard_builder(), &ready_world(&store)).expect("schedule");
    let update = schedule.stage_id(UPDATE).expect("update");
    let fixed = schedule.stage_id(FIXED_UPDATE).expect("fixed");
    let forward = schedule.update_plan(vec![fixed.clone(), update.clone()]).expect("forward");
    let backward = schedule.update_plan(vec![update, fixed]).expect("backward");
    assert_eq!(schedule.plan_stage_order(&forward), vec![1, 2]);
    assert_eq!(schedule.plan_stage_order(&backward), vec![1, 2]);
}

#[test]
fn transition_hooks_gate_on_state_changes_and_require_the_state() {
    let hook = lib::state::on_enter::<u8, ()>("enter", UPDATE, ());
    assert_eq!(hook.name(), "enter");
    assert_eq!(hook.stage_label(), UPDATE);
    assert_eq!(hook.required_resources(), &vec![mode()]);
    let (_, conditions) = hook.into_parts();
    assert_eq!(conditions.len(), 1);

    let mut store: ResourceStore<Val> = ResourceStore::new();
    store.register(mode(), "State<u8>");
    store.insert(mode(), "State<u8>", Val::State(State::new(1u8)), ChangeTick::from_raw(1)).expect("state");
    let context = RunContext::new();
    assert!(!conditions[0].evaluate(&store, 0, &context));
    match store.get_mut(mode(), "State<u8>", ChangeTick::from_raw(2)).expect("mut").expect("present") {
        Val::State(state) => {
            state.request(2).expect("request");
            state.apply_pending(ChangeTick::from_raw(2));
        }
        Val::Plain(_) => panic!("state expected"),
    }
    assert!(conditions[0].evaluate(&store, 0, &context));
}

#[test]
fn requesting_the_current_state_while_another_is_pending_changes_nothing() {
    let mut state = State::new(Phase::A);
    state.request(Phase::B).expect("pending");
    state.request(Phase::A).expect("current value is idempotent");
    assert_eq!(state.pending(), Some(&Phase::B));
    assert_eq!(state.current(), &Phase::A);
}


#[test]
fn handle_checks_put_the_owner_first_then_the_generation() {
    assert_eq!(check_system_handle(true, 1, 1), Ok(()));
    assert_eq!(check_system_handle(false, 1, 1), Err(ScheduleError::OwnerMismatch));
    assert_eq!(check_system_handle(true, 0, 1), Err(ScheduleError::StaleHandle));
    assert_eq!(check_system_handle(false, 0, 1), Err(ScheduleError::OwnerMismatch));
    assert_eq!(check_stage_owner(true), Ok(()));
    assert_eq!(check_stage_owner(false), Err(ScheduleError::OwnerMismatch));
    let owner = ScheduleOwner::new();
    let id = SystemId::new(owner.clone(), 0, 1);
    assert_eq!(id.validate_owner(&owner, 1), Ok(()));
    assert_eq!(id.validate_owner(&ScheduleOwner::new(), 1), Err(ScheduleError::OwnerMismatch));
    assert_eq!(id.validate_owner(&owner, 0), Err(ScheduleError::StaleHandle));
    assert_eq!(id.validate_owner(&ScheduleOwner::new(), 0), Err(ScheduleError::OwnerMismatch));
}

#[test]
fn update_plan_reports_the_first_refused_handle() {
    let store: ResourceStore<Val> = ResourceStore::new();
    let schedule = build(ScheduleBuilder::standard(), &ready_world(&store)).expect("build");
    let update = schedule.stage_id(UPDATE).expect("update");
    let render = schedule.stage_id(RENDER).expect("render");
    let startup = schedule.stage_id(STARTUP).expect("startup");
    let stale = StageId::new(schedule.compiled.owner.clone(), 9);
    let stages = vec![update.clone(), render.clone()];
    assert!(matches!(schedule.plan_from_checked(&stages, &vec![true, true]), Err(ScheduleError::NonUpdateStageInPlan)));
    assert!(matches!(schedule.plan_from_checked(&stages, &vec![false, true]), Err(ScheduleError::OwnerMismatch)));
    assert!(matches!(schedule.update_plan(vec![stale.clone()]), Err(ScheduleError::StaleHandle)));
    assert!(matches!(schedule.update_plan(vec![startup]), Err(ScheduleError::StartupStageInPlan)));
    assert!(matches!(schedule.update_plan(vec![update.clone(), update.clone()]), Err(ScheduleError::DuplicateStageInPlan)));
    let foreign = StageId::new(ScheduleOwner::new(), 2);
    assert!(matches!(schedule.update_plan(vec![foreign, stale]), Err(ScheduleError::OwnerMismatch)));
    let plan = schedule.update_plan(vec![update]).expect("plan");
    assert_eq!(plan.stages(), &[2]);
}

#[test]
fn building_attaches_the_lease_and_locks_required_resources() {
    let mut store = store_with_score();
    store.insert(score(), "Score", Resource::Plain(1), ChangeTick::from_raw(1)).expect("insert");
    let mut builder: ScheduleBuilder<()> = ScheduleBuilder::standard();
    builder.add_system(System::new("reads", UPDATE, ()).requires_resource(score())).expect("system");
    let roles = no_roles(builder.system_count());
    let mut live = false;
    let schedule = builder.build_attached(false, RunGuard::Idle, false, &mut live, &mut store, &roles).expect("build");
    assert!(live);
    assert!(store.is_locked(score()));
    assert_eq!(schedule.compiled.required_resources, vec![score()]);
    let again: ScheduleBuilder<()> = ScheduleBuilder::standard();
    assert!(matches!(
        again.build_attached(false, RunGuard::Idle, false, &mut live, &mut store, &no_roles(0)),
        Err(BuildError::LiveLeaseAlreadyAttached)
    ));
}

#[test]
fn a_failed_build_attaches_nothing() {
    let mut store = store_with_score();
    let mut builder: ScheduleBuilder<()> = ScheduleBuilder::standard();
    builder.add_system(System::new("a", UPDATE, ()).after("b")).expect("a");
    builder.add_system(System::new("b", UPDATE, ()).after("a")).expect("b");
    let roles = no_roles(builder.system_count());
    let mut live = false;
    match builder.build_attached(false, RunGuard::Idle, false, &mut live, &mut store, &roles) {
        Err(BuildError::Cycle { path }) => assert_eq!(path, vec![String::from("a"), String::from("b")]),
        _ => panic!("expected a cycle"),
    }
    assert!(!live);
    assert!(!store.is_locked(score()));
    let later: ScheduleBuilder<()> = ScheduleBuilder::standard();
    assert!(later.build_attached(false, RunGuard::Idle, false, &mut live, &mut store, &no_roles(0)).is_ok());
}

#[test]
fn attaching_locks_each_listed_resource() {
    let mut store = store_with_score();
    let mut live = false;
    attach_execution_lease_with_locks(&mut live, &mut store, &vec![score(), score()]);
    assert!(live);
    assert!(store.is_locked(score()));
    assert!(!store.is_locked(mode()));
}

#[test]
fn fixed_configuration_succeeds_for_a_positive_interval_and_cap() {
    let config = FixedConfig::new(Duration::from_millis(10)).expect("config").with_max_substeps(2).expect("cap");
    assert_eq!(config.max_substeps(), 2);
    assert_eq!(config.delta(), Duration::from_millis(10));
}

#[test]
fn transition_hooks_require_their_state_resource_once() {
    let hook: System<u8> = on_transition::<u32, u8>("hook", UPDATE, 7);
    assert_eq!(hook.name(), "hook");
    assert_eq!(hook.stage_label(), UPDATE);
    assert_eq!(hook.required_resources(), &vec![TypeId::of::<State<u32>>()]);
    assert_eq!(hook.flush_mode_value(), FlushMode::Final);
    assert!(hook.enabled());
    assert!(hook.before_labels().is_empty() && hook.after_labels().is_empty());
    let (body, conditions) = hook.into_parts();
    assert_eq!(body, 7);
    assert_eq!(conditions.len(), 1);

    let entered: System<()> = on_enter::<bool, ()>("enter", RENDER, ());
    assert_eq!(entered.required_resources(), &vec![TypeId::of::<State<bool>>()]);
    assert_eq!(entered.stage_label(), RENDER);
}

#[test]
fn ordering_collection_reports_the_first_failure_in_declaration_order() {
    let sets: Vec<String> = vec!["known".to_owned()];
    let systems = vec![
        System::new("first", UPDATE, ()).after("missing_after").before("missing_before"),
        System::new("second", UPDATE, ()).before("absent"),
    ];
    assert!(matches!(
        collect_ordering_edges(&systems, &sets, &Vec::new()),
        Err(BuildError::UnknownSystem { label }) if label == "missing_before"
    ));

    let systems = vec![
        System::new("first", UPDATE, ()),
        System::new("second", RENDER, ()).after("first"),
        System::new("third", UPDATE, ()).before("unknown"),
    ];
    assert!(matches!(
        collect_ordering_edges(&systems, &sets, &Vec::new()),
        Err(BuildError::CrossStageSystemEdge { from, to }) if from == "first" && to == "second"
    ));

    let pairs = vec![("known".to_owned(), "later".to_owned()), ("earlier".to_owned(), "known".to_owned())];
    let systems = vec![System::new("first", UPDATE, ())];
    assert!(matches!(
        collect_ordering_edges(&systems, &sets, &pairs),
        Err(BuildError::UnknownSystemSet { label }) if label == "later"
    ));
}

#[test]
fn build_names_the_first_missing_resource_and_falls_back_for_unregistered_ones() {
    let store = store_with_score();
    let mut builder: ScheduleBuilder<()> = ScheduleBuilder::standard();
    builder.add_system(System::new("first", UPDATE, ()).requires_resource(TypeId::of::<Ping>())).expect("first");
    builder.add_system(System::new("second", UPDATE, ()).requires_resource(score())).expect("second");
    match build(builder, &ready_world(&store)) {
        Err(BuildError::MissingRequiredResource { name }) => assert_eq!(name, "<resource>"),
        _ => panic!("expected a missing resource"),
    }
}
