use lib::operation::StageOperation;
use lib::resource::store::ResourceStore;
use lib::schedule::builder::EventAccess;
use lib::schedule::compiled::{CompiledSchedule, CompiledStage, CompiledSystem};
use lib::schedule::condition::{Condition, Resource};
use lib::schedule::context::RunContext;
use lib::schedule::owner::ScheduleOwner;
use lib::schedule::runner::{evaluate_system_conditions, StageAction, StagePass, StagePhase, SystemReport};
use lib::schedule::stage::{StageDescriptor, STARTUP, UPDATE};
use lib::schedule::system::{FlushMode, SystemId, SystemSet};
use lib::time::FixedAccumulator;

type Unit = Resource<(), u8>;

fn system(name: &str, flush_mode: FlushMode, owner: &ScheduleOwner, index: u32) -> CompiledSystem<()> {
    CompiledSystem {
        name: String::from(name),
        stage_index: 0,
        body: (),
        enabled: true,
        flush_mode,
        in_set_index: None,
        conditions: Vec::new(),
        id: SystemId::new(owner.clone(), index, 1),
        event_access: EventAccess { emitted: Vec::new(), consumed: Vec::new() },
    }
}

fn schedule_with_systems(label: &str, stage_flush: FlushMode, systems: Vec<CompiledSystem<()>>) -> CompiledSchedule<()> {
    let owner = ScheduleOwner::new();
    let count = systems.len();
    CompiledSchedule {
        owner,
        generation: 1,
        stages: vec![CompiledStage {
            descriptor: StageDescriptor { label: String::from(label), operation: StageOperation::Update, flush_mode: stage_flush },
            system_order: (0..count).collect(),
        }],
        systems,
        update_stage_order: vec![0],
        render_stage_order: Vec::new(),
        fixed_config: None,
        fixed_accumulator: FixedAccumulator::new(),
        startup_complete: false,
        system_enabled: vec![true; count],
        set_conditions: Vec::new(),
        required_resources: Vec::new(),
    }
}

fn schedule_with_system(name: &str) -> CompiledSchedule<()> {
    let owner = ScheduleOwner::new();
    schedule_with_systems(UPDATE, FlushMode::Final, vec![system(name, FlushMode::Final, &owner, 0)])
}

fn ran_ok() -> SystemReport {
    SystemReport { begin_error: None, poisoned: false, result: Ok(()) }
}

fn fault_of(action: StageAction) -> (Option<String>, Option<String>, Option<String>) {
    match action {
        StageAction::Fault(outcome) => (outcome.fault_stage, outcome.fault_system, outcome.fault_detail),
        _ => panic!("expected a fault"),
    }
}

#[test]
fn run_stage_maps_begin_run_fault() {
    let store: ResourceStore<Unit> = ResourceStore::new();
    let mut schedule = schedule_with_system("noop");
    let mut context = RunContext::new();
    let (mut pass, action) = StagePass::begin(&schedule, 0, StageOperation::Update, &mut context);
    assert_eq!(action, StageAction::Continue);
    assert_eq!(pass.choose_next(&mut schedule, &store, &mut context), StageAction::RunSystem(0));
    let report = SystemReport { begin_error: Some(String::from("NestedRun")), poisoned: false, result: Ok(()) };
    let (stage, system, detail) = fault_of(pass.system_ran(&schedule, &store, &mut context, report));
    assert_eq!(stage.as_deref(), Some(UPDATE));
    assert_eq!(system.as_deref(), Some("noop"));
    assert!(detail.is_some());
    assert_eq!(pass.phase, StagePhase::Done);
}

#[test]
fn run_operation_propagates_stage_fault() {
    let store: ResourceStore<Unit> = ResourceStore::new();
    let mut schedule = schedule_with_system("noop");
    let mut context = RunContext::new();
    let mut faulted = false;
    for index in 0..schedule.operation_stages(StageOperation::Update).len() {
        let stage_index = schedule.operation_stages(StageOperation::Update)[index];
        let (mut pass, _) = StagePass::begin(&schedule, stage_index, StageOperation::Update, &mut context);
        if let StageAction::RunSystem(_) = pass.choose_next(&mut schedule, &store, &mut context) {
            let report = SystemReport { begin_error: Some(String::from("NestedRun")), poisoned: false, result: Ok(()) };
            if let StageAction::Fault(_) = pass.system_ran(&schedule, &store, &mut context, report) {
                faulted = true;
                break;
            }
        }
    }
    assert!(faulted);
}

#[test]
fn caught_component_tick_exhaustion_faults_after_system() {
    let store: ResourceStore<Unit> = ResourceStore::new();
    let mut schedule = schedule_with_system("component");
    let mut context = RunContext::new();
    let (mut pass, _) = StagePass::begin(&schedule, 0, StageOperation::Update, &mut context);
    assert_eq!(pass.choose_next(&mut schedule, &store, &mut context), StageAction::RunSystem(0));
    let report = SystemReport { begin_error: None, poisoned: true, result: Ok(()) };
    let (_, system, detail) = fault_of(pass.system_ran(&schedule, &store, &mut context, report));
    assert_eq!(system.as_deref(), Some("component"));
    assert_eq!(detail.as_deref(), Some("world mutation is poisoned"));
}

#[test]
fn caught_resource_tick_exhaustion_faults_after_system() {
    let store: ResourceStore<Unit> = ResourceStore::new();
    let mut schedule = schedule_with_system("resource");
    let mut context = RunContext::new();
    let (mut pass, _) = StagePass::begin(&schedule, 0, StageOperation::Update, &mut context);
    assert_eq!(pass.choose_next(&mut schedule, &store, &mut context), StageAction::RunSystem(0));
    let report = SystemReport { begin_error: None, poisoned: true, result: Err(String::from("ignored")) };
    let (_, system, _) = fault_of(pass.system_ran(&schedule, &store, &mut context, report));
    assert_eq!(system.as_deref(), Some("resource"));
}

#[test]
fn caught_query_tick_exhaustion_faults_after_system() {
    let store: ResourceStore<Unit> = ResourceStore::new();
    let mut schedule = schedule_with_system("query");
    let mut context = RunContext::new();
    let (mut pass, _) = StagePass::begin(&schedule, 0, StageOperation::Update, &mut context);
    assert_eq!(pass.choose_next(&mut schedule, &store, &mut context), StageAction::RunSystem(0));
    let report = SystemReport { begin_error: None, poisoned: true, result: Ok(()) };
    let (_, system, _) = fault_of(pass.system_ran(&schedule, &store, &mut context, report));
    assert_eq!(system.as_deref(), Some("query"));
}

#[test]
fn body_errors_are_reported_with_their_detail() {
    let store: ResourceStore<Unit> = ResourceStore::new();
    let mut schedule = schedule_with_system("work");
    let mut context = RunContext::new();
    let (mut pass, _) = StagePass::begin(&schedule, 0, StageOperation::Update, &mut context);
    pass.choose_next(&mut schedule, &store, &mut context);
    let report = SystemReport { begin_error: None, poisoned: false, result: Err(String::from("boom")) };
    let (stage, system, detail) = fault_of(pass.system_ran(&schedule, &store, &mut context, report));
    assert_eq!(stage.as_deref(), Some(UPDATE));
    assert_eq!(system.as_deref(), Some("work"));
    assert_eq!(detail.as_deref(), Some("boom"));
}

#[test]
fn a_full_pass_flushes_after_systems_and_at_the_end_of_the_stage() {
    let store: ResourceStore<Unit> = ResourceStore::new();
    let owner = ScheduleOwner::new();
    let mut schedule = schedule_with_systems(
        UPDATE,
        FlushMode::Stage,
        vec![system("first", FlushMode::AfterSystem, &owner, 0), system("second", FlushMode::Final, &owner, 1)],
    );
    let mut context = RunContext::new();
    let (mut pass, _) = StagePass::begin(&schedule, 0, StageOperation::Update, &mut context);
    assert_eq!(pass.choose_next(&mut schedule, &store, &mut context), StageAction::RunSystem(0));
    assert_eq!(pass.system_ran(&schedule, &store, &mut context, ran_ok()), StageAction::Flush);
    assert_eq!(pass.flushed(&mut schedule, &store, &mut context, Ok(())), StageAction::Continue);
    assert_eq!(pass.choose_next(&mut schedule, &store, &mut context), StageAction::RunSystem(1));
    assert_eq!(pass.system_ran(&schedule, &store, &mut context, ran_ok()), StageAction::Continue);
    assert_eq!(pass.choose_next(&mut schedule, &store, &mut context), StageAction::Flush);
    assert_eq!(pass.phase, StagePhase::StageFlush);
    let (stage, system, detail) = fault_of(pass.flushed(&mut schedule, &store, &mut context, Err(String::from("full"))));
    assert_eq!(stage.as_deref(), Some(UPDATE));
    assert_eq!(system.as_deref(), Some("<stage>"));
    assert_eq!(detail.as_deref(), Some("full"));
}

#[test]
fn disabled_and_refused_systems_are_passed_over() {
    let store: ResourceStore<Unit> = ResourceStore::new();
    let owner = ScheduleOwner::new();
    let mut refused = system("refused", FlushMode::Final, &owner, 1);
    refused.conditions.push(Condition::never());
    let mut schedule =
        schedule_with_systems(UPDATE, FlushMode::Final, vec![system("off", FlushMode::Final, &owner, 0), refused]);
    schedule.system_enabled[0] = false;
    let mut context = RunContext::new();
    let (mut pass, _) = StagePass::begin(&schedule, 0, StageOperation::Update, &mut context);
    assert_eq!(pass.choose_next(&mut schedule, &store, &mut context), StageAction::Continue);
    assert_eq!(pass.choose_next(&mut schedule, &store, &mut context), StageAction::Continue);
    assert_eq!(pass.choose_next(&mut schedule, &store, &mut context), StageAction::Finished);
    assert_eq!(pass.position, 2);
}

#[test]
fn startup_runs_once() {
    let store: ResourceStore<Unit> = ResourceStore::new();
    let mut schedule = schedule_with_systems(STARTUP, FlushMode::Final, Vec::new());
    let mut context = RunContext::new();
    let (mut pass, action) = StagePass::begin(&schedule, 0, StageOperation::Update, &mut context);
    assert_eq!(action, StageAction::Continue);
    assert_eq!(pass.choose_next(&mut schedule, &store, &mut context), StageAction::Finished);
    assert!(schedule.startup_complete);
    let (again, action) = StagePass::begin(&schedule, 0, StageOperation::Update, &mut context);
    assert_eq!(action, StageAction::Finished);
    assert_eq!(again.phase, StagePhase::Done);
}

#[test]
fn set_gates_are_evaluated_once_per_pass() {
    let store: ResourceStore<Unit> = ResourceStore::new();
    let owner = ScheduleOwner::new();
    let mut member = system("member", FlushMode::Final, &owner, 0);
    member.in_set_index = Some(0);
    let mut schedule = schedule_with_systems(UPDATE, FlushMode::Final, vec![member]);
    schedule.set_conditions.push(Condition::never());
    let mut context = RunContext::new();
    assert!(!evaluate_system_conditions(&schedule, 0, &store, &mut context));
    assert_eq!(context.set_gate_cached(0), Some(false));
    context.set_gate(0, true);
    assert!(evaluate_system_conditions(&schedule, 0, &store, &mut context));
    let _ = SystemSet::new("unused");
}
