use lib::testkit::config::{CapturePolicy, ReplayConfig, ReplayConfigError};
use lib::testkit::driver::ReplayDriver;
use lib::testkit::error::ReplayRunError;
use lib::testkit::record::{MetricSample, StepRecord};
use lib::testkit::replay::{
    advance_replay_step, reports_match, run_replay, run_replay_loop, settle_replay_step, validate_record_step, ReplayProgress,
};
use lib::testkit::report::ReplayReport;
use lib::testkit::step::StepIndex;
use lib::time::WorldTick;

#[derive(Clone, Debug, Eq, PartialEq)]
struct Tick(u64);

struct CountingDriver {
    remaining: u32,
}

impl ReplayDriver for CountingDriver {
    type Snapshot = u32;
    type Error = ();

    fn step(&mut self, step: StepIndex) -> Result<StepRecord<Self::Snapshot>, Self::Error> {
        if self.remaining == 0 {
            return Err(());
        }
        self.remaining -= 1;
        Ok(StepRecord::new(step, None, step.raw(), Vec::new()))
    }
}

struct MismatchDriver;

impl ReplayDriver for MismatchDriver {
    type Snapshot = u8;
    type Error = ();

    fn step(&mut self, step: StepIndex) -> Result<StepRecord<Self::Snapshot>, Self::Error> {
        Ok(StepRecord::new(StepIndex::from_raw(step.raw().wrapping_add(1)), None, 1, Vec::new()))
    }
}

#[test]
fn accessors_and_capture_policy_round_trip() {
    let every = ReplayConfig::new(7, 3, CapturePolicy::EveryStep).expect("every");
    assert_eq!(every.seed(), 7);
    assert_eq!(every.steps(), 3);
    assert_eq!(every.capture(), CapturePolicy::EveryStep);
    assert!(every.should_capture(false));

    let final_only = ReplayConfig::new(8, 2, CapturePolicy::FinalOnly).expect("final");
    assert!(!final_only.should_capture(false));
    assert!(final_only.should_capture(true));
}

#[test]
fn zero_steps_are_rejected() {
    assert!(matches!(ReplayConfig::new(1, 0, CapturePolicy::EveryStep), Err(ReplayConfigError::ZeroSteps)));
}

#[test]
fn record_accessors_preserve_snapshot_and_metrics() {
    let step = StepIndex::from_raw(2);
    let tick = WorldTick::zero();
    let record = StepRecord::new(step, Some(tick), 11_u32, vec![MetricSample::from_bits("work", 1.5f64.to_bits())]);
    assert_eq!(record.step(), step);
    assert_eq!(record.world_tick(), Some(tick));
    assert_eq!(record.snapshot(), &11);
    assert_eq!(record.metrics()[0].key(), "work");
    assert_eq!(f64::from_bits(record.metrics()[0].value_bits()), 1.5);

    let snapshot = record.into_snapshot();
    assert_eq!(snapshot.step(), step);
    assert_eq!(snapshot.world_tick(), Some(tick));
    assert_eq!(snapshot.snapshot(), &11);
    assert_eq!(snapshot.metrics().len(), 1);
}

#[test]
fn advance_replay_step_overflow_maps_step_overflow() {
    let step = StepIndex::from_raw(u32::MAX);
    assert!(matches!(advance_replay_step::<()>(step), Err(ReplayRunError::StepOverflow)));
    assert_eq!(advance_replay_step::<()>(StepIndex::from_raw(4)).expect("next").raw(), 5);
}

#[test]
fn run_replay_returns_partial_report_on_step_overflow() {
    let config = ReplayConfig::new(7, 2, CapturePolicy::EveryStep).expect("config");
    let mut driver = CountingDriver { remaining: 2 };
    let failure = run_replay_loop(config, &mut driver, StepIndex::from_raw(u32::MAX)).expect_err("overflow");
    assert!(matches!(failure.source(), &ReplayRunError::StepOverflow));
    assert_eq!(failure.step().raw(), u32::MAX);
    assert_eq!(failure.partial_report().step_snapshots().len(), 1);
}

#[test]
fn run_replay_returns_partial_report_when_driver_fails() {
    let config = ReplayConfig::new(3, 4, CapturePolicy::EveryStep).expect("config");
    let failure = run_replay(config, |_| CountingDriver { remaining: 1 }).expect_err("fail");
    assert!(matches!(failure.source(), &ReplayRunError::Source(())));
    assert_eq!(failure.partial_report().step_snapshots().len(), 1);
}

#[test]
fn run_replay_rejects_mismatched_step_record() {
    let config = ReplayConfig::new(1, 2, CapturePolicy::EveryStep).expect("config");
    let failure = run_replay(config, |_| MismatchDriver).expect_err("mismatch");
    assert!(matches!(
        failure.source(),
        ReplayRunError::StepMismatch { reported, expected } if reported.raw() == 1 && expected.raw() == 0
    ));
    assert_eq!(failure.partial_report().step_snapshots().len(), 0);
}

#[test]
fn replay_report_snapshots_iterates_captured_snapshots() {
    let config = ReplayConfig::new(3, 2, CapturePolicy::EveryStep).expect("config");
    let report = run_replay(config, |_| CountingDriver { remaining: 2 }).expect("replay");
    let snapshots: Vec<u32> = report.snapshots().into_iter().copied().collect();
    assert_eq!(snapshots, vec![0, 1]);
}

#[test]
fn final_only_skips_intermediate_records() {
    let config = ReplayConfig::new(3, 3, CapturePolicy::FinalOnly).expect("config");
    let report = run_replay(config, |_| CountingDriver { remaining: 3 }).expect("replay");

    assert_eq!(report.step_snapshots().len(), 1);
    assert_eq!(report.snapshots().into_iter().copied().collect::<Vec<_>>(), vec![2]);
}

#[test]
fn record_step_validation_reports_mismatch_with_partial_report() {
    let config = ReplayConfig::new(2, 1, CapturePolicy::EveryStep).expect("config");
    let report = ReplayReport::new(config);
    let expected = StepIndex::first();
    let reported = StepIndex::from_raw(1);
    let record = StepRecord::new(reported, None, Tick(0), Vec::new());
    let failure = validate_record_step::<Tick, ()>(expected, report, record).expect_err("mismatch");
    assert!(matches!(
        failure.source(),
        ReplayRunError::StepMismatch { reported: actual, expected: wanted } if *actual == reported && *wanted == expected
    ));
}

#[test]
fn record_step_validation_accepts_the_expected_step() {
    let config = ReplayConfig::new(2, 1, CapturePolicy::EveryStep).expect("config");
    let report = ReplayReport::new(config);
    let record = StepRecord::new(StepIndex::first(), None, Tick(4), Vec::new());
    let (report, record) = validate_record_step::<Tick, ()>(StepIndex::first(), report, record).expect("accepted");
    assert_eq!(record.snapshot(), &Tick(4));
    assert_eq!(report.seed(), 2);
}

#[test]
fn identical_runs_produce_matching_reports() {
    let config = ReplayConfig::new(5, 3, CapturePolicy::EveryStep).expect("config");
    let first = run_replay(config.clone(), |_| CountingDriver { remaining: 3 }).expect("first");
    let second = run_replay(config, |_| CountingDriver { remaining: 3 }).expect("second");
    assert!(reports_match(&first, &second));
    let shorter = run_replay(ReplayConfig::new(5, 2, CapturePolicy::EveryStep).expect("config"), |_| CountingDriver {
        remaining: 2,
    })
    .expect("shorter");
    assert!(!reports_match(&first, &shorter));
}

#[test]
fn settling_a_step_follows_the_driver_answer() {
    let config = ReplayConfig::new(5, 2, CapturePolicy::EveryStep).expect("config");
    let first = StepIndex::first();

    let failed = settle_replay_step::<u32, &str>(config, ReplayReport::new(config), first, Err("down"));
    match failed {
        Err(f) => {
            assert_eq!(f.step(), first);
            assert!(matches!(f.source(), ReplayRunError::Source(s) if *s == "down"));
            assert!(f.partial_report().snapshots().is_empty());
        },
        Ok(_) => panic!("a driver failure ends the run"),
    }

    let wrong = StepRecord::new(StepIndex::from_raw(9), None, 1u32, Vec::new());
    match settle_replay_step::<u32, ()>(config, ReplayReport::new(config), first, Ok(wrong)) {
        Err(f) => assert!(matches!(
            f.source(),
            ReplayRunError::StepMismatch { reported, expected } if reported.raw() == 9 && *expected == first
        )),
        Ok(_) => panic!("a record for another step ends the run"),
    }

    let record = StepRecord::new(first, None, 10u32, Vec::new());
    let report = match settle_replay_step::<u32, ()>(config, ReplayReport::new(config), first, Ok(record)) {
        Ok(ReplayProgress::Continue(report, next)) => {
            assert_eq!(next.raw(), 1);
            report
        },
        _ => panic!("the run goes on after the first of two steps"),
    };
    assert_eq!(report.snapshots(), vec![&10]);

    let record = StepRecord::new(StepIndex::from_raw(1), None, 11u32, Vec::new());
    match settle_replay_step::<u32, ()>(config, report, StepIndex::from_raw(1), Ok(record)) {
        Ok(ReplayProgress::Finished(done)) => assert_eq!(done.snapshots(), vec![&10, &11]),
        _ => panic!("the second of two steps is the last"),
    }

    let record = StepRecord::new(StepIndex::from_raw(u32::MAX), None, 12u32, Vec::new());
    let long = ReplayConfig::new(5, u32::MAX, CapturePolicy::FinalOnly).expect("config");
    match settle_replay_step::<u32, ()>(long, ReplayReport::new(long), StepIndex::from_raw(u32::MAX), Ok(record)) {
        Err(f) => {
            assert!(matches!(f.source(), ReplayRunError::StepOverflow));
            assert!(f.partial_report().snapshots().is_empty());
        },
        Ok(_) => panic!("no step follows the largest one"),
    }
}
