//! Finite replay loops over a host driver, and exact report comparison.
use vstd::prelude::*;

use crate::testkit::config::{CapturePolicy, ReplayConfig};
use crate::testkit::driver::ReplayDriver;
use crate::testkit::error::ReplayRunError;
use crate::testkit::record::{MetricSample, StepRecord, StepSnapshot};
use crate::testkit::report::{snapshot_steps, ReplayFailure, ReplayReport};
use crate::testkit::step::StepIndex;

verus! {

/// Final step of a run that starts at `start`.
pub open spec fn final_step(start: u32, steps: u32) -> int {
    if start + 1 >= steps {
        start as int
    } else {
        steps - 1
    }
}

/// Consecutive raw steps from `start`, `count` of them.
pub open spec fn step_run(start: u32, count: int) -> Seq<u32> {
    Seq::new(count as nat, |j: int| (start + j) as u32)
}

/// The outcome of a replay from `start` under `config`, whatever the driver answered:
/// which steps a report holds, and how and where a run can fail.
pub open spec fn replay_outcome<S, E>(
    config: ReplayConfig,
    start: u32,
    r: Result<ReplayReport<S>, ReplayFailure<ReplayRunError<E>, S>>,
) -> bool {
    let every = config.spec_capture() == CapturePolicy::EveryStep;
    match r {
        Ok(report) => {
            &&& start < u32::MAX
            &&& report.spec_seed() == config.spec_seed()
            &&& report.spec_config() == config
            &&& every ==> snapshot_steps(report.spec_steps()) == step_run(
                start,
                final_step(start, config.spec_steps()) - start + 1,
            )
            &&& !every ==> snapshot_steps(report.spec_steps()) == seq![final_step(start, config.spec_steps()) as u32]
        },
        Err(failure) => {
            let at = failure.spec_step()@;
            let overflow = failure.spec_source() is StepOverflow;
            &&& failure.spec_partial().spec_seed() == config.spec_seed()
            &&& failure.spec_partial().spec_config() == config
            &&& start <= at
            &&& start < u32::MAX ==> at <= final_step(start, config.spec_steps())
            &&& start == u32::MAX ==> at == u32::MAX
            &&& match failure.spec_source() {
                ReplayRunError::Source(_) => true,
                ReplayRunError::StepMismatch { reported, expected } => expected == failure.spec_step() && reported
                    != expected,
                ReplayRunError::StepOverflow => at == u32::MAX,
            }
            &&& every ==> snapshot_steps(failure.spec_partial().spec_steps()) == step_run(
                start,
                at - start + if overflow {
                    1int
                } else {
                    0int
                },
            )
            &&& !every ==> failure.spec_partial().spec_steps().len() == 0
        },
    }
}

/// The step after `step`, or a step overflow.
pub fn advance_replay_step<E>(step: StepIndex) -> (r: Result<StepIndex, ReplayRunError<E>>)
    ensures
        step@ < u32::MAX ==> (r matches Ok(n) && n@ == step@ + 1),
        step@ == u32::MAX ==> (r matches Err(e) && e is StepOverflow),
{
    match step.next() {
        Ok(next) => Ok(next),
        Err(_) => Err(ReplayRunError::StepOverflow),
    }
}

/// Accepts `record` when it was captured for `expected`; otherwise fails at `expected` with a
/// step mismatch, handing `report` back as the evidence captured so far.
pub fn validate_record_step<S, E>(
    expected: StepIndex,
    report: ReplayReport<S>,
    record: StepRecord<S>,
) -> (r: Result<(ReplayReport<S>, StepRecord<S>), ReplayFailure<ReplayRunError<E>, S>>)
    ensures
        record.spec_step() == expected ==> r == Ok::<(ReplayReport<S>, StepRecord<S>), ReplayFailure<ReplayRunError<E>, S>>(
            (report, record),
        ),
        record.spec_step() != expected ==> (r matches Err(f) && f.spec_step() == expected && f.spec_partial() == report
            && f.spec_source() == ReplayRunError::<E>::StepMismatch { reported: record.spec_step(), expected }),
{
    if record.step() == expected {
        Ok((report, record))
    } else {
        let reported = record.step();
        Err(ReplayFailure::new(expected, report, ReplayRunError::StepMismatch { reported, expected }))
    }
}

/// How a replay goes on after one step the driver answered.
pub enum ReplayProgress<S> {
    /// The run goes on at the given step with the report so far.
    Continue(ReplayReport<S>, StepIndex),
    /// The last configured step was recorded; the report is complete.
    Finished(ReplayReport<S>),
}

/// `step` is the last step of a run of `steps` steps.
pub open spec fn is_final_step(step: u32, steps: u32) -> bool {
    step < u32::MAX && step + 1 >= steps
}

/// `after` is `before` with `record` appended when `capture`, and `before` itself otherwise.
pub open spec fn recorded<S>(before: ReplayReport<S>, after: ReplayReport<S>, record: StepRecord<S>, capture: bool) -> bool {
    &&& after.spec_seed() == before.spec_seed()
    &&& after.spec_config() == before.spec_config()
    &&& if capture {
        &&& after.spec_steps().len() == before.spec_steps().len() + 1
        &&& after.spec_steps().drop_last() == before.spec_steps()
        &&& after.spec_steps().last().spec_step() == record.spec_step()
        &&& after.spec_steps().last().spec_world_tick() == record.spec_world_tick()
        &&& after.spec_steps().last().spec_snapshot() == record.spec_snapshot()
        &&& after.spec_steps().last().spec_metrics() == record.spec_metrics()
    } else {
        after.spec_steps() == before.spec_steps()
    }
}

/// Settles one step of a replay under `config` from the driver's `answer` for `step`,
/// with `report` the evidence captured before it. A driver failure fails at `step` with
/// that source; a record for another step fails with a step mismatch; otherwise the record
/// is kept as the policy says, and the run finishes at the last step, goes on at the next
/// one, or fails with a step overflow when there is none.
pub fn settle_replay_step<S, E>(
    config: ReplayConfig,
    report: ReplayReport<S>,
    step: StepIndex,
    answer: Result<StepRecord<S>, E>,
) -> (r: Result<ReplayProgress<S>, ReplayFailure<ReplayRunError<E>, S>>)
    ensures
        match answer {
            Err(source) => r matches Err(f) && f.spec_step() == step && f.spec_partial() == report && f.spec_source()
                == ReplayRunError::<E>::Source(source),
            Ok(record) => if record.spec_step() != step {
                r matches Err(f) && f.spec_step() == step && f.spec_partial() == report && f.spec_source()
                    == ReplayRunError::<E>::StepMismatch { reported: record.spec_step(), expected: step }
            } else if is_final_step(step@, config.spec_steps()) {
                r matches Ok(ReplayProgress::Finished(done)) && recorded(report, done, record, config.captures(true))
            } else if step@ < u32::MAX {
                r matches Ok(ReplayProgress::Continue(next_report, next)) && next@ == step@ + 1 && recorded(
                    report,
                    next_report,
                    record,
                    config.captures(false),
                )
            } else {
                r matches Err(f) && f.spec_step() == step && recorded(report, f.spec_partial(), record, config.captures(false))
                    && f.spec_source() is StepOverflow
            },
        },
{
    let record = match answer {
        Ok(record) => record,
        Err(source) => {
            return Err(ReplayFailure::new(step, report, ReplayRunError::Source(source)));
        },
    };
    if record.step() != step {
        let reported = record.step();
        return Err(ReplayFailure::new(step, report, ReplayRunError::StepMismatch { reported, expected: step }));
    }
    let raw = step.raw();
    let is_last = if raw == u32::MAX {
        false
    } else {
        raw + 1 >= config.steps()
    };
    let mut report = report;
    if config.should_capture(is_last) {
        report.push_record(record);
    }
    if is_last {
        return Ok(ReplayProgress::Finished(report));
    }
    match advance_replay_step(step) {
        Ok(next) => Ok(ReplayProgress::Continue(report, next)),
        Err(source) => Err(ReplayFailure::new(step, report, source)),
    }
}

/// Runs `driver` from `start` until the last configured step, settling each of its answers
/// with [`settle_replay_step`]. A driver failure, a record for another step, or a step
/// overflow ends the run with the evidence captured so far.
pub fn run_replay_loop<S: Eq, D: ReplayDriver<Snapshot = S>>(
    config: ReplayConfig,
    driver: &mut D,
    start: StepIndex,
) -> (r: Result<ReplayReport<S>, ReplayFailure<ReplayRunError<D::Error>, S>>)
    ensures
        replay_outcome(config, start@, r),
{
    let positive = config.steps();
    let ghost every = config.spec_capture() == CapturePolicy::EveryStep;
    let ghost last = final_step(start@, config.spec_steps());
    let mut report: ReplayReport<S> = ReplayReport::new(config);
    let mut step = start;
    proof {
        assert(snapshot_steps(report.spec_steps()) =~= step_run(start@, 0));
    }
    loop
        invariant
            config.spec_steps() > 0,
            every == (config.spec_capture() == CapturePolicy::EveryStep),
            last == final_step(start@, config.spec_steps()),
            report.spec_seed() == config.spec_seed(),
            report.spec_config() == config,
            start@ <= step@,
            start@ < u32::MAX ==> step@ <= last,
            start@ == u32::MAX ==> step@ == u32::MAX,
            every ==> snapshot_steps(report.spec_steps()) == step_run(start@, step@ - start@),
            !every ==> report.spec_steps().len() == 0,
        decreases u32::MAX - step@,
    {
        let answer = driver.step(step);
        let ghost before = report;
        let settled = settle_replay_step(config, report, step, answer);
        proof {
            if answer is Ok && answer->Ok_0.spec_step() == step {
                let rec = answer->Ok_0;
                assert forall|after: ReplayReport<S>, capture: bool| recorded(before, after, rec, capture) && every && capture implies
                    snapshot_steps(after.spec_steps()) == step_run(start@, step@ - start@ + 1) by {
                    let now = snapshot_steps(after.spec_steps());
                    let want = step_run(start@, step@ - start@ + 1);
                    assert(now.len() == want.len());
                    assert forall|j: int| 0 <= j < now.len() implies now[j] == want[j] by {
                        if j < now.len() - 1 {
                            assert(after.spec_steps().drop_last()[j] == before.spec_steps()[j]);
                            assert(after.spec_steps()[j] == before.spec_steps()[j]);
                            assert(snapshot_steps(before.spec_steps())[j] == (start@ + j) as u32);
                        } else {
                            assert(after.spec_steps()[j] == after.spec_steps().last());
                        }
                    }
                    assert(now =~= want);
                }
            }
        }
        match settled {
            Ok(ReplayProgress::Continue(next_report, next)) => {
                report = next_report;
                step = next;
            },
            Ok(ReplayProgress::Finished(done)) => {
                proof {
                    if !every {
                        assert(snapshot_steps(done.spec_steps()) =~= seq![last as u32]);
                    }
                }
                return Ok(done);
            },
            Err(failure) => {
                return Err(failure);
            },
        }
    }
}

/// Runs a driver built by `factory` from the config's seed, from the first step.
pub fn run_replay<S: Eq, D: ReplayDriver<Snapshot = S>, F: FnOnce(u64) -> D>(
    config: ReplayConfig,
    factory: F,
) -> (r: Result<ReplayReport<S>, ReplayFailure<ReplayRunError<D::Error>, S>>)
    requires
        factory.requires((config.spec_seed(),)),
    ensures
        replay_outcome(config, 0, r),
{
    let mut driver = factory(config.seed());
    run_replay_loop(config, &mut driver, StepIndex::first())
}

/// Metric lists are pairwise equal by key and value bits.
pub open spec fn metrics_equal(left: Seq<MetricSample>, right: Seq<MetricSample>) -> bool {
    &&& left.len() == right.len()
    &&& forall|i: int|
        0 <= i < left.len() ==> (#[trigger] left[i]).spec_key() == right[i].spec_key() && left[i].spec_bits()
            == right[i].spec_bits()
}

/// Captured steps agree in everything but their host snapshots.
pub open spec fn steps_agree<S>(left: StepSnapshot<S>, right: StepSnapshot<S>) -> bool {
    &&& left.spec_step() == right.spec_step()
    &&& match (left.spec_world_tick(), right.spec_world_tick()) {
        (Some(a), Some(b)) => a@ == b@,
        (None, None) => true,
        _ => false,
    }
    &&& metrics_equal(left.spec_metrics(), right.spec_metrics())
}

/// Reports agree in seed, policy and every captured step but their host snapshots.
pub open spec fn reports_agree<S>(left: ReplayReport<S>, right: ReplayReport<S>) -> bool {
    &&& left.spec_seed() == right.spec_seed()
    &&& left.spec_config() == right.spec_config()
    &&& left.spec_steps().len() == right.spec_steps().len()
    &&& forall|i: int| 0 <= i < left.spec_steps().len() ==> steps_agree(#[trigger] left.spec_steps()[i], right.spec_steps()[i])
}

/// Reports are equal: they agree, and every captured host snapshot is equal.
pub open spec fn reports_equal<S>(left: ReplayReport<S>, right: ReplayReport<S>) -> bool {
    &&& reports_agree(left, right)
    &&& forall|i: int|
        0 <= i < left.spec_steps().len() ==> (#[trigger] left.spec_steps()[i]).spec_snapshot() == right.spec_steps()[i].spec_snapshot()
}

/// Bit-exact comparison of metric lists.
pub fn metrics_match(left: &[MetricSample], right: &[MetricSample]) -> (r: bool)
    ensures
        r == metrics_equal(left@, right@),
{
    if left.len() != right.len() {
        return false;
    }
    let mut i: usize = 0;
    while i < left.len()
        invariant
            left@.len() == right@.len(),
            i <= left@.len(),
            forall|j: int| 0 <= j < i ==> (#[trigger] left@[j]).spec_key() == right@[j].spec_key() && left@[j].spec_bits()
                == right@[j].spec_bits(),
        decreases left@.len() - i,
    {
        let same_key = crate::text::same_text(left[i].key(), right[i].key());
        if !same_key || left[i].value_bits() != right[i].value_bits() {
            return false;
        }
        i = i + 1;
    }
    true
}

/// Compares two replay reports for exact equality: seeds, policies, and every captured
/// step's index, world tick, metrics and host snapshot. Snapshots are compared with `S`'s
/// `==`; where that is equality, the answer is [`reports_equal`].
pub fn reports_match<S: Eq>(left: &ReplayReport<S>, right: &ReplayReport<S>) -> (r: bool)
    ensures
        r ==> reports_agree(*left, *right),
        !reports_agree(*left, *right) ==> !r,
        vstd::laws_eq::obeys_concrete_eq::<S>() ==> r == reports_equal(*left, *right),
{
    proof {
        reveal(vstd::laws_eq::obeys_concrete_eq);
    }
    if left.seed() != right.seed() || *left.config() != *right.config() {
        return false;
    }
    let ls = left.step_snapshots();
    let rs = right.step_snapshots();
    if ls.len() != rs.len() {
        return false;
    }
    let mut i: usize = 0;
    while i < ls.len()
        invariant
            ls@ == left.spec_steps(),
            rs@ == right.spec_steps(),
            ls@.len() == rs@.len(),
            i <= ls@.len(),
            forall|j: int| 0 <= j < i ==> steps_agree(#[trigger] ls@[j], rs@[j]),
            vstd::laws_eq::obeys_concrete_eq::<S>() ==> forall|j: int| 0 <= j < i ==> (#[trigger] ls@[j]).spec_snapshot() == rs@[j].spec_snapshot(),
        decreases ls@.len() - i,
    {
        proof {
            reveal(vstd::laws_eq::obeys_concrete_eq);
        }
        let a = &ls[i];
        let b = &rs[i];
        if a.step() != b.step() {
            return false;
        }
        let ticks_equal = match (a.world_tick(), b.world_tick()) {
            (Some(x), Some(y)) => x.raw() == y.raw(),
            (None, None) => true,
            _ => false,
        };
        if !ticks_equal {
            return false;
        }
        if !metrics_match(a.metrics(), b.metrics()) {
            return false;
        }
        if !(*a.snapshot() == *b.snapshot()) {
            return false;
        }
        i = i + 1;
    }
    true
}

/// Equal reports match themselves: comparing a report with itself says they are equal.
pub proof fn law_report_matches_itself<S>(report: ReplayReport<S>)
    ensures
        reports_equal(report, report),
{
}

} // verus!
