//! Completed replay evidence and partial failure reports.
use vstd::prelude::*;

use crate::testkit::config::ReplayConfig;
use crate::testkit::record::{StepRecord, StepSnapshot};
use crate::testkit::step::StepIndex;

verus! {

/// Completed replay evidence for a finite run.
#[derive(Clone, Debug)]
pub struct ReplayReport<S> {
    seed: u64,
    config: ReplayConfig,
    steps: Vec<StepSnapshot<S>>,
}

/// Failed replay step with partial evidence retained.
#[derive(Clone, Debug)]
pub struct ReplayFailure<E, S> {
    step: StepIndex,
    partial_report: ReplayReport<S>,
    source: E,
}

/// Raw step indices of captured snapshots.
pub open spec fn snapshot_steps<S>(steps: Seq<StepSnapshot<S>>) -> Seq<u32> {
    steps.map_values(|s: StepSnapshot<S>| s.spec_step()@)
}

impl<S> ReplayReport<S> {
    /// Seed of the run.
    pub closed spec fn spec_seed(&self) -> u64 {
        self.seed
    }

    /// Policy of the run.
    pub closed spec fn spec_config(&self) -> ReplayConfig {
        self.config
    }

    /// Captured snapshots, in step order.
    pub closed spec fn spec_steps(&self) -> Seq<StepSnapshot<S>> {
        self.steps@
    }

    /// An empty report for a run under `config`.
    pub fn new(config: ReplayConfig) -> (r: ReplayReport<S>)
        ensures
            r.spec_seed() == config.spec_seed(),
            r.spec_config() == config,
            r.spec_steps() == Seq::<StepSnapshot<S>>::empty(),
    {
        ReplayReport { seed: config.seed(), config, steps: Vec::new() }
    }

    /// Appends a captured record.
    pub fn push_record(&mut self, record: StepRecord<S>)
        ensures
            final(self).spec_seed() == old(self).spec_seed(),
            final(self).spec_config() == old(self).spec_config(),
            final(self).spec_steps().len() == old(self).spec_steps().len() + 1,
            final(self).spec_steps().drop_last() == old(self).spec_steps(),
            final(self).spec_steps().last().spec_step() == record.spec_step(),
            final(self).spec_steps().last().spec_world_tick() == record.spec_world_tick(),
            final(self).spec_steps().last().spec_snapshot() == record.spec_snapshot(),
            final(self).spec_steps().last().spec_metrics() == record.spec_metrics(),
    {
        self.steps.push(record.into_snapshot());
        proof {
            assert(self.steps@.drop_last() =~= old(self).steps@);
        }
    }

    /// Seed from the replay config used for this run.
    pub fn seed(&self) -> (r: u64)
        ensures
            r == self.spec_seed(),
    {
        self.seed
    }

    /// Replay policy that governed capture and step count.
    pub fn config(&self) -> (r: &ReplayConfig)
        ensures
            *r == self.spec_config(),
    {
        &self.config
    }

    /// Captured step records after capture filtering.
    pub fn step_snapshots(&self) -> (r: &[StepSnapshot<S>])
        ensures
            r@ == self.spec_steps(),
    {
        self.steps.as_slice()
    }

    /// Host snapshots across captured steps, in order.
    pub fn snapshots(&self) -> (r: Vec<&S>)
        ensures
            r@.len() == self.spec_steps().len(),
            forall|i: int| 0 <= i < r@.len() ==> *r@[i] == self.spec_steps()[i].spec_snapshot(),
    {
        let mut out: Vec<&S> = Vec::new();
        let mut i: usize = 0;
        while i < self.steps.len()
            invariant
                i <= self.steps@.len(),
                out@.len() == i,
                forall|j: int| 0 <= j < i ==> *out@[j] == self.steps@[j].spec_snapshot(),
            decreases self.steps@.len() - i,
        {
            out.push(self.steps[i].snapshot());
            i = i + 1;
        }
        out
    }
}

impl<E, S> ReplayFailure<E, S> {
    /// Step where the run failed.
    pub closed spec fn spec_step(&self) -> StepIndex {
        self.step
    }

    /// Evidence captured before the failure.
    pub closed spec fn spec_partial(&self) -> ReplayReport<S> {
        self.partial_report
    }

    /// Failure source.
    pub closed spec fn spec_source(&self) -> E {
        self.source
    }

    /// A failure at `step` with the evidence captured before it.
    pub fn new(step: StepIndex, partial_report: ReplayReport<S>, source: E) -> (r: ReplayFailure<E, S>)
        ensures
            r.spec_step() == step,
            r.spec_partial() == partial_report,
            r.spec_source() == source,
    {
        ReplayFailure { step, partial_report, source }
    }

    /// Step where the run failed.
    pub fn step(&self) -> (r: StepIndex)
        ensures
            r == self.spec_step(),
    {
        self.step
    }

    /// Evidence captured before the failure.
    pub fn partial_report(&self) -> (r: &ReplayReport<S>)
        ensures
            *r == self.spec_partial(),
    {
        &self.partial_report
    }

    /// Failure source at the failing step.
    pub fn source(&self) -> (r: &E)
        ensures
            *r == self.spec_source(),
    {
        &self.source
    }
}

} // verus!
