//! Per-step replay records and captured report snapshots.
use vstd::prelude::*;

use crate::testkit::step::StepIndex;
use crate::time::WorldTick;

verus! {

/// Scalar metric sample for report comparison, its value held as the bits of an IEEE-754
/// double so that equality is bit-exact.
#[derive(Clone, Debug, PartialEq, Eq)]
pub struct MetricSample {
    key: String,
    value_bits: u64,
}

impl MetricSample {
    /// Metric identifier.
    pub closed spec fn spec_key(&self) -> Seq<char> {
        self.key@
    }

    /// Bits of the metric value.
    pub closed spec fn spec_bits(&self) -> u64 {
        self.value_bits
    }

    /// One scalar metric named `key` whose value has the bits `value_bits`.
    pub fn from_bits(key: &str, value_bits: u64) -> (r: MetricSample)
        ensures
            r.spec_key() == key@,
            r.spec_bits() == value_bits,
    {
        MetricSample { key: key.to_owned(), value_bits }
    }

    /// Metric identifier.
    pub fn key(&self) -> (r: &str)
        ensures
            r@ == self.spec_key(),
    {
        self.key.as_str()
    }

    /// Bits of the metric value.
    pub fn value_bits(&self) -> (r: u64)
        ensures
            r == self.spec_bits(),
    {
        self.value_bits
    }
}

/// One replay step before capture policy is applied.
#[derive(Clone, Debug)]
pub struct StepRecord<S> {
    step: StepIndex,
    world_tick: Option<WorldTick>,
    snapshot: S,
    metrics: Vec<MetricSample>,
}

/// Captured host snapshot for one replay step.
#[derive(Clone, Debug)]
pub struct StepSnapshot<S> {
    step: StepIndex,
    world_tick: Option<WorldTick>,
    snapshot: S,
    metrics: Vec<MetricSample>,
}

impl<S> StepRecord<S> {
    /// Step this record claims to represent.
    pub closed spec fn spec_step(&self) -> StepIndex {
        self.step
    }

    /// World tick observed after the step, when known.
    pub closed spec fn spec_world_tick(&self) -> Option<WorldTick> {
        self.world_tick
    }

    /// Host snapshot.
    pub closed spec fn spec_snapshot(&self) -> S {
        self.snapshot
    }

    /// Recorded metrics.
    pub closed spec fn spec_metrics(&self) -> Seq<MetricSample> {
        self.metrics@
    }

    /// One replay step record.
    pub fn new(step: StepIndex, world_tick: Option<WorldTick>, snapshot: S, metrics: Vec<MetricSample>) -> (r: StepRecord<S>)
        ensures
            r.spec_step() == step,
            r.spec_world_tick() == world_tick,
            r.spec_snapshot() == snapshot,
            r.spec_metrics() == metrics@,
    {
        StepRecord { step, world_tick, snapshot, metrics }
    }

    /// Step this record claims to represent.
    pub fn step(&self) -> (r: StepIndex)
        ensures
            r == self.spec_step(),
    {
        self.step
    }

    /// World tick observed after the step, when known.
    pub fn world_tick(&self) -> (r: Option<WorldTick>)
        ensures
            r == self.spec_world_tick(),
    {
        self.world_tick
    }

    /// Host snapshot for this step.
    pub fn snapshot(&self) -> (r: &S)
        ensures
            *r == self.spec_snapshot(),
    {
        &self.snapshot
    }

    /// Metrics recorded with this step.
    pub fn metrics(&self) -> (r: &[MetricSample])
        ensures
            r@ == self.spec_metrics(),
    {
        self.metrics.as_slice()
    }

    /// The record as report storage, every part kept.
    pub fn into_snapshot(self) -> (r: StepSnapshot<S>)
        ensures
            r.spec_step() == self.spec_step(),
            r.spec_world_tick() == self.spec_world_tick(),
            r.spec_snapshot() == self.spec_snapshot(),
            r.spec_metrics() == self.spec_metrics(),
    {
        StepSnapshot { step: self.step, world_tick: self.world_tick, snapshot: self.snapshot, metrics: self.metrics }
    }
}

impl<S> StepSnapshot<S> {
    /// Step of this captured evidence.
    pub closed spec fn spec_step(&self) -> StepIndex {
        self.step
    }

    /// World tick stored with the snapshot, when known.
    pub closed spec fn spec_world_tick(&self) -> Option<WorldTick> {
        self.world_tick
    }

    /// Host snapshot.
    pub closed spec fn spec_snapshot(&self) -> S {
        self.snapshot
    }

    /// Recorded metrics.
    pub closed spec fn spec_metrics(&self) -> Seq<MetricSample> {
        self.metrics@
    }

    /// Step of this captured evidence.
    pub fn step(&self) -> (r: StepIndex)
        ensures
            r == self.spec_step(),
    {
        self.step
    }

    /// World tick stored with the snapshot, when known.
    pub fn world_tick(&self) -> (r: Option<WorldTick>)
        ensures
            r == self.spec_world_tick(),
    {
        self.world_tick
    }

    /// Host snapshot retained in the report.
    pub fn snapshot(&self) -> (r: &S)
        ensures
            *r == self.spec_snapshot(),
    {
        &self.snapshot
    }

    /// Metrics retained with the snapshot.
    pub fn metrics(&self) -> (r: &[MetricSample])
        ensures
            r@ == self.spec_metrics(),
    {
        self.metrics.as_slice()
    }
}

} // verus!
