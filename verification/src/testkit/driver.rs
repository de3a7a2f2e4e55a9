//! Host-owned replay driver contract.
use vstd::prelude::*;

use crate::testkit::record::StepRecord;
use crate::testkit::step::StepIndex;

verus! {

/// Host fixture that advances deterministic replay one checked step at a time.
pub trait ReplayDriver {
    /// Exact snapshot type the fixture records for report comparison.
    type Snapshot: Eq;
    /// Error returned when the fixture cannot complete the requested step.
    type Error;

    /// Advance one replay step and return a record that should carry the same `step`.
    fn step(&mut self, step: StepIndex) -> Result<StepRecord<Self::Snapshot>, Self::Error>;
}

} // verus!
