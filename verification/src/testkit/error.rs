//! Replay run failure sources shared by app and driver paths.
use vstd::prelude::*;

use crate::testkit::step::StepIndex;

verus! {

/// Unified replay failure source for driver errors and checked step overflow.
#[derive(Clone, Debug, Eq, PartialEq)]
#[non_exhaustive]
pub enum ReplayRunError<E> {
    /// Underlying host or driver error from the current replay step.
    Source(E),
    /// Step counter overflow while advancing the replay loop.
    StepOverflow,
    /// Driver returned evidence for a different step than requested.
    StepMismatch { reported: StepIndex, expected: StepIndex },
}

} // verus!
