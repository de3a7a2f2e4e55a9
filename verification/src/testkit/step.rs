//! Checked replay step indexing for finite deterministic runs.
use vstd::prelude::*;

verus! {

/// Opaque checked replay step index. The first step is always zero.
#[derive(Copy, Clone, Debug, Eq, PartialEq, Ord, PartialOrd, Hash, Structural)]
pub struct StepIndex(u32);

/// Checked replay step index overflow.
#[derive(Copy, Clone, Debug, Eq, PartialEq)]
pub struct StepIndexError;

impl View for StepIndex {
    type V = u32;

    closed spec fn view(&self) -> u32 {
        self.0
    }
}

impl StepIndex {
    /// Two values with the same view are the same value.
    pub broadcast proof fn lemma_view_injective(a: StepIndex, b: StepIndex)
        ensures
            #[trigger] a@ == #[trigger] b@ ==> a == b,
    {
    }
}

impl StepIndex {
    /// First replay step in every finite run.
    pub fn first() -> (r: StepIndex)
        ensures
            r@ == 0,
    {
        StepIndex(0)
    }

    /// Underlying step counter.
    pub fn raw(self) -> (r: u32)
        ensures
            r == self@,
    {
        self.0
    }

    /// The next step, or [`StepIndexError`] when the counter would overflow.
    pub fn next(self) -> (r: Result<StepIndex, StepIndexError>)
        ensures
            self@ < u32::MAX ==> (r matches Ok(n) && n@ == self@ + 1),
            self@ == u32::MAX ==> r is Err,
    {
        match self.0.checked_add(1) {
            Some(next) => Ok(StepIndex(next)),
            None => Err(StepIndexError),
        }
    }

    /// Step index from a host-provided raw value, for drivers that resume from persisted
    /// evidence.
    pub fn from_raw(raw: u32) -> (r: StepIndex)
        ensures
            r@ == raw,
    {
        StepIndex(raw)
    }
}

} // verus!
