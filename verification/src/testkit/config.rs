//! Finite replay run policy and per-step record capture selection.
use vstd::prelude::*;

verus! {

/// When replay step records are retained in the final report.
#[derive(Copy, Clone, Debug, Eq, PartialEq, Structural)]
#[non_exhaustive]
pub enum CapturePolicy {
    /// Capture after every successful step.
    EveryStep,
    /// Capture only after the final configured step.
    FinalOnly,
}

/// Finite replay run policy.
#[derive(Clone, Copy, Debug, Eq, PartialEq, Structural)]
pub struct ReplayConfig {
    seed: u64,
    steps: u32,
    capture: CapturePolicy,
}

/// Invalid [`ReplayConfig`] for a finite replay run.
#[non_exhaustive]
#[derive(Clone, Debug, Eq, PartialEq)]
pub enum ReplayConfigError {
    /// Replay cannot run with zero steps.
    ZeroSteps,
}

impl ReplayConfigError {
    /// Human-readable description of the error.
    pub fn to_string(&self) -> (r: String)
        ensures
            r@ == "replay config requires a non-zero step count"@,
    {
        "replay config requires a non-zero step count".to_owned()
    }
}

impl ReplayConfig {
    /// A replay runs at least one step.
    #[verifier::type_invariant]
    spec fn runs_some_step(self) -> bool {
        self.steps > 0
    }

    /// Seed handed to the driver fixture.
    pub closed spec fn spec_seed(&self) -> u64 {
        self.seed
    }

    /// Number of steps to run.
    pub closed spec fn spec_steps(&self) -> u32 {
        self.steps
    }

    /// Capture policy.
    pub closed spec fn spec_capture(&self) -> CapturePolicy {
        self.capture
    }

    /// Whether a step is captured: every step, or only the last one.
    pub open spec fn captures(&self, is_last: bool) -> bool {
        match self.spec_capture() {
            CapturePolicy::EveryStep => true,
            CapturePolicy::FinalOnly => is_last,
        }
    }

    /// A finite replay policy; zero steps are refused. The seed is handed to the host
    /// driver fixture: the library owns no random source.
    pub fn new(seed: u64, steps: u32, capture: CapturePolicy) -> (r: Result<ReplayConfig, ReplayConfigError>)
        ensures
            steps == 0 ==> r == Err::<ReplayConfig, ReplayConfigError>(ReplayConfigError::ZeroSteps),
            steps != 0 ==> (r matches Ok(c) && c.spec_seed() == seed && c.spec_steps() == steps
                && c.spec_capture() == capture),
    {
        if steps == 0 {
            return Err(ReplayConfigError::ZeroSteps);
        }
        Ok(ReplayConfig { seed, steps, capture })
    }

    /// Replay seed recorded in the report and passed to the driver fixture.
    pub fn seed(&self) -> (r: u64)
        ensures
            r == self.spec_seed(),
    {
        self.seed
    }

    /// Number of successful replay steps before the run ends; never zero.
    pub fn steps(&self) -> (r: u32)
        ensures
            r == self.spec_steps(),
            r > 0,
    {
        proof {
            use_type_invariant(self);
        }
        self.steps
    }

    /// When step records are captured into the final report.
    pub fn capture(&self) -> (r: CapturePolicy)
        ensures
            r == self.spec_capture(),
    {
        self.capture
    }

    /// Whether the step is captured; `is_last` marks the final configured step.
    pub fn should_capture(&self, is_last: bool) -> (r: bool)
        ensures
            r == self.captures(is_last),
    {
        match self.capture {
            CapturePolicy::EveryStep => true,
            CapturePolicy::FinalOnly => is_last,
        }
    }
}

} // verus!
