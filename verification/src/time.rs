//! World and change ticks, durations, and the debt-aware fixed-step accumulator.
use vstd::prelude::*;
use vstd::arithmetic::div_mod::{lemma_fundamental_div_mod, lemma_mod_bound};
use vstd::arithmetic::mul::lemma_mul_inequality;

verus! {

/// Largest representable duration in nanoseconds (`u64::MAX` seconds plus 999_999_999 ns).
pub const MAX_DURATION_NANOS: u128 = 18_446_744_073_709_551_615_999_999_999u128;

/// Nanoseconds per second.
pub const NANOS_PER_SECOND: u128 = 1_000_000_000u128;

/// A span of time with nanosecond precision, bounded like `core::time::Duration`.
#[derive(Copy, Clone, Debug, Eq, Hash, Ord, PartialEq, PartialOrd)]
pub struct Duration {
    nanos: u128,
}

impl Duration {
    #[verifier::type_invariant]
    spec fn bounded(self) -> bool {
        self.nanos <= MAX_DURATION_NANOS
    }
}

impl View for Duration {
    type V = nat;

    closed spec fn view(&self) -> nat {
        self.nanos as nat
    }
}

impl Duration {
    /// Two values with the same view are the same value.
    pub broadcast proof fn lemma_view_injective(a: Duration, b: Duration)
        ensures
            #[trigger] a@ == #[trigger] b@ ==> a == b,
    {
    }
}

impl Duration {
    /// The empty duration.
    pub fn zero() -> (r: Duration)
        ensures
            r@ == 0,
    {
        Duration { nanos: 0 }
    }

    /// The largest representable duration.
    pub fn maximum() -> (r: Duration)
        ensures
            r@ == MAX_DURATION_NANOS,
    {
        Duration { nanos: MAX_DURATION_NANOS }
    }

    /// Whole seconds plus extra nanoseconds; the nanoseconds may exceed one second.
    pub fn new(secs: u64, nanos: u32) -> (r: Duration)
        requires
            secs * NANOS_PER_SECOND + nanos <= MAX_DURATION_NANOS,
        ensures
            r@ == secs * NANOS_PER_SECOND + nanos,
    {
        let total: u128 = (secs as u128) * NANOS_PER_SECOND + (nanos as u128);
        Duration { nanos: total }
    }

    /// Duration of the given number of milliseconds.
    pub fn from_millis(millis: u64) -> (r: Duration)
        ensures
            r@ == millis * 1_000_000,
    {
        let total: u128 = (millis as u128) * 1_000_000u128;
        Duration { nanos: total }
    }

    /// Duration of the given number of nanoseconds.
    pub fn from_nanos(nanos: u64) -> (r: Duration)
        ensures
            r@ == nanos,
    {
        Duration { nanos: nanos as u128 }
    }

    /// Total number of nanoseconds.
    pub fn as_nanos(&self) -> (r: u128)
        ensures
            r == self@,
            r <= MAX_DURATION_NANOS,
    {
        proof {
            use_type_invariant(self);
        }
        self.nanos
    }

    /// Sum of two durations, clamped to [`Duration::maximum`].
    pub fn saturating_add(self, other: Duration) -> (r: Duration)
        ensures
            r@ == if self@ + other@ <= MAX_DURATION_NANOS {
                self@ + other@
            } else {
                MAX_DURATION_NANOS as nat
            },
    {
        proof {
            use_type_invariant(&self);
            use_type_invariant(&other);
        }
        if self.nanos <= MAX_DURATION_NANOS - other.nanos {
            Duration { nanos: self.nanos + other.nanos }
        } else {
            Duration { nanos: MAX_DURATION_NANOS }
        }
    }
}

/// Duration whose length is exactly `nanos` nanoseconds.
fn duration_from_nanos(nanos: u128) -> (r: Duration)
    requires
        nanos <= MAX_DURATION_NANOS,
    ensures
        r@ == nanos,
{
    Duration { nanos }
}

/// Monotonic frame counter advanced only by the application loop.
#[derive(Copy, Clone, Debug, Eq, PartialEq, Ord, PartialOrd, Hash, Default)]
pub struct WorldTick(u64);

/// The world tick counter cannot advance further.
#[derive(Copy, Clone, Debug, Eq, PartialEq)]
pub enum WorldTickError {
    Exhausted,
}

impl View for WorldTick {
    type V = u64;

    closed spec fn view(&self) -> u64 {
        self.0
    }
}

impl WorldTick {
    /// Two values with the same view are the same value.
    pub broadcast proof fn lemma_view_injective(a: WorldTick, b: WorldTick)
        ensures
            #[trigger] a@ == #[trigger] b@ ==> a == b,
    {
    }
}

impl WorldTick {
    /// The first frame.
    pub fn zero() -> (r: WorldTick)
        ensures
            r@ == 0,
    {
        WorldTick(0)
    }

    /// Raw frame counter.
    pub fn raw(self) -> (r: u64)
        ensures
            r == self@,
    {
        self.0
    }

    /// Overwrites the raw frame counter.
    pub fn set_raw(&mut self, raw: u64)
        ensures
            final(self)@ == raw,
    {
        self.0 = raw;
    }

    /// Advances one frame and returns the new tick; unchanged on exhaustion.
    pub fn advance(&mut self) -> (r: Result<WorldTick, WorldTickError>)
        ensures
            old(self)@ < u64::MAX ==> final(self)@ == old(self)@ + 1 && r == Ok::<WorldTick, WorldTickError>(*final(self)),
            old(self)@ == u64::MAX ==> *final(self) == *old(self) && r == Err::<WorldTick, WorldTickError>(WorldTickError::Exhausted),
    {
        match self.0.checked_add(1) {
            Some(next) => {
                self.0 = next;
                Ok(WorldTick(next))
            },
            None => Err(WorldTickError::Exhausted),
        }
    }

    /// Decimal rendering of the raw counter.
    pub fn to_string(&self) -> (r: String)
        ensures
            r@ == decimal_digits(self@ as nat),
    {
        u64_to_decimal(self.0)
    }
}

/// Monotonic world change counter for component and resource mutation metadata.
#[derive(Copy, Clone, Debug, Eq, PartialEq, Ord, PartialOrd, Hash, Default)]
pub struct ChangeTick(u64);

/// The change counter cannot advance further.
#[derive(Copy, Clone, Debug, Eq, PartialEq)]
pub enum ChangeTickError {
    Exhausted,
}

impl View for ChangeTick {
    type V = u64;

    closed spec fn view(&self) -> u64 {
        self.0
    }
}

impl ChangeTick {
    /// Two values with the same view are the same value.
    pub broadcast proof fn lemma_view_injective(a: ChangeTick, b: ChangeTick)
        ensures
            #[trigger] a@ == #[trigger] b@ ==> a == b,
    {
    }
}

impl ChangeTick {
    /// The tick before any change.
    pub fn zero() -> (r: ChangeTick)
        ensures
            r@ == 0,
    {
        ChangeTick(0)
    }

    /// Tick with the given raw value.
    pub fn from_raw(raw: u64) -> (r: ChangeTick)
        ensures
            r@ == raw,
    {
        ChangeTick(raw)
    }

    /// Raw counter value.
    pub fn raw(self) -> (r: u64)
        ensures
            r == self@,
    {
        self.0
    }

    /// Advances by one and returns the new tick; unchanged on exhaustion.
    pub fn advance(&mut self) -> (r: Result<ChangeTick, ChangeTickError>)
        ensures
            old(self)@ < u64::MAX ==> final(self)@ == old(self)@ + 1 && r == Ok::<ChangeTick, ChangeTickError>(*final(self)),
            old(self)@ == u64::MAX ==> *final(self) == *old(self) && r == Err::<ChangeTick, ChangeTickError>(ChangeTickError::Exhausted),
    {
        match self.0.checked_add(1) {
            Some(next) => {
                self.0 = next;
                Ok(ChangeTick(next))
            },
            None => Err(ChangeTickError::Exhausted),
        }
    }

    /// Issues the next tick; the same as [`ChangeTick::advance`].
    pub fn issue(&mut self) -> (r: Result<ChangeTick, ChangeTickError>)
        ensures
            old(self)@ < u64::MAX ==> final(self)@ == old(self)@ + 1 && r == Ok::<ChangeTick, ChangeTickError>(*final(self)),
            old(self)@ == u64::MAX ==> *final(self) == *old(self) && r == Err::<ChangeTick, ChangeTickError>(ChangeTickError::Exhausted),
    {
        self.advance()
    }

    /// Whether `count` more ticks can be issued without exhaustion.
    pub fn can_advance_n(&self, count: usize) -> (r: bool)
        ensures
            r == (self@ + count <= u64::MAX),
    {
        let count: u64 = count as u64;
        self.0 <= u64::MAX - count
    }

    /// Strict "happened after" comparison of raw ticks.
    pub fn is_after(&self, other: &ChangeTick) -> (r: bool)
        ensures
            r == (self@ > other@),
    {
        self.0 > other.0
    }

    /// Decimal rendering of the raw counter.
    pub fn to_string(&self) -> (r: String)
        ensures
            r@ == decimal_digits(self@ as nat),
    {
        u64_to_decimal(self.0)
    }
}

/// `r` carries exactly the raw tick `raw`: both absent, or both present and equal.
pub open spec fn tick_matches(r: Option<ChangeTick>, raw: Option<u64>) -> bool {
    match (r, raw) {
        (Some(t), Some(x)) => t@ == x,
        (None, None) => true,
        _ => false,
    }
}

/// The ASCII digit for a value below ten.
pub open spec fn digit_char(d: nat) -> char {
    if d == 0 { '0' }
    else if d == 1 { '1' }
    else if d == 2 { '2' }
    else if d == 3 { '3' }
    else if d == 4 { '4' }
    else if d == 5 { '5' }
    else if d == 6 { '6' }
    else if d == 7 { '7' }
    else if d == 8 { '8' }
    else { '9' }
}

/// Decimal representation of a natural number without leading zeros.
pub open spec fn decimal_digits(n: nat) -> Seq<char>
    decreases n,
{
    if n < 10 {
        seq![digit_char(n)]
    } else {
        decimal_digits(n / 10).push(digit_char(n % 10))
    }
}

fn digit(d: u64) -> (c: char)
    requires
        d < 10,
    ensures
        c == digit_char(d as nat),
{
    if d == 0 { '0' }
    else if d == 1 { '1' }
    else if d == 2 { '2' }
    else if d == 3 { '3' }
    else if d == 4 { '4' }
    else if d == 5 { '5' }
    else if d == 6 { '6' }
    else if d == 7 { '7' }
    else if d == 8 { '8' }
    else { '9' }
}

/// Decimal rendering of `n`.
pub fn u64_to_decimal(n: u64) -> (r: String)
    ensures
        r@ == decimal_digits(n as nat),
{
    let chars = decimal_chars(n);
    let mut s = String::new();
    let mut i: usize = 0;
    while i < chars.len()
        invariant
            0 <= i <= chars.len(),
            s@ == chars@.subrange(0, i as int),
        decreases chars.len() - i,
    {
        push_char(&mut s, chars[i]);
        i = i + 1;
    }
    proof {
        assert(chars@.subrange(0, chars@.len() as int) =~= chars@);
    }
    s
}

fn decimal_chars(n: u64) -> (r: Vec<char>)
    ensures
        r@ == decimal_digits(n as nat),
    decreases n,
{
    if n < 10 {
        let mut v = Vec::new();
        v.push(digit(n));
        v
    } else {
        let mut v = decimal_chars(n / 10);
        v.push(digit(n % 10));
        v
    }
}

/// Appends one character to a string (`String::push`).
#[verifier::external_body]
fn push_char(s: &mut String, c: char)
    ensures
        final(s)@ == old(s)@.push(c),
{
    s.push(c);
}

/// Fixed simulation substep identity while FixedUpdate runs.
#[derive(Copy, Clone, Debug, Eq, PartialEq, Ord, PartialOrd, Hash)]
pub struct FixedStep {
    /// Index of the first fixed interval represented by this run.
    pub index: u64,
    /// Simulation time represented by this run.
    pub delta: Duration,
    /// Number of fixed intervals represented by this run.
    pub steps: u64,
}

/// The fixed-step index cannot represent the requested steps.
#[derive(Copy, Clone, Debug, Eq, PartialEq)]
pub enum FixedStepError {
    Exhausted,
}

/// Policy used when a frame contains more fixed intervals than the cap.
#[derive(Copy, Clone, Debug, Eq, PartialEq)]
pub enum FixedDebtPolicy {
    /// Run up to the cap, discard the remaining whole intervals, and report it.
    DropWithDiagnostic,
    /// Run up to the cap and retain the remaining intervals for future updates.
    Preserve,
    /// Run one update with all overdue whole intervals combined into its delta.
    Coalesce,
}

/// Invalid fixed timestep configuration.
#[derive(Copy, Clone, Debug, Eq, PartialEq)]
pub enum FixedConfigError {
    NonPositiveDelta,
    ZeroSubstepCap,
}

/// Host-provided fixed timestep configuration.
#[derive(Copy, Clone, Debug, Eq, PartialEq)]
pub struct FixedConfig {
    delta: Duration,
    max_substeps: u32,
    debt_policy: FixedDebtPolicy,
}

impl FixedConfig {
    #[verifier::type_invariant]
    spec fn valid(self) -> bool {
        &&& self.delta@ > 0
        &&& self.max_substeps > 0
    }

    /// Fixed interval length in nanoseconds.
    pub closed spec fn spec_delta(self) -> nat {
        self.delta@
    }

    /// Most fixed updates run in one frame.
    pub closed spec fn spec_max_substeps(self) -> u32 {
        self.max_substeps
    }

    /// Debt policy applied past the cap.
    pub closed spec fn spec_debt_policy(self) -> FixedDebtPolicy {
        self.debt_policy
    }

    /// Default cap on fixed updates per frame.
    pub fn default_max_substeps() -> (r: u32)
        ensures
            r == 8,
    {
        8
    }

    /// Configuration with the given interval, the default cap and the dropping debt policy.
    pub fn new(delta: Duration) -> (r: Result<FixedConfig, FixedConfigError>)
        ensures
            delta@ == 0 <==> r == Err::<FixedConfig, FixedConfigError>(FixedConfigError::NonPositiveDelta),
            delta@ > 0 ==> r is Ok,
            r matches Ok(c) ==> c.spec_delta() == delta@ && c.spec_max_substeps() == 8
                && c.spec_debt_policy() == FixedDebtPolicy::DropWithDiagnostic,
    {
        if delta.as_nanos() == 0 {
            return Err(FixedConfigError::NonPositiveDelta);
        }
        Ok(FixedConfig { delta, max_substeps: 8, debt_policy: FixedDebtPolicy::DropWithDiagnostic })
    }

    /// The same configuration with another cap on fixed updates per frame.
    pub fn with_max_substeps(self, max_substeps: u32) -> (r: Result<FixedConfig, FixedConfigError>)
        ensures
            max_substeps == 0 <==> r == Err::<FixedConfig, FixedConfigError>(FixedConfigError::ZeroSubstepCap),
            max_substeps > 0 ==> r is Ok,
            r matches Ok(c) ==> c.spec_delta() == self.spec_delta() && c.spec_max_substeps() == max_substeps
                && c.spec_debt_policy() == self.spec_debt_policy(),
    {
        proof {
            use_type_invariant(&self);
        }
        if max_substeps == 0 {
            return Err(FixedConfigError::ZeroSubstepCap);
        }
        Ok(FixedConfig { delta: self.delta, max_substeps, debt_policy: self.debt_policy })
    }

    /// Fixed interval length.
    pub fn delta(&self) -> (r: Duration)
        ensures
            r@ == self.spec_delta(),
            r@ > 0,
    {
        proof {
            use_type_invariant(self);
        }
        self.delta
    }

    /// Cap on fixed updates per frame.
    pub fn max_substeps(&self) -> (r: u32)
        ensures
            r == self.spec_max_substeps(),
            r > 0,
    {
        proof {
            use_type_invariant(self);
        }
        self.max_substeps
    }

    /// The same configuration with another debt policy.
    pub fn with_debt_policy(self, debt_policy: FixedDebtPolicy) -> (r: FixedConfig)
        ensures
            r.spec_delta() == self.spec_delta(),
            r.spec_max_substeps() == self.spec_max_substeps(),
            r.spec_debt_policy() == debt_policy,
    {
        proof {
            use_type_invariant(&self);
        }
        FixedConfig { delta: self.delta, max_substeps: self.max_substeps, debt_policy }
    }

    /// Debt policy applied past the cap.
    pub fn debt_policy(&self) -> (r: FixedDebtPolicy)
        ensures
            r == self.spec_debt_policy(),
    {
        self.debt_policy
    }
}

/// Whole fixed intervals discarded by the dropping debt policy.
#[derive(Copy, Clone, Debug, Eq, PartialEq)]
pub struct FixedDebtDropped {
    pub steps: u128,
}

/// Whole fixed intervals represented by one coalesced FixedUpdate run.
#[derive(Copy, Clone, Debug, Eq, PartialEq)]
pub struct FixedDebtCoalesced {
    pub steps: u128,
}

/// Fixed work scheduled for one frame.
#[derive(Copy, Clone, Debug, Eq, PartialEq)]
pub enum FixedWork {
    /// Run this many ordinary fixed updates.
    Steps(u32),
    /// Run one update standing for `steps` intervals of total length `delta`.
    Coalesced { steps: u128, delta: Duration },
}

/// Fixed work for one frame plus the debt diagnostics it produced.
#[derive(Copy, Clone, Debug, Eq, PartialEq)]
pub struct FixedPlan {
    pub work: FixedWork,
    pub dropped: Option<FixedDebtDropped>,
    pub coalesced: Option<FixedDebtCoalesced>,
}

/// Total time available to a frame: the carried remainder plus the frame time, saturated.
pub open spec fn saturated_total(remainder: nat, frame: nat) -> nat {
    if remainder + frame <= MAX_DURATION_NANOS { remainder + frame } else { MAX_DURATION_NANOS as nat }
}

/// The plan and the remainder that a frame with `total` available time produces.
pub open spec fn plan_spec(total: nat, config: FixedConfig, plan: FixedPlan, remainder: nat) -> bool {
    let d = config.spec_delta();
    let cap = config.spec_max_substeps() as nat;
    let due = total / d;
    if due <= cap {
        &&& plan.work == FixedWork::Steps(due as u32)
        &&& plan.dropped is None
        &&& plan.coalesced is None
        &&& remainder == total % d
    } else {
        match config.spec_debt_policy() {
            FixedDebtPolicy::DropWithDiagnostic => {
                &&& plan.work == FixedWork::Steps(cap as u32)
                &&& plan.dropped == Some(FixedDebtDropped { steps: (due - cap) as u128 })
                &&& plan.coalesced is None
                &&& remainder == total % d
            },
            FixedDebtPolicy::Preserve => {
                &&& plan.work == FixedWork::Steps(cap as u32)
                &&& plan.dropped is None
                &&& plan.coalesced is None
                &&& remainder == total - d * cap
            },
            FixedDebtPolicy::Coalesce => {
                &&& plan.work matches FixedWork::Coalesced { steps, delta } && steps == due && delta@ == d * due
                &&& plan.dropped is None
                &&& plan.coalesced == Some(FixedDebtCoalesced { steps: due as u128 })
                &&& remainder == total % d
            },
        }
    }
}

/// Time a frame's fixed work stands for: the intervals run and those dropped, or the span a
/// coalesced run represents.
pub open spec fn work_time(plan: FixedPlan, d: nat) -> int {
    match plan.work {
        FixedWork::Steps(n) => n * d + match plan.dropped {
            Some(x) => x.steps * d,
            None => 0,
        },
        FixedWork::Coalesced { steps, delta } => delta@ as int,
    }
}

/// A frame's fixed work accounts for all of its time: what the work stands for plus the
/// carried remainder is exactly the time that was available.
pub proof fn law_fixed_time_accounted(total: nat, config: FixedConfig, plan: FixedPlan, remainder: nat)
    requires
        config.spec_delta() > 0,
        total <= MAX_DURATION_NANOS,
        plan_spec(total, config, plan, remainder),
    ensures
        work_time(plan, config.spec_delta()) + remainder == total,
{
    let d = config.spec_delta();
    let cap = config.spec_max_substeps() as nat;
    let due = total / d;
    lemma_fundamental_div_mod(total as int, d as int);
    assert(total == d * due + total % d);
    assert(due <= total) by {
        vstd::arithmetic::div_mod::lemma_div_is_ordered_by_denominator(total as int, 1, d as int);
    }
    if due > cap {
        match config.spec_debt_policy() {
            FixedDebtPolicy::DropWithDiagnostic => {
                assert((cap as u32) as nat == cap);
                assert(((due - cap) as u128) as int == due - cap);
                assert(cap * d + (due - cap) * d == d * due) by (nonlinear_arith)
                    requires
                        due > cap,
                ;
                assert(work_time(plan, d) == cap * d + (due - cap) * d);
            },
            FixedDebtPolicy::Preserve => {
                assert((cap as u32) as nat == cap);
                assert(cap * d == d * cap) by (nonlinear_arith);
                assert(work_time(plan, d) == cap * d);
            },
            FixedDebtPolicy::Coalesce => {
                assert(work_time(plan, d) == d * due);
            },
        }
    } else {
        assert((due as u32) as nat == due);
        assert(due * d == d * due) by (nonlinear_arith);
        assert(work_time(plan, d) == due * d);
    }
}

/// Debt-preserving fixed-step accumulator owned by a schedule.
#[derive(Clone, Debug)]
pub struct FixedAccumulator {
    remainder: Duration,
    next_index: u64,
}

impl FixedAccumulator {
    /// Carried time not yet consumed by fixed updates, in nanoseconds.
    pub closed spec fn spec_remainder(self) -> nat {
        self.remainder@
    }

    /// Index of the next fixed interval.
    pub closed spec fn spec_next_index(self) -> u64 {
        self.next_index
    }

    /// Empty accumulator starting at interval zero.
    pub fn new() -> (r: FixedAccumulator)
        ensures
            r.spec_remainder() == 0,
            r.spec_next_index() == 0,
    {
        FixedAccumulator { remainder: Duration::zero(), next_index: 0 }
    }

    /// Carried time not yet consumed by fixed updates.
    pub fn remainder(&self) -> (r: Duration)
        ensures
            r@ == self.spec_remainder(),
    {
        self.remainder
    }

    /// Index of the next fixed interval.
    pub fn next_index(&self) -> (r: u64)
        ensures
            r == self.spec_next_index(),
    {
        self.next_index
    }

    /// Overwrites the next interval index, for exhaustion tests.
    pub fn set_next_index_for_test(&mut self, next_index: u64)
        ensures
            final(self).spec_next_index() == next_index,
            final(self).spec_remainder() == old(self).spec_remainder(),
    {
        self.next_index = next_index;
    }

    /// The plan that [`FixedAccumulator::plan`] would return, without changing the accumulator.
    pub fn peek_plan(&self, frame_delta: Duration, config: &FixedConfig) -> (r: FixedPlan)
        ensures
            exists|rem: nat| plan_spec(saturated_total(self.spec_remainder(), frame_delta@), *config, r, rem),
    {
        let (plan, rem) = Self::substep_plan(self.remainder.saturating_add(frame_delta), config);
        proof {
            assert(plan_spec(saturated_total(self.spec_remainder(), frame_delta@), *config, plan, rem@));
        }
        plan
    }

    /// Consumes whole fixed intervals from the carried time plus `frame_delta`.
    pub fn plan(&mut self, frame_delta: Duration, config: &FixedConfig) -> (r: FixedPlan)
        ensures
            plan_spec(
                saturated_total(old(self).spec_remainder(), frame_delta@),
                *config,
                r,
                final(self).spec_remainder(),
            ),
            final(self).spec_next_index() == old(self).spec_next_index(),
    {
        let total = self.remainder.saturating_add(frame_delta);
        let (plan, remainder) = Self::substep_plan(total, config);
        self.remainder = remainder;
        plan
    }

    /// Whether `steps` more intervals can be indexed without overflowing.
    pub fn preflight_steps(&self, steps: u128) -> (r: Result<(), FixedStepError>)
        ensures
            r is Ok <==> (steps == 0 || self.spec_next_index() + steps <= u64::MAX),
            r is Err ==> r == Err::<(), FixedStepError>(FixedStepError::Exhausted),
    {
        if steps == 0 {
            return Ok(());
        }
        if steps > u64::MAX as u128 {
            return Err(FixedStepError::Exhausted);
        }
        let steps: u64 = steps as u64;
        if self.next_index > u64::MAX - (steps - 1) {
            return Err(FixedStepError::Exhausted);
        }
        let last: u64 = self.next_index + (steps - 1);
        if last == u64::MAX {
            return Err(FixedStepError::Exhausted);
        }
        Ok(())
    }

    fn substep_plan(total: Duration, config: &FixedConfig) -> (r: (FixedPlan, Duration))
        ensures
            plan_spec(total@, *config, r.0, r.1@),
    {
        let delta_nanos = config.delta().as_nanos();
        let total_nanos = total.as_nanos();
        let cap = config.max_substeps();
        let due = total_nanos / delta_nanos;
        let run: u32 = if due <= cap as u128 { due as u32 } else { cap };
        proof {
            lemma_fundamental_div_mod(total_nanos as int, delta_nanos as int);
            lemma_mod_bound(total_nanos as int, delta_nanos as int);
        }
        let ordinary = FixedPlan { work: FixedWork::Steps(run), dropped: None, coalesced: None };
        if due <= cap as u128 {
            return (ordinary, duration_from_nanos(total_nanos % delta_nanos));
        }
        match config.debt_policy() {
            FixedDebtPolicy::DropWithDiagnostic => (
                FixedPlan {
                    work: FixedWork::Steps(run),
                    dropped: Some(FixedDebtDropped { steps: due - run as u128 }),
                    coalesced: None,
                },
                duration_from_nanos(total_nanos % delta_nanos),
            ),
            FixedDebtPolicy::Preserve => {
                proof {
                    lemma_mul_inequality(run as int, due as int, delta_nanos as int);
                    assert(delta_nanos * run <= delta_nanos * due) by (nonlinear_arith)
                        requires
                            run as int * delta_nanos <= due as int * delta_nanos;
                }
                let consumed = delta_nanos * (run as u128);
                (ordinary, duration_from_nanos(total_nanos - consumed))
            },
            FixedDebtPolicy::Coalesce => {
                let delta = duration_from_nanos(delta_nanos * due);
                (
                    FixedPlan {
                        work: FixedWork::Coalesced { steps: due, delta },
                        dropped: None,
                        coalesced: Some(FixedDebtCoalesced { steps: due }),
                    },
                    duration_from_nanos(total_nanos % delta_nanos),
                )
            },
        }
    }

    /// Issues one ordinary fixed step and advances the index, saturating at `u64::MAX`.
    pub fn next_step(&mut self, config: &FixedConfig) -> (r: FixedStep)
        ensures
            r.index == old(self).spec_next_index(),
            r.delta@ == config.spec_delta(),
            r.steps == 1,
            final(self).spec_next_index() == if old(self).spec_next_index() < u64::MAX {
                (old(self).spec_next_index() + 1) as u64
            } else {
                u64::MAX
            },
            final(self).spec_remainder() == old(self).spec_remainder(),
    {
        let step = FixedStep { index: self.next_index, delta: config.delta(), steps: 1 };
        self.next_index = if self.next_index < u64::MAX { self.next_index + 1 } else { u64::MAX };
        step
    }

    /// Issues one coalesced step standing for `steps` intervals; the index saturates.
    pub fn next_coalesced(&mut self, steps: u64, delta: Duration) -> (r: FixedStep)
        ensures
            r.index == old(self).spec_next_index(),
            r.delta == delta,
            r.steps == steps,
            final(self).spec_next_index() == if old(self).spec_next_index() + steps <= u64::MAX {
                (old(self).spec_next_index() + steps) as u64
            } else {
                u64::MAX
            },
            final(self).spec_remainder() == old(self).spec_remainder(),
    {
        let step = FixedStep { index: self.next_index, delta, steps };
        self.next_index = if self.next_index <= u64::MAX - steps {
            self.next_index + steps
        } else {
            u64::MAX
        };
        step
    }
}

impl Default for FixedAccumulator {
    fn default() -> (r: FixedAccumulator)
        ensures
            r.spec_remainder() == 0,
            r.spec_next_index() == 0,
    {
        FixedAccumulator::new()
    }
}

} // verus!
