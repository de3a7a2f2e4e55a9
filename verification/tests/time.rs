use lib::time::{
    u64_to_decimal, ChangeTick, Duration, FixedAccumulator, FixedConfig, FixedConfigError, FixedDebtPolicy,
    FixedStepError, FixedWork, WorldTick,
};

#[test]
fn fixed_config_rejects_non_positive_delta() {
    assert!(matches!(FixedConfig::new(Duration::zero()), Err(FixedConfigError::NonPositiveDelta)));
}

#[test]
fn fixed_config_rejects_zero_substep_cap() {
    let config = FixedConfig::new(Duration::from_millis(1)).expect("delta");
    assert!(matches!(config.with_max_substeps(0), Err(FixedConfigError::ZeroSubstepCap)));
}

#[test]
fn preflight_steps_zero_is_ok() {
    let accumulator = FixedAccumulator::new();
    accumulator.preflight_steps(0).expect("zero steps");
}

#[test]
fn preflight_steps_reports_exhaustion_near_u64_max() {
    let mut accumulator = FixedAccumulator::new();
    accumulator.set_next_index_for_test(u64::MAX);
    assert!(matches!(accumulator.preflight_steps(1), Err(FixedStepError::Exhausted)));
}

#[test]
fn world_tick_and_change_tick_display_format_raw_values() {
    assert_eq!(WorldTick::zero().to_string(), "0");
    assert_eq!(ChangeTick::from_raw(9).to_string(), "9");
}

#[test]
fn default_accumulator_matches_new() {
    assert_eq!(
        FixedAccumulator::default()
            .peek_plan(Duration::from_millis(1), &FixedConfig::new(Duration::from_millis(1)).expect("delta")),
        FixedAccumulator::new()
            .peek_plan(Duration::from_millis(1), &FixedConfig::new(Duration::from_millis(1)).expect("delta"))
    );
}

#[test]
fn huge_deltas_drop_debt_without_iterating_or_preserving_whole_steps() {
    let config = FixedConfig::new(Duration::from_millis(1))
        .expect("positive delta")
        .with_max_substeps(8)
        .expect("cap");
    let mut accumulator = FixedAccumulator::new();

    let plan = accumulator.plan(Duration::maximum(), &config);

    assert_eq!(plan.work, FixedWork::Steps(8));
    assert_eq!(
        plan.dropped.expect("debt").steps,
        Duration::maximum().as_nanos() / config.delta().as_nanos() - 8
    );
    assert!(accumulator.remainder() < config.delta());
}

#[test]
fn preserve_debt_keeps_unrun_whole_steps() {
    let config = FixedConfig::new(Duration::from_millis(10))
        .expect("positive delta")
        .with_max_substeps(2)
        .expect("cap")
        .with_debt_policy(FixedDebtPolicy::Preserve);
    let mut accumulator = FixedAccumulator::new();

    let first = accumulator.plan(Duration::from_millis(50), &config);
    assert_eq!(first.work, FixedWork::Steps(2));
    assert!(first.dropped.is_none());
    let second = accumulator.plan(Duration::zero(), &config);
    assert_eq!(second.work, FixedWork::Steps(2));
}

#[test]
fn coalesce_represents_all_overdue_intervals_once() {
    let config = FixedConfig::new(Duration::from_millis(10))
        .expect("positive delta")
        .with_max_substeps(2)
        .expect("cap")
        .with_debt_policy(FixedDebtPolicy::Coalesce);
    let mut accumulator = FixedAccumulator::new();

    let plan = accumulator.plan(Duration::from_millis(55), &config);
    assert_eq!(plan.work, FixedWork::Coalesced { steps: 5, delta: Duration::from_millis(50) });
    assert_eq!(plan.coalesced.expect("coalesced").steps, 5);
    assert_eq!(accumulator.remainder(), Duration::from_millis(5));
}

#[test]
fn drop_policy_keeps_only_the_partial_interval() {
    let config = FixedConfig::new(Duration::from_millis(10))
        .expect("positive delta")
        .with_max_substeps(2)
        .expect("cap");
    let mut accumulator = FixedAccumulator::new();
    let plan = accumulator.plan(Duration::from_millis(47), &config);
    assert_eq!(plan.work, FixedWork::Steps(2));
    assert_eq!(plan.dropped.expect("dropped").steps, 2);
    assert_eq!(accumulator.remainder(), Duration::from_millis(7));
    assert_eq!(accumulator.next_index(), 0);
}

#[test]
fn small_frames_carry_their_remainder() {
    let config = FixedConfig::new(Duration::from_millis(10)).expect("delta");
    let mut accumulator = FixedAccumulator::new();
    assert_eq!(accumulator.plan(Duration::from_millis(4), &config).work, FixedWork::Steps(0));
    assert_eq!(accumulator.plan(Duration::from_millis(7), &config).work, FixedWork::Steps(1));
    assert_eq!(accumulator.remainder(), Duration::from_millis(1));
}

#[test]
fn change_tick_issue_and_exhaustion() {
    let mut tick = ChangeTick::from_raw(u64::MAX - 1);
    assert_eq!(tick.advance().expect("advance").raw(), u64::MAX);
    assert!(tick.advance().is_err());
    assert_eq!(tick.raw(), u64::MAX);
    assert!(ChangeTick::from_raw(3).is_after(&ChangeTick::from_raw(2)));
    assert!(!ChangeTick::from_raw(2).is_after(&ChangeTick::from_raw(2)));
}

#[test]
fn decimal_rendering_covers_edges() {
    assert_eq!(u64_to_decimal(0), "0");
    assert_eq!(u64_to_decimal(1200), "1200");
    assert_eq!(u64_to_decimal(u64::MAX), "18446744073709551615");
}

#[test]
fn duration_arithmetic_saturates() {
    assert_eq!(Duration::from_millis(1).as_nanos(), 1_000_000);
    assert_eq!(Duration::new(1, 5).as_nanos(), 1_000_000_005);
    assert_eq!(Duration::maximum().saturating_add(Duration::from_nanos(1)), Duration::maximum());
}

#[test]
fn fixed_work_accounts_for_all_available_time() {
    let base = FixedConfig::new(Duration::from_millis(10)).expect("delta").with_max_substeps(2).expect("cap");
    for policy in [FixedDebtPolicy::DropWithDiagnostic, FixedDebtPolicy::Preserve, FixedDebtPolicy::Coalesce] {
        let config = base.with_debt_policy(policy);
        let mut accumulator = FixedAccumulator::new();
        let plan = accumulator.plan(Duration::from_millis(47), &config);
        let delta = config.delta().as_nanos();
        let work = match plan.work {
            FixedWork::Steps(n) => n as u128 * delta + plan.dropped.map_or(0, |d| d.steps * delta),
            FixedWork::Coalesced { delta: span, .. } => span.as_nanos(),
        };
        assert_eq!(work + accumulator.remainder().as_nanos(), Duration::from_millis(47).as_nanos());
    }
}
