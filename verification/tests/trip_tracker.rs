use navcore::navigator::{
    step_at, validate_config, ConfigReadings, MatchedFix, StepMarks, TrackerConfig, TripTracker,
};
use navcore::types::{ConfigField, ConfigProblem, NavError, TripProgress};

fn key(m: f64) -> u64 {
    let b = (m + 0.0).to_bits();
    if b >> 63 == 1 {
        !b
    } else {
        b | (1 << 63)
    }
}

/// East 300 m, then north 300 m, then a zero-length arrival step.
fn l_route_marks(max_backtrack_m: f64) -> StepMarks {
    let starts = [0.0, 300.0, 600.0];
    let ends = [300.0, 600.0, 600.0];
    StepMarks {
        end_keys: ends.iter().map(|&e| key(e)).collect(),
        resync_keys: starts.iter().map(|&s| key(s - max_backtrack_m)).collect(),
    }
}

fn tracker(off: u32, on: u32, gap_ms: u64) -> TripTracker {
    TripTracker::new(TrackerConfig::new(off, on, gap_ms).unwrap(), l_route_marks(30.0))
}

fn fix(t: u64, far: bool, along: f64) -> MatchedFix {
    MatchedFix {
        timestamp_ms: t,
        far_from_route: far,
        along_key: key(along),
        early_advance: false,
        near_destination: 600.0 - along <= 15.0,
    }
}

/// The host's order for one fix: the stale-fix guard, recording the fix as
/// accepted, then the decisions.
fn accept(t: &mut TripTracker, f: MatchedFix) -> bool {
    assert_eq!(t.check_fix_time(f.timestamp_ms), Ok(()));
    t.record_accepted(f.timestamp_ms);
    t.on_match(f)
}

#[test]
fn step_at_maps_distances() {
    let ends: Vec<u64> = [300.0, 600.0, 600.0].iter().map(|&e| key(e)).collect();
    assert_eq!(step_at(&ends, key(0.0)), 0);
    assert_eq!(step_at(&ends, key(150.0)), 0);
    assert_eq!(step_at(&ends, key(300.0)), 1);
    assert_eq!(step_at(&ends, key(450.0)), 1);
    assert_eq!(step_at(&ends, key(600.0)), 2);
    assert_eq!(step_at(&ends, key(1000.0)), 2);
}

#[test]
fn zero_thresholds_are_refused() {
    assert_eq!(
        TrackerConfig::new(0, 2, 10_000),
        Err(NavError::InvalidConfig(ConfigProblem::ZeroConsecutiveThreshold))
    );
    assert_eq!(
        TrackerConfig::new(3, 0, 10_000),
        Err(NavError::InvalidConfig(ConfigProblem::ZeroConsecutiveThreshold))
    );
    assert_eq!(
        TrackerConfig::new(3, 2, 10_000),
        Ok(TrackerConfig {
            off_route_min_consecutive: 3,
            on_route_min_consecutive: 2,
            min_reroute_gap_ms: 10_000
        })
    );
}

#[test]
fn drives_through_steps_and_arrival_is_final() {
    let mut t = tracker(3, 2, 10_000);
    assert_eq!(t.current_step(), 0);
    assert_eq!(t.next_step(), 1);
    let mut seen = vec![0];
    for k in 0..=60u64 {
        let along = k as f64 * 10.0;
        accept(&mut t, fix(k * 1000, false, along));
        if *seen.last().unwrap() != t.current_step() {
            seen.push(t.current_step());
        }
    }
    assert_eq!(seen, vec![0, 1, 2]);
    assert_eq!(t.progress(), TripProgress::Arrived);
    assert_eq!(t.next_step(), 2);
    // A later fix far back along the route changes nothing.
    accept(&mut t, fix(70_000, false, 0.0));
    assert_eq!(t.current_step(), 2);
    assert!(t.arrived());
}

#[test]
fn early_advance_moves_one_step_on_the_hosts_verdict() {
    let mut t = tracker(3, 2, 10_000);
    // 15 m short of the corner: the passed step is still 0.
    assert_eq!(t.passed_step(key(285.0)), 0);
    let mut f = fix(1000, false, 285.0);
    accept(&mut t, f);
    assert_eq!(t.current_step(), 0);
    f.timestamp_ms = 2000;
    f.early_advance = true;
    accept(&mut t, f);
    assert_eq!(t.current_step(), 1);
}

#[test]
fn large_backwards_jump_resynchronises() {
    let mut t = tracker(3, 2, 10_000);
    accept(&mut t, fix(1000, false, 450.0));
    assert_eq!(t.current_step(), 1);
    // 20 m behind the start of step 1: within the tolerated backtrack.
    accept(&mut t, fix(2000, false, 280.0));
    assert_eq!(t.current_step(), 1);
    // 50 m behind it: back to the step containing the position.
    accept(&mut t, fix(3000, false, 250.0));
    assert_eq!(t.current_step(), 0);
}

#[test]
fn tracker_flags_off_route_after_consecutive_fixes_and_limits_reroutes() {
    let mut t = tracker(3, 2, 5000);
    for k in 0..5u64 {
        accept(&mut t, fix(k * 1000, false, k as f64 * 10.0));
    }
    let mut flags = Vec::new();
    let mut requests = Vec::new();
    for k in 5..17u64 {
        let needs = accept(&mut t, fix(k * 1000, true, 50.0));
        flags.push(t.is_off_route());
        if needs {
            requests.push(k);
        }
        // The step does not move while off-route.
        assert_eq!(t.current_step(), 0);
    }
    assert_eq!(&flags[..3], &[false, false, true]);
    assert_eq!(requests, vec![7, 12]);
    // One near fix is not enough to clear the flag; two are.
    accept(&mut t, fix(17_000, false, 60.0));
    assert!(t.is_off_route());
    accept(&mut t, fix(18_000, false, 70.0));
    assert!(!t.is_off_route());
}

#[test]
fn stale_guard_survives_set_route() {
    let mut t = tracker(3, 2, 10_000);
    assert_eq!(t.check_fix_time(5), Ok(()));
    accept(&mut t, fix(1_010_000, false, 350.0));
    assert_eq!(
        t.check_fix_time(1_010_000),
        Err(NavError::StaleLocation { timestamp_ms: 1_010_000, last_timestamp_ms: 1_010_000 })
    );
    assert_eq!(t.current_step(), 1);
    t.set_route(l_route_marks(30.0));
    assert_eq!(t.current_step(), 0);
    assert!(!t.arrived());
    assert_eq!(t.last_accepted_ms(), Some(1_010_000));
    assert_eq!(
        t.check_fix_time(1_003_000),
        Err(NavError::StaleLocation { timestamp_ms: 1_003_000, last_timestamp_ms: 1_010_000 })
    );
    assert_eq!(t.check_fix_time(1_040_000), Ok(()));
}

#[test]
fn arrival_needs_last_driving_step() {
    // Near the destination but still on the first of three steps: no arrival.
    let mut t = tracker(3, 2, 10_000);
    let mut f = fix(1000, false, 100.0);
    f.near_destination = true;
    accept(&mut t, f);
    assert!(!t.arrived());
    assert_eq!(t.progress(), TripProgress::Navigating);
    assert_eq!(t.step_count(), 3);
}

fn readings() -> ConfigReadings {
    ConfigReadings {
        positive: [true; 9],
        reroute_interval_valid: true,
        off_route_min_consecutive: 3,
        on_route_min_consecutive: 2,
        min_reroute_gap_ms: 10_000,
    }
}

#[test]
fn config_checks_name_the_first_failure() {
    assert_eq!(
        validate_config(&readings()),
        Ok(TrackerConfig {
            off_route_min_consecutive: 3,
            on_route_min_consecutive: 2,
            min_reroute_gap_ms: 10_000
        })
    );
    let mut r = readings();
    r.positive[1] = false;
    r.positive[8] = false;
    r.off_route_min_consecutive = 0;
    assert_eq!(
        validate_config(&r),
        Err(NavError::InvalidConfig(ConfigProblem::NotPositive(ConfigField::OffRouteDistance)))
    );
    let mut r = readings();
    r.positive[8] = false;
    assert_eq!(
        validate_config(&r),
        Err(NavError::InvalidConfig(ConfigProblem::NotPositive(ConfigField::MaxBacktrack)))
    );
    let mut r = readings();
    r.reroute_interval_valid = false;
    r.on_route_min_consecutive = 0;
    assert_eq!(
        validate_config(&r),
        Err(NavError::InvalidConfig(ConfigProblem::NegativeRerouteInterval))
    );
    let mut r = readings();
    r.on_route_min_consecutive = 0;
    assert_eq!(
        validate_config(&r),
        Err(NavError::InvalidConfig(ConfigProblem::ZeroConsecutiveThreshold))
    );
}

#[test]
fn on_route_position_lies_within_the_current_step() {
    let mut t = tracker(3, 2, 10_000);
    let ends = [300.0, 600.0, 600.0];
    for (k, along) in [10.0, 299.0, 300.0, 450.0, 599.0].iter().enumerate() {
        accept(&mut t, fix(1000 * (k as u64 + 1), false, *along));
        let cur = t.current_step();
        assert!(cur == t.step_count() - 1 || *along < ends[cur], "{along} at step {cur}");
    }
    assert_eq!(t.current_step(), 2);
    assert!(t.arrived());
}
