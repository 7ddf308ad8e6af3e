use navcore::filter::{FixGate, FixTiming, FixVerdict};
use navcore::types::NavError;

#[test]
fn first_fix_initialises_and_sets_the_bound() {
    let mut g = FixGate::new(5);
    assert_eq!(g.timing(1000), Ok(FixTiming::First));
    assert_eq!(g.judge(1000, false), Ok(FixVerdict::Initialise));
    assert_eq!(g.last_timestamp_ms(), Some(1000));
    assert_eq!(g.timing(2500), Ok(FixTiming::After { elapsed_ms: 1500 }));
}

#[test]
fn stale_fixes_are_refused_and_change_nothing() {
    let mut g = FixGate::new(5);
    g.judge(1000, false).unwrap();
    assert_eq!(
        g.judge(1000, false),
        Err(NavError::StaleLocation { timestamp_ms: 1000, last_timestamp_ms: 1000 })
    );
    assert_eq!(
        g.judge(500, false),
        Err(NavError::StaleLocation { timestamp_ms: 500, last_timestamp_ms: 1000 })
    );
    assert_eq!(g.last_timestamp_ms(), Some(1000));
}

#[test]
fn implausible_fixes_restart_on_the_limit() {
    let mut g = FixGate::new(3);
    g.judge(1000, false).unwrap();
    assert_eq!(g.judge(2000, true), Err(NavError::ImplausibleLocation));
    assert_eq!(g.judge(3000, true), Err(NavError::ImplausibleLocation));
    assert_eq!(g.last_timestamp_ms(), Some(1000));
    // Third strike: the filter gives up and re-initialises on the new fix.
    assert_eq!(g.judge(4000, true), Ok(FixVerdict::Restart));
    assert_eq!(g.last_timestamp_ms(), Some(4000));
    // The count starts over.
    assert_eq!(g.judge(5000, true), Err(NavError::ImplausibleLocation));
}

#[test]
fn a_plausible_fix_resets_the_count() {
    let mut g = FixGate::new(2);
    g.judge(1000, false).unwrap();
    assert_eq!(g.judge(2000, true), Err(NavError::ImplausibleLocation));
    assert_eq!(g.judge(3000, false), Ok(FixVerdict::Update));
    assert_eq!(g.judge(4000, true), Err(NavError::ImplausibleLocation));
    g.reset();
    assert_eq!(g.last_timestamp_ms(), None);
    assert_eq!(g.judge(100, true), Ok(FixVerdict::Initialise));
}
