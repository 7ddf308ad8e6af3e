use navcore::ffi::index_to_u32;
use navcore::fixtures::{check_truth_length, fixtures_dir, Expected};
use navcore::types::{JsonProblem, NavError};

#[test]
fn fixtures_dir_is_two_levels_up() {
    assert_eq!(fixtures_dir("/repo/crates/navcore"), "/repo/crates/navcore/../../fixtures");
}

#[test]
fn truth_must_match_trace_when_present() {
    assert_eq!(check_truth_length(0, 17), Ok(()));
    assert_eq!(check_truth_length(17, 17), Ok(()));
    assert_eq!(
        check_truth_length(16, 17),
        Err(NavError::InvalidJson(JsonProblem::TruthLength { truth: 16, trace: 17 }))
    );
}

#[test]
fn expected_defaults_to_nothing() {
    let e = Expected::default();
    assert!(e.step_sequence.is_empty());
    assert!(e.off_route_ranges.is_empty());
    assert!(!e.arrives);
}

#[test]
fn index_to_u32_saturates() {
    assert_eq!(index_to_u32(0), 0);
    assert_eq!(index_to_u32(123_456), 123_456);
    assert_eq!(index_to_u32(u32::MAX as usize), u32::MAX);
    assert_eq!(index_to_u32(u32::MAX as usize + 1), u32::MAX);
}
