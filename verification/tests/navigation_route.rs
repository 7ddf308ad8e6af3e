use navcore::navigator::{validate_config, ConfigReadings, StepMarks};
use navcore::types::{
    ConfigField, ConfigProblem, ManeuverType, NavError, Route, RouteProblem, RouteStep,
};

fn positive(v: f64) -> bool {
    v.is_finite() && v > 0.0
}

fn step(instruction: &str, maneuver: ManeuverType, start: usize, end: usize, distance_m: f64) -> RouteStep {
    RouteStep {
        instruction: instruction.to_string(),
        maneuver,
        start_index: start,
        end_index: end,
        distance_valid: distance_m.is_finite() && distance_m >= 0.0,
    }
}

/// East 300 m, then north 300 m; 50 m vertex spacing (13 vertices).
fn l_route() -> Route {
    Route {
        vertex_valid: vec![true; 13],
        steps: vec![
            step("Head east", ManeuverType::Depart, 0, 6, 300.0),
            step("Turn left", ManeuverType::TurnLeft, 6, 12, 300.0),
            step("Arrive", ManeuverType::Arrive, 12, 12, 0.0),
        ],
    }
}

/// The navigator's default tunables as the configuration check reads them,
/// with the off-route distance given.
fn readings(off_route_distance_m: f64) -> ConfigReadings {
    ConfigReadings {
        positive: [
            positive(20.0),
            positive(off_route_distance_m),
            positive(15.0),
            positive(70.0),
            positive(3.0),
            positive(10.0),
            positive(50.0),
            positive(150.0),
            positive(30.0),
        ],
        reroute_interval_valid: true,
        off_route_min_consecutive: 3,
        on_route_min_consecutive: 2,
        min_reroute_gap_ms: 10_000,
    }
}

#[test]
fn rejects_bad_route_and_config() {
    let route = l_route();
    assert_eq!(route.validate_for_navigation(), Ok(()));
    assert!(matches!(validate_config(&readings(-1.0)), Err(NavError::InvalidConfig(_))));
    let mut bad_route = route;
    bad_route.steps.pop();
    // Structurally the two remaining steps still cover the geometry ...
    assert_eq!(bad_route.validate(), Ok(()));
    // ... but a navigator needs the final zero-length arrival step.
    assert!(matches!(bad_route.validate_for_navigation(), Err(NavError::InvalidRoute(_))));
}

#[test]
fn errors_map() {
    let route = Route {
        vertex_valid: vec![true, true],
        steps: vec![
            step("go", ManeuverType::Depart, 0, 1, 111.0),
            step("arrive", ManeuverType::Arrive, 1, 1, 0.0),
        ],
    };
    assert_eq!(route.validate_for_navigation(), Ok(()));
    assert!(matches!(validate_config(&readings(0.0)), Err(NavError::InvalidConfig { .. })));
    let mut no_arrive = route;
    no_arrive.steps.pop();
    assert!(matches!(no_arrive.validate_for_navigation(), Err(NavError::InvalidRoute { .. })));
}

#[test]
fn arrival_step_must_be_last_arrive_and_zero_length() {
    let mut r = l_route();
    assert_eq!(
        validate_config(&readings(0.0)),
        Err(NavError::InvalidConfig(ConfigProblem::NotPositive(ConfigField::OffRouteDistance)))
    );
    // An Arrive step spanning vertices is not a zero-length arrival.
    r.steps = vec![
        step("Head east", ManeuverType::Depart, 0, 6, 300.0),
        step("Arrive", ManeuverType::Arrive, 6, 12, 300.0),
    ];
    assert_eq!(r.validate(), Ok(()));
    assert_eq!(
        r.validate_for_navigation(),
        Err(NavError::InvalidRoute(RouteProblem::NoArrivalStep))
    );
    // A zero-length final step that is not an Arrive step.
    let mut r = l_route();
    r.steps[2].maneuver = ManeuverType::Straight;
    assert_eq!(
        r.validate_for_navigation(),
        Err(NavError::InvalidRoute(RouteProblem::NoArrivalStep))
    );
    // Structural problems come first.
    let mut r = l_route();
    r.steps[1].start_index = 5;
    assert_eq!(
        r.validate_for_navigation(),
        Err(NavError::InvalidRoute(RouteProblem::StepGap { step: 1, start: 5, expected: 6 }))
    );
}

#[test]
fn marks_fit_only_in_route_order() {
    let fit = StepMarks { end_keys: vec![1, 2, 2], resync_keys: vec![0, 0, 0] };
    assert!(fit.fit());
    let out_of_order = StepMarks { end_keys: vec![3, 2, 4], resync_keys: vec![0, 0, 0] };
    assert!(!out_of_order.fit());
    let mismatched = StepMarks { end_keys: vec![1, 2], resync_keys: vec![0] };
    assert!(!mismatched.fit());
    let empty = StepMarks { end_keys: vec![], resync_keys: vec![] };
    assert!(!empty.fit());
}
