use navcore::types::{check_geometry, ManeuverType, NavError, Route, RouteProblem, RouteStep};

/// Same test as the host applies to a coordinate: finite and in range.
fn coordinate_valid(lat: f64, lng: f64) -> bool {
    lat.is_finite() && lng.is_finite() && (-90.0..=90.0).contains(&lat) && (-180.0..=180.0).contains(&lng)
}

fn geometry(n: usize) -> Vec<(f64, f64)> {
    (0..n).map(|i| (0.0, i as f64 * 0.001)).collect()
}

fn validity(g: &[(f64, f64)]) -> Vec<bool> {
    g.iter().map(|&(lat, lng)| coordinate_valid(lat, lng)).collect()
}

fn step(start: usize, end: usize) -> RouteStep {
    let distance_m: f64 = 1.0;
    RouteStep {
        instruction: String::new(),
        maneuver: ManeuverType::Straight,
        start_index: start,
        end_index: end,
        distance_valid: distance_m.is_finite() && distance_m >= 0.0,
    }
}

fn route(g: &[(f64, f64)], steps: Vec<RouteStep>) -> Route {
    Route { vertex_valid: validity(g), steps }
}

#[test]
fn valid_route_passes() {
    let route = route(&geometry(5), vec![step(0, 2), step(2, 4)]);
    assert_eq!(route.validate(), Ok(()));
}

#[test]
fn rejects_short_geometry() {
    let route = route(&geometry(1), vec![step(0, 0)]);
    assert!(matches!(route.validate(), Err(NavError::InvalidRoute(_))));
}

#[test]
fn rejects_gap_between_steps() {
    let route = route(&geometry(5), vec![step(0, 2), step(3, 4)]);
    assert!(route.validate().is_err());
}

#[test]
fn rejects_steps_not_reaching_end() {
    let route = route(&geometry(5), vec![step(0, 3)]);
    assert!(route.validate().is_err());
}

#[test]
fn rejects_invalid_coordinate() {
    let mut g = geometry(3);
    g[1].0 = 95.0;
    let route = route(&g, vec![step(0, 2)]);
    assert!(route.validate().is_err());
}

#[test]
fn each_problem_is_reported_with_its_indices() {
    let g = geometry(5);
    assert_eq!(
        route(&g[..1], vec![step(0, 0)]).validate(),
        Err(NavError::InvalidRoute(RouteProblem::TooFewVertices))
    );
    let mut bad = g.clone();
    bad[3].1 = f64::NAN;
    bad[4].0 = -91.0;
    assert_eq!(
        route(&bad, vec![step(0, 4)]).validate(),
        Err(NavError::InvalidRoute(RouteProblem::InvalidVertex { index: 3 }))
    );
    assert_eq!(route(&g, vec![]).validate(), Err(NavError::InvalidRoute(RouteProblem::NoSteps)));
    assert_eq!(
        route(&g, vec![step(0, 2), step(3, 4)]).validate(),
        Err(NavError::InvalidRoute(RouteProblem::StepGap { step: 1, start: 3, expected: 2 }))
    );
    assert_eq!(
        route(&g, vec![step(1, 4)]).validate(),
        Err(NavError::InvalidRoute(RouteProblem::StepGap { step: 0, start: 1, expected: 0 }))
    );
    assert_eq!(
        route(&g, vec![step(0, 3), step(3, 2)]).validate(),
        Err(NavError::InvalidRoute(RouteProblem::StepEndsBeforeStart { step: 1 }))
    );
    assert_eq!(
        route(&g, vec![step(0, 5)]).validate(),
        Err(NavError::InvalidRoute(RouteProblem::StepPastEnd { step: 0, end: 5, vertex_count: 5 }))
    );
    let mut s = step(2, 4);
    s.distance_valid = false;
    assert_eq!(
        route(&g, vec![step(0, 2), s]).validate(),
        Err(NavError::InvalidRoute(RouteProblem::InvalidStepDistance { step: 1 }))
    );
    assert_eq!(
        route(&g, vec![step(0, 1), step(1, 3)]).validate(),
        Err(NavError::InvalidRoute(RouteProblem::StepsEndEarly { end: 3, last_vertex: 4 }))
    );
}

#[test]
fn first_failing_check_wins() {
    let g = geometry(5);
    // A gap in step 1 is reported even though step 2 runs past the end.
    assert_eq!(
        route(&g, vec![step(0, 2), step(1, 3), step(3, 9)]).validate(),
        Err(NavError::InvalidRoute(RouteProblem::StepGap { step: 1, start: 1, expected: 2 }))
    );
    // An invalid vertex is reported before any step problem.
    let mut bad = g.clone();
    bad[0].1 = 200.0;
    assert_eq!(
        route(&bad, vec![]).validate(),
        Err(NavError::InvalidRoute(RouteProblem::InvalidVertex { index: 0 }))
    );
}

#[test]
fn zero_length_arrival_step_is_valid() {
    let g = geometry(13);
    let route = route(&g, vec![step(0, 6), step(6, 12), step(12, 12)]);
    assert_eq!(route.validate(), Ok(()));
}

#[test]
fn geometry_check_alone() {
    assert_eq!(check_geometry(&vec![true, true]), Ok(()));
    assert_eq!(
        check_geometry(&vec![]),
        Err(NavError::InvalidRoute(RouteProblem::TooFewVertices))
    );
    assert_eq!(
        check_geometry(&vec![true, false, false]),
        Err(NavError::InvalidRoute(RouteProblem::InvalidVertex { index: 1 }))
    );
}
