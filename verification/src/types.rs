//! Value types shared across the core, and the structural checks on routes.
//!
//! Coordinates and distances are real numbers that the host keeps; this
//! library sees a route through what its checks read: whether each vertex has
//! a usable coordinate, and for each step its vertex span and whether its
//! length is a usable distance.

use vstd::prelude::*;

verus! {

/// The kind of manoeuvre a [`RouteStep`] begins with.
#[derive(Debug, Clone, Copy, PartialEq, Eq, Hash, Structural)]
pub enum ManeuverType {
    /// Start of the route.
    Depart,
    /// Turn left.
    TurnLeft,
    /// Turn right.
    TurnRight,
    /// Bear left.
    SlightLeft,
    /// Bear right.
    SlightRight,
    /// Continue straight.
    Straight,
    /// Make a U-turn.
    UTurn,
    /// End of the route.
    Arrive,
}

/// Coarse trip lifecycle.
#[derive(Debug, Clone, Copy, PartialEq, Eq, Hash, Structural)]
pub enum TripProgress {
    /// No location has been accepted yet.
    NotStarted,
    /// Actively navigating.
    Navigating,
    /// Arrived at the final vertex of the last step.
    Arrived,
}

/// One instruction-bearing leg of a [`Route`], covering geometry vertices
/// `start_index..=end_index`.
#[derive(Debug, Clone)]
pub struct RouteStep {
    /// Human-readable instruction, e.g. "Turn left onto High Street".
    pub instruction: String,
    /// The manoeuvre performed at the *start* of this step.
    pub maneuver: ManeuverType,
    /// Index into the route geometry where this step starts.
    pub start_index: usize,
    /// Index into the route geometry where this step ends (inclusive). The
    /// next step's `start_index` equals this value.
    pub end_index: usize,
    /// Whether the step's length is a finite, non-negative number of metres.
    pub distance_valid: bool,
}

/// A route: a polyline plus the steps that partition it.
#[derive(Debug, Clone)]
pub struct Route {
    /// One entry per polyline vertex: whether its coordinate is finite and
    /// inside the valid latitude/longitude ranges.
    pub vertex_valid: Vec<bool>,
    /// Steps in order; contiguous and covering the whole geometry.
    pub steps: Vec<RouteStep>,
}

/// Why a route failed structural validation.
#[derive(Debug, Clone, Copy, PartialEq, Eq, Structural)]
pub enum RouteProblem {
    /// Fewer than two geometry vertices.
    TooFewVertices,
    /// The first vertex whose coordinate is invalid.
    InvalidVertex { index: usize },
    /// The route has no steps.
    NoSteps,
    /// A step does not start where the previous one ended (or, for the first
    /// step, at vertex 0).
    StepGap { step: usize, start: usize, expected: usize },
    /// A step ends before it starts.
    StepEndsBeforeStart { step: usize },
    /// A step ends beyond the last vertex.
    StepPastEnd { step: usize, end: usize, vertex_count: usize },
    /// A step has a non-finite or negative length.
    InvalidStepDistance { step: usize },
    /// The steps stop before the last vertex.
    StepsEndEarly { end: usize, last_vertex: usize },
    /// The last step is not a zero-length `Arrive` step on the final vertex
    /// (a navigator needs one to announce arrival).
    NoArrivalStep,
}

/// The real-valued navigator tunables that must be positive, in the order
/// they are checked.
#[derive(Debug, Clone, Copy, PartialEq, Eq, Structural)]
pub enum ConfigField {
    StepAdvanceDistance,
    OffRouteDistance,
    ArrivalDistance,
    MaxSpeed,
    ProcessNoiseAccel,
    DefaultAccuracy,
    CandidateRadius,
    WidenedCandidateRadius,
    MaxBacktrack,
}

/// Why a configuration was refused.
#[derive(Debug, Clone, Copy, PartialEq, Eq, Structural)]
pub enum ConfigProblem {
    /// A tunable that must be positive is not a finite positive number.
    NotPositive(ConfigField),
    /// The minimum time between reroutes is not a finite non-negative number.
    NegativeRerouteInterval,
    /// A consecutive-fix threshold is zero.
    ZeroConsecutiveThreshold,
}

/// Why a JSON document was refused.
#[derive(Debug, Clone, PartialEq, Eq)]
pub enum JsonProblem {
    /// The text does not parse into the expected shape; the parser's message.
    Syntax(String),
    /// Ground truth is present but its length differs from the trace's.
    TruthLength { truth: usize, trace: usize },
}

/// All errors the core can produce.
#[derive(Debug, Clone, PartialEq, Eq)]
pub enum NavError {
    /// The route failed structural validation.
    InvalidRoute(RouteProblem),
    /// The fix is not newer than the last accepted fix.
    StaleLocation {
        /// Timestamp of the rejected fix.
        timestamp_ms: u64,
        /// Timestamp of the last accepted fix.
        last_timestamp_ms: u64,
    },
    /// The fix implies a speed above the configured limit.
    ImplausibleLocation,
    /// The fix has a non-finite or out-of-range coordinate.
    InvalidLocation,
    /// The configuration was refused.
    InvalidConfig(ConfigProblem),
    /// JSON could not be turned into a route or fixture.
    InvalidJson(JsonProblem),
}

/// Index of the first `false` in `v` at or after `from`, if any.
pub open spec fn first_false_from(v: Seq<bool>, from: int) -> Option<int>
    decreases v.len() - from,
{
    if from < 0 || from >= v.len() {
        None
    } else if !v[from] {
        Some(from)
    } else {
        first_false_from(v, from + 1)
    }
}

/// The geometry check: at least two vertices, every vertex valid.
pub open spec fn geometry_check(vertex_valid: Seq<bool>) -> Result<(), RouteProblem> {
    if vertex_valid.len() < 2 {
        Err(RouteProblem::TooFewVertices)
    } else {
        match first_false_from(vertex_valid, 0) {
            Some(i) => Err(RouteProblem::InvalidVertex { index: i as usize }),
            None => Ok(()),
        }
    }
}

/// Where step `i` must start: vertex 0 for the first step, else where the
/// previous step ended.
pub open spec fn expected_start(steps: Seq<RouteStep>, i: int) -> int {
    if i == 0 {
        0
    } else {
        steps[i - 1].end_index as int
    }
}

/// What is wrong with step `i` on its own, given the index of the last vertex.
pub open spec fn step_problem(steps: Seq<RouteStep>, i: int, last_vertex: int) -> Option<
    RouteProblem,
> {
    let s = steps[i];
    if s.start_index != expected_start(steps, i) {
        Some(
            RouteProblem::StepGap {
                step: i as usize,
                start: s.start_index,
                expected: expected_start(steps, i) as usize,
            },
        )
    } else if s.end_index < s.start_index {
        Some(RouteProblem::StepEndsBeforeStart { step: i as usize })
    } else if s.end_index > last_vertex {
        Some(
            RouteProblem::StepPastEnd {
                step: i as usize,
                end: s.end_index,
                vertex_count: (last_vertex + 1) as usize,
            },
        )
    } else if !s.distance_valid {
        Some(RouteProblem::InvalidStepDistance { step: i as usize })
    } else {
        None
    }
}

/// The problem of the first faulty step at or after `from`, if any.
pub open spec fn first_step_problem(steps: Seq<RouteStep>, from: int, last_vertex: int) -> Option<
    RouteProblem,
>
    decreases steps.len() - from,
{
    if from < 0 || from >= steps.len() {
        None
    } else {
        match step_problem(steps, from, last_vertex) {
            Some(p) => Some(p),
            None => first_step_problem(steps, from + 1, last_vertex),
        }
    }
}

/// The full structural check of a route, in the order the checks are made.
pub open spec fn route_check(vertex_valid: Seq<bool>, steps: Seq<RouteStep>) -> Result<
    (),
    RouteProblem,
> {
    let last_vertex = vertex_valid.len() - 1;
    if geometry_check(vertex_valid) is Err {
        geometry_check(vertex_valid)
    } else if steps.len() == 0 {
        Err(RouteProblem::NoSteps)
    } else {
        match first_step_problem(steps, 0, last_vertex) {
            Some(p) => Err(p),
            None => if steps.last().end_index != last_vertex {
                Err(
                    RouteProblem::StepsEndEarly {
                        end: steps.last().end_index,
                        last_vertex: last_vertex as usize,
                    },
                )
            } else {
                Ok(())
            },
        }
    }
}

/// The checked form of a route: the steps are contiguous, each spans a
/// non-empty-or-single vertex range inside the geometry, and together they
/// cover vertex 0 through the last vertex.
pub open spec fn partitions_geometry(vertex_count: int, steps: Seq<RouteStep>) -> bool {
    &&& vertex_count >= 2
    &&& steps.len() >= 1
    &&& steps[0].start_index == 0
    &&& steps.last().end_index == vertex_count - 1
    &&& forall|i: int|
        #![trigger steps[i]]
        0 <= i < steps.len() ==> steps[i].start_index <= steps[i].end_index && steps[i].end_index
            < vertex_count && steps[i].distance_valid
    &&& forall|i: int|
        #![trigger steps[i].start_index]
        1 <= i < steps.len() ==> steps[i].start_index == steps[i - 1].end_index
}

/// The last step is the arrival: an `Arrive` step that starts and ends on
/// the same vertex.
pub open spec fn ends_with_arrival(steps: Seq<RouteStep>) -> bool {
    &&& steps.len() >= 1
    &&& steps.last().maneuver == ManeuverType::Arrive
    &&& steps.last().start_index == steps.last().end_index
}

/// The check of a route handed to a navigator: the structural check, then
/// the final arrival step.
pub open spec fn navigation_route_check(vertex_valid: Seq<bool>, steps: Seq<RouteStep>) -> Result<
    (),
    RouteProblem,
> {
    match route_check(vertex_valid, steps) {
        Err(p) => Err(p),
        Ok(()) => if ends_with_arrival(steps) {
            Ok(())
        } else {
            Err(RouteProblem::NoArrivalStep)
        },
    }
}

/// `first_false_from` finds the first `false` at or after `from`: it
/// returns `None` when there is none, otherwise an index holding `false`
/// with only `true` before it.
pub proof fn lemma_first_false_is_first(v: Seq<bool>, from: int)
    requires
        0 <= from,
    ensures
        first_false_from(v, from) is None <==> forall|i: int| from <= i < v.len() ==> v[i],
        first_false_from(v, from) matches Some(i) ==> from <= i < v.len() && !v[i] && forall|
            j: int,
        |
            from <= j < i ==> v[j],
    decreases v.len() - from,
{
    if from < v.len() {
        lemma_first_false_is_first(v, from + 1);
    }
}

proof fn lemma_first_false_none(v: Seq<bool>, from: int)
    requires
        0 <= from,
        first_false_from(v, from) is None,
    ensures
        forall|i: int| from <= i < v.len() ==> v[i],
    decreases v.len() - from,
{
    if from < v.len() {
        lemma_first_false_none(v, from + 1);
    }
}

proof fn lemma_first_step_problem_none(steps: Seq<RouteStep>, from: int, last_vertex: int)
    requires
        0 <= from,
        first_step_problem(steps, from, last_vertex) is None,
    ensures
        forall|i: int|
            from <= i < steps.len() ==> #[trigger] step_problem(steps, i, last_vertex) is None,
    decreases steps.len() - from,
{
    if from < steps.len() {
        lemma_first_step_problem_none(steps, from + 1, last_vertex);
    }
}

proof fn lemma_first_false_all_true(v: Seq<bool>, from: int)
    requires
        0 <= from,
        forall|i: int| from <= i < v.len() ==> v[i],
    ensures
        first_false_from(v, from) is None,
    decreases v.len() - from,
{
    if from < v.len() {
        lemma_first_false_all_true(v, from + 1);
    }
}

proof fn lemma_first_step_problem_all_none(steps: Seq<RouteStep>, from: int, last_vertex: int)
    requires
        0 <= from,
        forall|i: int|
            from <= i < steps.len() ==> #[trigger] step_problem(steps, i, last_vertex) is None,
    ensures
        first_step_problem(steps, from, last_vertex) is None,
    decreases steps.len() - from,
{
    if from < steps.len() {
        assert(step_problem(steps, from, last_vertex) is None);
        lemma_first_step_problem_all_none(steps, from + 1, last_vertex);
    }
}

/// A route passes the structural check exactly when every vertex is valid
/// and its steps partition the geometry: the first starts at vertex 0, each
/// starts where the previous ended, none runs backwards or past the end,
/// each has a usable length, and the last ends on the final vertex.
pub proof fn lemma_route_check_ok_iff_partition(vertex_valid: Seq<bool>, steps: Seq<RouteStep>)
    ensures
        route_check(vertex_valid, steps) is Ok <==> (partitions_geometry(
            vertex_valid.len() as int,
            steps,
        ) && forall|i: int| 0 <= i < vertex_valid.len() ==> vertex_valid[i]),
{
    let last_vertex = vertex_valid.len() - 1;
    let vc = vertex_valid.len() as int;
    if route_check(vertex_valid, steps) is Ok {
        lemma_first_false_none(vertex_valid, 0);
        lemma_first_step_problem_none(steps, 0, last_vertex);
        assert(step_problem(steps, 0, last_vertex) is None);
        assert forall|i: int| #![trigger steps[i].start_index] 1 <= i < steps.len() implies steps[
            i].start_index == steps[i - 1].end_index by {
            assert(step_problem(steps, i, last_vertex) is None);
        }
        assert forall|i: int| #![trigger steps[i]] 0 <= i < steps.len() implies steps[i].start_index
            <= steps[i].end_index && steps[i].end_index < vc && steps[i].distance_valid by {
            assert(step_problem(steps, i, last_vertex) is None);
        }
        assert(partitions_geometry(vc, steps));
    }
    if partitions_geometry(vc, steps) && forall|i: int|
        0 <= i < vertex_valid.len() ==> vertex_valid[i] {
        lemma_first_false_all_true(vertex_valid, 0);
        assert forall|i: int| 0 <= i < steps.len() implies #[trigger] step_problem(
            steps,
            i,
            last_vertex,
        ) is None by {
            assert(steps[i].start_index <= steps[i].end_index);
            if i > 0 {
                assert(steps[i].start_index == steps[i - 1].end_index);
            }
        }
        lemma_first_step_problem_all_none(steps, 0, last_vertex);
    }
}

/// Geometry check shared by route validation and route indexing: at least
/// two vertices, and every vertex coordinate valid.
pub fn check_geometry(vertex_valid: &Vec<bool>) -> (r: Result<(), NavError>)
    ensures
        r == (match geometry_check(vertex_valid@) {
            Ok(()) => Ok(()),
            Err(p) => Err(NavError::InvalidRoute(p)),
        }),
{
    if vertex_valid.len() < 2 {
        return Err(NavError::InvalidRoute(RouteProblem::TooFewVertices));
    }
    let n = vertex_valid.len();
    let mut i: usize = 0;
    while i < n
        invariant
            n == vertex_valid@.len(),
            n >= 2,
            0 <= i <= n,
            forall|j: int| 0 <= j < i ==> vertex_valid@[j],
            first_false_from(vertex_valid@, 0) == first_false_from(vertex_valid@, i as int),
        decreases n - i,
    {
        if !vertex_valid[i] {
            assert(first_false_from(vertex_valid@, i as int) == Some(i as int));
            assert(geometry_check(vertex_valid@) == Err::<(), RouteProblem>(
                RouteProblem::InvalidVertex { index: i },
            ));
            return Err(NavError::InvalidRoute(RouteProblem::InvalidVertex { index: i }));
        }
        assert(first_false_from(vertex_valid@, i as int) == first_false_from(
            vertex_valid@,
            i + 1,
        ));
        i = i + 1;
    }
    Ok(())
}

impl Route {
    /// Structural validation: enough geometry, valid coordinates, contiguous
    /// steps with usable lengths that cover the whole polyline. The error
    /// names the first check that fails, in that order.
    pub fn validate(&self) -> (r: Result<(), NavError>)
        ensures
            r == (match route_check(self.vertex_valid@, self.steps@) {
                Ok(()) => Ok(()),
                Err(p) => Err(NavError::InvalidRoute(p)),
            }),
    {
        check_geometry(&self.vertex_valid)?;
        if self.steps.len() == 0 {
            return Err(NavError::InvalidRoute(RouteProblem::NoSteps));
        }
        let last_vertex = self.vertex_valid.len() - 1;
        let ghost steps = self.steps@;
        let n = self.steps.len();
        let mut expected: usize = 0;
        let mut i: usize = 0;
        while i < n
            invariant
                n == steps.len(),
                steps == self.steps@,
                steps.len() > 0,
                geometry_check(self.vertex_valid@) is Ok,
                last_vertex == self.vertex_valid@.len() - 1,
                0 <= i <= n,
                i < n ==> expected == expected_start(steps, i as int),
                i == n ==> expected == steps[n - 1].end_index,
                expected <= last_vertex,
                first_step_problem(steps, 0, last_vertex as int) == first_step_problem(
                    steps,
                    i as int,
                    last_vertex as int,
                ),
            decreases n - i,
        {
            let step = &self.steps[i];
            assert(first_step_problem(steps, i as int, last_vertex as int) == match step_problem(
                steps,
                i as int,
                last_vertex as int,
            ) {
                Some(p) => Some(p),
                None => first_step_problem(steps, i + 1, last_vertex as int),
            });
            if step.start_index != expected {
                return Err(
                    NavError::InvalidRoute(
                        RouteProblem::StepGap { step: i, start: step.start_index, expected },
                    ),
                );
            }
            if step.end_index < step.start_index {
                return Err(NavError::InvalidRoute(RouteProblem::StepEndsBeforeStart { step: i }));
            }
            if step.end_index > last_vertex {
                return Err(
                    NavError::InvalidRoute(
                        RouteProblem::StepPastEnd {
                            step: i,
                            end: step.end_index,
                            vertex_count: self.vertex_valid.len(),
                        },
                    ),
                );
            }
            if !step.distance_valid {
                return Err(NavError::InvalidRoute(RouteProblem::InvalidStepDistance { step: i }));
            }
            expected = step.end_index;
            i = i + 1;
        }
        if expected != last_vertex {
            return Err(
                NavError::InvalidRoute(RouteProblem::StepsEndEarly { end: expected, last_vertex }),
            );
        }
        Ok(())
    }

    /// The check of a route before a navigator takes it: the structural
    /// validation, then the last step must be a zero-length `Arrive` step
    /// (starting and ending on the final vertex).
    pub fn validate_for_navigation(&self) -> (r: Result<(), NavError>)
        ensures
            r == (match navigation_route_check(self.vertex_valid@, self.steps@) {
                Ok(()) => Ok(()),
                Err(p) => Err(NavError::InvalidRoute(p)),
            }),
    {
        self.validate()?;
        let n = self.steps.len();
        let last = &self.steps[n - 1];
        if last.maneuver == ManeuverType::Arrive && last.start_index == last.end_index {
            Ok(())
        } else {
            Err(NavError::InvalidRoute(RouteProblem::NoArrivalStep))
        }
    }
}

} // verus!
