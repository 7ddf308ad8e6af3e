//! The navigator's decisions: the stale-fix guard, off-route hysteresis,
//! rate-limited reroute requests and step advancement with arrival.
//!
//! [`TripTracker`] holds the trip's discrete state. The host turns each fix
//! into the facts these decisions read (see [`MatchedFix`]): whether the
//! matched position is beyond the off-route distance, the distance key of the
//! position along the route, whether the early-advance test passes for the
//! step the position has reached, and whether the destination is within the
//! arrival distance.

use vstd::prelude::*;

use crate::geo::{
    count_at_most, keys_in_order, keys_sorted, lemma_count_at_most_splits, partition_point_at_most,
};
use crate::types::{
    first_false_from, lemma_first_false_is_first, ConfigField, ConfigProblem, NavError, TripProgress,
};

verus! {

/// The thresholds the navigator's decisions use.
#[derive(Debug, Clone, Copy, PartialEq, Eq, Structural)]
pub struct TrackerConfig {
    /// Consecutive off-route fixes before the trip counts as off-route.
    pub off_route_min_consecutive: u32,
    /// Consecutive on-route fixes before the trip counts as on-route again.
    pub on_route_min_consecutive: u32,
    /// Minimum gap between reroute requests, milliseconds.
    pub min_reroute_gap_ms: u64,
}

impl TrackerConfig {
    /// Checked construction: both consecutive-fix thresholds must be at
    /// least 1.
    pub fn new(
        off_route_min_consecutive: u32,
        on_route_min_consecutive: u32,
        min_reroute_gap_ms: u64,
    ) -> (r: Result<TrackerConfig, NavError>)
        ensures
            off_route_min_consecutive == 0 || on_route_min_consecutive == 0 ==> r == Err::<
                TrackerConfig,
                NavError,
            >(NavError::InvalidConfig(ConfigProblem::ZeroConsecutiveThreshold)),
            off_route_min_consecutive > 0 && on_route_min_consecutive > 0 ==> r == Ok::<
                TrackerConfig,
                NavError,
            >(TrackerConfig { off_route_min_consecutive, on_route_min_consecutive, min_reroute_gap_ms }),
    {
        if off_route_min_consecutive == 0 || on_route_min_consecutive == 0 {
            Err(NavError::InvalidConfig(ConfigProblem::ZeroConsecutiveThreshold))
        } else {
            Ok(TrackerConfig { off_route_min_consecutive, on_route_min_consecutive, min_reroute_gap_ms })
        }
    }
}

/// What the configuration checks read of a navigator configuration.
#[derive(Debug, Clone, Copy, PartialEq, Eq)]
pub struct ConfigReadings {
    /// For each tunable that must be positive, in [`ConfigField`] order,
    /// whether it is a finite number above zero.
    pub positive: [bool; 9],
    /// Whether the minimum time between reroutes is finite and not negative.
    pub reroute_interval_valid: bool,
    /// Consecutive off-route fixes before the trip counts as off-route.
    pub off_route_min_consecutive: u32,
    /// Consecutive on-route fixes before the trip counts as on-route again.
    pub on_route_min_consecutive: u32,
    /// Minimum gap between reroute requests, whole milliseconds.
    pub min_reroute_gap_ms: u64,
}

/// The tunable checked in position `i`.
pub open spec fn field_at(i: int) -> ConfigField {
    if i == 0 {
        ConfigField::StepAdvanceDistance
    } else if i == 1 {
        ConfigField::OffRouteDistance
    } else if i == 2 {
        ConfigField::ArrivalDistance
    } else if i == 3 {
        ConfigField::MaxSpeed
    } else if i == 4 {
        ConfigField::ProcessNoiseAccel
    } else if i == 5 {
        ConfigField::DefaultAccuracy
    } else if i == 6 {
        ConfigField::CandidateRadius
    } else if i == 7 {
        ConfigField::WidenedCandidateRadius
    } else {
        ConfigField::MaxBacktrack
    }
}

/// The configuration check, in order: every tunable that must be positive
/// (the first failing one is named), then the reroute interval, then the
/// consecutive-fix thresholds.
pub open spec fn config_check(r: ConfigReadings) -> Result<TrackerConfig, NavError> {
    match first_false_from(r.positive@, 0) {
        Some(i) => Err(NavError::InvalidConfig(ConfigProblem::NotPositive(field_at(i)))),
        None => if !r.reroute_interval_valid {
            Err(NavError::InvalidConfig(ConfigProblem::NegativeRerouteInterval))
        } else if r.off_route_min_consecutive == 0 || r.on_route_min_consecutive == 0 {
            Err(NavError::InvalidConfig(ConfigProblem::ZeroConsecutiveThreshold))
        } else {
            Ok(
                TrackerConfig {
                    off_route_min_consecutive: r.off_route_min_consecutive,
                    on_route_min_consecutive: r.on_route_min_consecutive,
                    min_reroute_gap_ms: r.min_reroute_gap_ms,
                },
            )
        },
    }
}

/// A configuration is accepted exactly when every tunable that must be
/// positive is, the reroute interval is valid and both consecutive-fix
/// thresholds are at least 1, and then its thresholds are taken as given.
/// Otherwise the error names the first failing check: the first tunable, in
/// [`ConfigField`] order, that is not positive; else the reroute interval;
/// else the thresholds.
pub proof fn lemma_config_check_names_first_failure(r: ConfigReadings)
    ensures
        config_check(r) is Ok <==> ((forall|i: int| 0 <= i < 9 ==> r.positive[i])
            && r.reroute_interval_valid && r.off_route_min_consecutive >= 1
            && r.on_route_min_consecutive >= 1),
        config_check(r) is Ok ==> config_check(r) == Ok::<TrackerConfig, NavError>(
            TrackerConfig {
                off_route_min_consecutive: r.off_route_min_consecutive,
                on_route_min_consecutive: r.on_route_min_consecutive,
                min_reroute_gap_ms: r.min_reroute_gap_ms,
            },
        ),
        forall|i: int|
            0 <= i < 9 && !r.positive[i] && (forall|j: int| 0 <= j < i ==> r.positive[j])
                ==> config_check(r) == Err::<TrackerConfig, NavError>(
                NavError::InvalidConfig(ConfigProblem::NotPositive(#[trigger] field_at(i))),
            ),
        !r.positive[0] ==> config_check(r) == Err::<TrackerConfig, NavError>(
            NavError::InvalidConfig(ConfigProblem::NotPositive(ConfigField::StepAdvanceDistance)),
        ),
        (forall|i: int| 0 <= i < 9 ==> r.positive[i]) && !r.reroute_interval_valid ==> config_check(
            r,
        ) == Err::<TrackerConfig, NavError>(
            NavError::InvalidConfig(ConfigProblem::NegativeRerouteInterval),
        ),
        (forall|i: int| 0 <= i < 9 ==> r.positive[i]) && r.reroute_interval_valid && (
        r.off_route_min_consecutive == 0 || r.on_route_min_consecutive == 0) ==> config_check(r)
            == Err::<TrackerConfig, NavError>(
            NavError::InvalidConfig(ConfigProblem::ZeroConsecutiveThreshold),
        ),
{
    lemma_first_false_is_first(r.positive@, 0);
    assert forall|i: int|
        0 <= i < 9 && !r.positive[i] && (forall|j: int| 0 <= j < i ==> r.positive[j]) implies config_check(r)
        == Err::<TrackerConfig, NavError>(
        NavError::InvalidConfig(ConfigProblem::NotPositive(#[trigger] field_at(i))),
    ) by {
        let f = first_false_from(r.positive@, 0);
        assert(f is Some);
        let k = f->0;
        if k < i {
            assert(r.positive[k]);
        } else if k > i {
            assert(r.positive@[i]);
        }
    }
}

fn field_at_exec(i: usize) -> (f: ConfigField)
    ensures
        f == field_at(i as int),
{
    if i == 0 {
        ConfigField::StepAdvanceDistance
    } else if i == 1 {
        ConfigField::OffRouteDistance
    } else if i == 2 {
        ConfigField::ArrivalDistance
    } else if i == 3 {
        ConfigField::MaxSpeed
    } else if i == 4 {
        ConfigField::ProcessNoiseAccel
    } else if i == 5 {
        ConfigField::DefaultAccuracy
    } else if i == 6 {
        ConfigField::CandidateRadius
    } else if i == 7 {
        ConfigField::WidenedCandidateRadius
    } else {
        ConfigField::MaxBacktrack
    }
}

/// Check a navigator configuration and take its decision thresholds; the
/// error names the first check that fails.
pub fn validate_config(r: &ConfigReadings) -> (res: Result<TrackerConfig, NavError>)
    ensures
        res == config_check(*r),
{
    let mut i: usize = 0;
    while i < 9
        invariant
            r.positive@.len() == 9,
            0 <= i <= 9,
            first_false_from(r.positive@, 0) == first_false_from(r.positive@, i as int),
        decreases 9 - i,
    {
        if !r.positive[i] {
            assert(first_false_from(r.positive@, i as int) == Some(i as int));
            return Err(NavError::InvalidConfig(ConfigProblem::NotPositive(field_at_exec(i))));
        }
        assert(first_false_from(r.positive@, i as int) == first_false_from(r.positive@, i + 1));
        i = i + 1;
    }
    if !r.reroute_interval_valid {
        return Err(NavError::InvalidConfig(ConfigProblem::NegativeRerouteInterval));
    }
    TrackerConfig::new(r.off_route_min_consecutive, r.on_route_min_consecutive, r.min_reroute_gap_ms)
}

/// Per-step distance marks of a route, as distance keys.
#[derive(Debug, Clone)]
pub struct StepMarks {
    /// For each step, the key of the along-route distance of its end vertex.
    pub end_keys: Vec<u64>,
    /// For each step, the key of its start distance less the tolerated
    /// backtrack: a matched position below it has jumped back out of the step.
    pub resync_keys: Vec<u64>,
}

/// Marks fit for a route: at least one step, one resync mark per step, and
/// step ends in route order.
pub open spec fn marks_wf(end_keys: Seq<u64>, resync_keys: Seq<u64>) -> bool {
    &&& end_keys.len() >= 1
    &&& resync_keys.len() == end_keys.len()
    &&& keys_sorted(end_keys)
}

impl StepMarks {
    /// Whether the marks fit a route: at least one step, one resync mark per
    /// step, and step ends in route order.
    pub fn fit(&self) -> (r: bool)
        ensures
            r == marks_wf(self.end_keys@, self.resync_keys@),
    {
        self.end_keys.len() >= 1 && self.resync_keys.len() == self.end_keys.len() && keys_in_order(
            &self.end_keys,
        )
    }
}

/// The facts about one matched fix that the decisions read.
#[derive(Debug, Clone, Copy, PartialEq, Eq, Structural)]
pub struct MatchedFix {
    /// Fix time, milliseconds.
    pub timestamp_ms: u64,
    /// The matched position is farther from the route than the off-route
    /// distance.
    pub far_from_route: bool,
    /// Distance key of the matched position along the route.
    pub along_key: u64,
    /// For the step that [`TripTracker::passed_step`] returns for this
    /// position: it is not the last step, its end is within the
    /// early-advance distance, and the heading matches the next step.
    pub early_advance: bool,
    /// The destination is within the arrival distance.
    pub near_destination: bool,
}

/// The abstract state of a trip.
pub struct TripView {
    pub config: TrackerConfig,
    pub end_keys: Seq<u64>,
    pub resync_keys: Seq<u64>,
    pub current_step: int,
    pub off_route_streak: u32,
    pub on_route_streak: u32,
    pub is_off_route: bool,
    pub arrived: bool,
    pub last_accepted_ms: Option<u64>,
    pub last_reroute_request_ms: Option<u64>,
}

/// Step whose extent contains `along`: the first step whose end is beyond
/// it, or the last step.
pub open spec fn step_containing(end_keys: Seq<u64>, along: u64) -> int {
    let i = count_at_most(end_keys, along) as int;
    if i >= end_keys.len() {
        end_keys.len() - 1
    } else {
        i
    }
}

/// From step `cur`, move past every step (other than the last) whose end is
/// at or behind `along`.
pub open spec fn advance_past(end_keys: Seq<u64>, cur: int, along: u64) -> int
    decreases end_keys.len() - cur,
{
    if 0 <= cur < end_keys.len() - 1 && along >= end_keys[cur] {
        advance_past(end_keys, cur + 1, along)
    } else {
        cur
    }
}

/// `a - b`, or 0 when `b` exceeds `a`.
pub open spec fn elapsed(a: u64, b: u64) -> int {
    if a >= b {
        a - b
    } else {
        0
    }
}

impl TripView {
    /// The trip state is consistent: the current step is a step of the
    /// route, an arrived trip is on the last step, and a reroute request was
    /// made on a fix no newer than the last accepted one.
    pub open spec fn wf(self) -> bool {
        &&& marks_wf(self.end_keys, self.resync_keys)
        &&& 0 <= self.current_step < self.end_keys.len()
        &&& self.arrived ==> self.current_step == self.last_step()
        &&& self.last_reroute_request_ms matches Some(r) ==> (self.last_accepted_ms matches Some(a)
            && r <= a)
    }

    /// `fix` is the fix accepted last: the decisions run on it after the
    /// stale-fix guard passed and its time was recorded.
    pub open spec fn accepted(self, fix: MatchedFix) -> bool {
        self.last_accepted_ms == Some(fix.timestamp_ms)
    }

    pub open spec fn last_step(self) -> int {
        self.end_keys.len() - 1
    }

    /// The stale-fix guard: a fix must be newer than the last accepted one.
    pub open spec fn time_check(self, timestamp_ms: u64) -> Result<(), NavError> {
        match self.last_accepted_ms {
            Some(last) => if timestamp_ms <= last {
                Err(NavError::StaleLocation { timestamp_ms, last_timestamp_ms: last })
            } else {
                Ok(())
            },
            None => Ok(()),
        }
    }

    /// Progress reset for a (new) route; the time guard and the reroute
    /// clock carry over.
    pub open spec fn restarted(self, end_keys: Seq<u64>, resync_keys: Seq<u64>) -> TripView {
        TripView {
            end_keys,
            resync_keys,
            current_step: 0,
            off_route_streak: 0,
            on_route_streak: 0,
            is_off_route: false,
            arrived: false,
            ..self
        }
    }

    /// The off-route hysteresis after one fix.
    pub open spec fn after_off_route(self, far: bool) -> TripView {
        if far {
            let streak = self.off_route_streak.saturating_add(1);
            TripView {
                off_route_streak: streak,
                on_route_streak: 0,
                is_off_route: if streak >= self.config.off_route_min_consecutive {
                    true
                } else {
                    self.is_off_route
                },
                ..self
            }
        } else {
            let streak = self.on_route_streak.saturating_add(1);
            TripView {
                on_route_streak: streak,
                off_route_streak: 0,
                is_off_route: if streak >= self.config.on_route_min_consecutive {
                    false
                } else {
                    self.is_off_route
                },
                ..self
            }
        }
    }

    /// A reroute is due: off-route, not arrived, and no earlier request, or
    /// the minimum gap has passed since it.
    pub open spec fn reroute_due(self, now_ms: u64) -> bool {
        &&& self.is_off_route
        &&& !self.arrived
        &&& match self.last_reroute_request_ms {
            None => true,
            Some(last) => elapsed(now_ms, last) >= self.config.min_reroute_gap_ms,
        }
    }

    pub open spec fn after_reroute(self, now_ms: u64) -> TripView {
        if self.reroute_due(now_ms) {
            TripView { last_reroute_request_ms: Some(now_ms), ..self }
        } else {
            self
        }
    }

    /// The step reached at `along` before the early-advance and arrival
    /// tests: a large backwards jump resynchronises to the step containing
    /// `along`; then every step whose end is passed is left behind.
    pub open spec fn passed_step(self, along: u64) -> int {
        if self.arrived {
            self.current_step
        } else {
            let start = if along < self.resync_keys[self.current_step] {
                step_containing(self.end_keys, along)
            } else {
                self.current_step
            };
            advance_past(self.end_keys, start, along)
        }
    }

    /// Step advancement for one on-route fix.
    pub open spec fn after_step(self, along: u64, early_advance: bool, near_destination: bool) -> TripView {
        if self.arrived {
            self
        } else {
            let p = self.passed_step(along);
            let q = if p < self.last_step() && early_advance {
                p + 1
            } else {
                p
            };
            let second_last = if self.last_step() >= 1 {
                self.last_step() - 1
            } else {
                0
            };
            if q >= second_last && near_destination {
                TripView { current_step: self.last_step(), arrived: true, ..self }
            } else {
                TripView { current_step: q, ..self }
            }
        }
    }

    /// The whole decision for one matched fix: the new state and whether a
    /// reroute is requested on it. The step only moves while on-route.
    pub open spec fn after_match(self, fix: MatchedFix) -> (TripView, bool) {
        let v1 = self.after_off_route(fix.far_from_route);
        let due = v1.reroute_due(fix.timestamp_ms);
        let v2 = v1.after_reroute(fix.timestamp_ms);
        let v3 = if !v2.is_off_route {
            v2.after_step(fix.along_key, fix.early_advance, fix.near_destination)
        } else {
            v2
        };
        (v3, due)
    }

    /// Progress as reported after an accepted fix.
    pub open spec fn progress(self) -> TripProgress {
        if self.arrived {
            TripProgress::Arrived
        } else {
            TripProgress::Navigating
        }
    }

    /// Index of the step whose instruction is announced next.
    pub open spec fn next_step(self) -> int {
        if self.current_step + 1 <= self.last_step() {
            self.current_step + 1
        } else {
            self.last_step()
        }
    }
}

/// Step whose extent contains the route position with distance key
/// `along_key`, given the keys of the steps' end distances in route order:
/// steps whose end is at or behind the position are behind it, the first
/// step whose end is beyond it is the current one, and past the last end it
/// is the last step.
pub fn step_at(end_keys: &Vec<u64>, along_key: u64) -> (r: usize)
    requires
        end_keys.len() >= 1,
        keys_sorted(end_keys@),
    ensures
        r == step_containing(end_keys@, along_key),
        r < end_keys.len(),
{
    let n = end_keys.len();
    let i = partition_point_at_most(end_keys, along_key);
    if i >= n {
        n - 1
    } else {
        i
    }
}

/// The state after a sequence of matched fixes.
pub open spec fn run(v: TripView, fixes: Seq<MatchedFix>) -> TripView
    decreases fixes.len(),
{
    if fixes.len() == 0 {
        v
    } else {
        run(v.after_match(fixes[0]).0, fixes.drop_first())
    }
}

proof fn lemma_advance_past_bounds(end_keys: Seq<u64>, cur: int, along: u64)
    requires
        0 <= cur < end_keys.len(),
    ensures
        cur <= advance_past(end_keys, cur, along) < end_keys.len(),
        advance_past(end_keys, cur, along) == end_keys.len() - 1 || along < end_keys[advance_past(
            end_keys,
            cur,
            along,
        )],
        forall|k: int|
            cur <= k < advance_past(end_keys, cur, along) ==> #[trigger] end_keys[k] <= along,
    decreases end_keys.len() - cur,
{
    if 0 <= cur < end_keys.len() - 1 && along >= end_keys[cur] {
        lemma_advance_past_bounds(end_keys, cur + 1, along);
    }
}

proof fn lemma_passed_step_bounds(v: TripView, along: u64)
    requires
        v.wf(),
        !v.arrived,
    ensures
        0 <= v.passed_step(along) < v.end_keys.len(),
        v.passed_step(along) == v.last_step() || along < v.end_keys[v.passed_step(along)],
        !(along < v.resync_keys[v.current_step]) ==> v.passed_step(along) >= v.current_step,
{
    let start = if along < v.resync_keys[v.current_step] {
        step_containing(v.end_keys, along)
    } else {
        v.current_step
    };
    lemma_advance_past_bounds(v.end_keys, start, along);
}

/// Every decision on an accepted fix keeps the trip well-formed.
pub proof fn lemma_after_match_wf(v: TripView, fix: MatchedFix)
    requires
        v.wf(),
        v.accepted(fix),
    ensures
        v.after_match(fix).0.wf(),
{
    let v2 = v.after_off_route(fix.far_from_route).after_reroute(fix.timestamp_ms);
    if !v2.is_off_route && !v2.arrived {
        lemma_passed_step_bounds(v2, fix.along_key);
    }
}

/// Without a large backwards jump (the position is not below the current
/// step's resync mark) the step never goes back.
pub proof fn lemma_step_never_regresses_without_backward_jump(v: TripView, fix: MatchedFix)
    requires
        v.wf(),
        !(fix.along_key < v.resync_keys[v.current_step]),
    ensures
        v.after_match(fix).0.current_step >= v.current_step,
{
    if !v.arrived {
        lemma_passed_step_bounds(v, fix.along_key);
    }
}

/// After a fix on which the trip is on-route, the trip is on its last step
/// or the matched position lies before the end of the current step.
pub proof fn lemma_on_route_fix_within_current_step(v: TripView, fix: MatchedFix)
    requires
        v.wf(),
        !v.after_match(fix).0.is_off_route,
    ensures
        ({
            let w = v.after_match(fix).0;
            w.current_step == w.last_step() || fix.along_key < w.end_keys[w.current_step]
        }),
{
    if !v.arrived {
        lemma_passed_step_bounds(v, fix.along_key);
        let p = v.passed_step(fix.along_key);
        if p < v.last_step() {
            assert(v.end_keys[p] <= v.end_keys[p + 1]);
        }
    }
}

/// After a large backwards jump (the position is below the current step's
/// resync mark) on an on-route fix, with neither early advance nor arrival,
/// the trip is on the step that contains the position: at or past the end
/// of the step before it, and before its own end unless it is the last step.
pub proof fn lemma_backward_jump_lands_on_containing_step(v: TripView, fix: MatchedFix)
    requires
        v.wf(),
        !v.arrived,
        !v.after_match(fix).0.is_off_route,
        fix.along_key < v.resync_keys[v.current_step],
        !fix.early_advance,
        !fix.near_destination,
    ensures
        ({
            let w = v.after_match(fix).0;
            &&& 0 <= w.current_step < v.end_keys.len()
            &&& w.current_step == 0 || v.end_keys[w.current_step - 1] <= fix.along_key
            &&& w.current_step == v.end_keys.len() - 1 || fix.along_key < v.end_keys[w.current_step]
        }),
{
    lemma_count_at_most_splits(v.end_keys, fix.along_key);
    let start = step_containing(v.end_keys, fix.along_key);
    lemma_advance_past_bounds(v.end_keys, start, fix.along_key);
}

/// Without a large backwards jump, every step an on-route fix moves the
/// trip past has ended at or behind the position, except the one step an
/// early advance skips; and an early advance leaves the trip one step past
/// the first step whose end is beyond the position (or on the last step).
pub proof fn lemma_steps_left_behind_have_ended(v: TripView, fix: MatchedFix)
    requires
        v.wf(),
        !v.arrived,
        !v.after_match(fix).0.is_off_route,
        !v.after_match(fix).0.arrived,
        !(fix.along_key < v.resync_keys[v.current_step]),
    ensures
        ({
            let w = v.after_match(fix).0;
            let skipped: int = if fix.early_advance {
                1
            } else {
                0
            };
            &&& v.current_step <= w.current_step
            &&& forall|k: int|
                v.current_step <= k < w.current_step - skipped ==> #[trigger] v.end_keys[k]
                    <= fix.along_key
            &&& fix.early_advance ==> w.current_step == v.end_keys.len() - 1 || (w.current_step
                >= 1 && fix.along_key < v.end_keys[w.current_step - 1])
        }),
{
    lemma_advance_past_bounds(v.end_keys, v.current_step, fix.along_key);
}

/// A trip arrives only on an on-route fix near the destination, and then it
/// is on the last step. Conversely, an on-route fix near the destination
/// whose position is past the end of the second-to-last step (or on a route
/// of one or two steps) makes the trip arrive.
pub proof fn lemma_arrival_rule(v: TripView, fix: MatchedFix)
    requires
        v.wf(),
        !v.arrived,
    ensures
        ({
            let w = v.after_match(fix).0;
            &&& w.arrived ==> fix.near_destination && !w.is_off_route && w.current_step
                == v.last_step()
            &&& (!w.is_off_route && fix.near_destination && (v.last_step() < 2 || v.end_keys[v.last_step()
                - 2] <= fix.along_key)) ==> w.arrived
        }),
{
    lemma_count_at_most_splits(v.end_keys, fix.along_key);
    let start = if fix.along_key < v.resync_keys[v.current_step] {
        step_containing(v.end_keys, fix.along_key)
    } else {
        v.current_step
    };
    lemma_advance_past_bounds(v.end_keys, start, fix.along_key);
    let last = v.last_step();
    let p = v.passed_step(fix.along_key);
    if last >= 2 && v.end_keys[last - 2] <= fix.along_key {
        if p < last - 1 {
            assert(v.end_keys[p] <= v.end_keys[last - 2]);
        }
    }
}

/// Once arrived, a trip stays arrived on the same step whatever fix comes.
pub proof fn lemma_arrival_is_final(v: TripView, fix: MatchedFix)
    requires
        v.arrived,
    ensures
        v.after_match(fix).0.arrived,
        v.after_match(fix).0.current_step == v.current_step,
{
}

/// The step does not move on a fix after which the trip is off-route.
pub proof fn lemma_step_frozen_while_off_route(v: TripView, fix: MatchedFix)
    requires
        v.after_match(fix).0.is_off_route,
    ensures
        v.after_match(fix).0.current_step == v.current_step,
        v.after_match(fix).0.arrived == v.arrived,
{
}

/// A reroute is requested on a fix exactly when, after the off-route
/// hysteresis, the trip is off-route and not arrived, and either no request
/// was made before or at least the minimum gap has passed since the last
/// one; the request is remembered as the latest one.
pub proof fn lemma_reroute_request_rule(v: TripView, fix: MatchedFix)
    requires
        v.wf(),
        v.accepted(fix),
    ensures
        v.after_match(fix).1 <==> ({
            let w = v.after_off_route(fix.far_from_route);
            &&& w.is_off_route
            &&& !w.arrived
            &&& match v.last_reroute_request_ms {
                None => true,
                Some(last) => fix.timestamp_ms - last >= v.config.min_reroute_gap_ms,
            }
        }),
        v.after_match(fix).1 ==> v.after_match(fix).0.is_off_route && !v.after_match(
            fix,
        ).0.arrived && v.after_match(fix).0.last_reroute_request_ms == Some(fix.timestamp_ms),
        !v.after_match(fix).1 ==> v.after_match(fix).0.last_reroute_request_ms
            == v.last_reroute_request_ms,
{
}

/// Reroute requests are rate-limited: a request on an accepted fix comes at
/// least the minimum gap after the previous one.
pub proof fn lemma_reroute_rate_limited(v: TripView, fix: MatchedFix, previous: u64)
    requires
        v.wf(),
        v.accepted(fix),
        v.last_reroute_request_ms == Some(previous),
        v.after_match(fix).1,
    ensures
        fix.timestamp_ms >= previous + v.config.min_reroute_gap_ms,
{
}

/// The first reroute request comes on the fix that flags the trip
/// off-route.
pub proof fn lemma_first_request_when_flagged(v: TripView, fix: MatchedFix)
    requires
        !v.is_off_route,
        !v.arrived,
        v.last_reroute_request_ms is None,
        v.after_match(fix).0.is_off_route,
    ensures
        v.after_match(fix).1,
{
}

/// Fewer consecutive fixes than the off-route threshold never flag an
/// on-route trip off-route: the off-route streak grows by at most one per fix.
pub proof fn lemma_off_route_needs_consecutive_fixes(v: TripView, fixes: Seq<MatchedFix>)
    requires
        !v.is_off_route,
        v.off_route_streak + fixes.len() < v.config.off_route_min_consecutive,
    ensures
        !run(v, fixes).is_off_route,
    decreases fixes.len(),
{
    if fixes.len() > 0 {
        let w = v.after_match(fixes[0]).0;
        lemma_off_route_needs_consecutive_fixes(w, fixes.drop_first());
    }
}

/// Enough consecutive far fixes flag the trip off-route.
pub proof fn lemma_consecutive_far_fixes_flag_off_route(v: TripView, fixes: Seq<MatchedFix>)
    requires
        forall|i: int| 0 <= i < fixes.len() ==> #[trigger] fixes[i].far_from_route,
        v.is_off_route || (fixes.len() >= 1 && v.off_route_streak + fixes.len()
            >= v.config.off_route_min_consecutive),
    ensures
        run(v, fixes).is_off_route,
    decreases fixes.len(),
{
    if fixes.len() > 0 {
        let w = v.after_match(fixes[0]).0;
        assert(fixes[0].far_from_route);
        let rest = fixes.drop_first();
        assert forall|i: int| 0 <= i < rest.len() implies #[trigger] rest[i].far_from_route by {
            assert(rest[i] == fixes[i + 1]);
        }
        lemma_consecutive_far_fixes_flag_off_route(w, rest);
    }
}

/// Fewer consecutive fixes than the on-route threshold never clear the
/// off-route flag: the on-route streak grows by at most one per fix.
pub proof fn lemma_on_route_needs_consecutive_fixes(v: TripView, fixes: Seq<MatchedFix>)
    requires
        v.is_off_route,
        v.on_route_streak + fixes.len() < v.config.on_route_min_consecutive,
    ensures
        run(v, fixes).is_off_route,
    decreases fixes.len(),
{
    if fixes.len() > 0 {
        let w = v.after_match(fixes[0]).0;
        lemma_on_route_needs_consecutive_fixes(w, fixes.drop_first());
    }
}

/// Enough consecutive near fixes clear the off-route flag.
pub proof fn lemma_consecutive_near_fixes_clear_off_route(v: TripView, fixes: Seq<MatchedFix>)
    requires
        forall|i: int| 0 <= i < fixes.len() ==> !(#[trigger] fixes[i].far_from_route),
        !v.is_off_route || (fixes.len() >= 1 && v.on_route_streak + fixes.len()
            >= v.config.on_route_min_consecutive),
    ensures
        !run(v, fixes).is_off_route,
    decreases fixes.len(),
{
    if fixes.len() > 0 {
        let w = v.after_match(fixes[0]).0;
        assert(!fixes[0].far_from_route);
        let rest = fixes.drop_first();
        assert forall|i: int| 0 <= i < rest.len() implies !(#[trigger] rest[i].far_from_route) by {
            assert(rest[i] == fixes[i + 1]);
        }
        lemma_consecutive_near_fixes_clear_off_route(w, rest);
    }
}

/// Number of fixes at the start of `fixes` whose `far_from_route` is `far`.
pub open spec fn leading_alike(fixes: Seq<MatchedFix>, far: bool) -> nat
    decreases fixes.len(),
{
    if fixes.len() == 0 || fixes[0].far_from_route != far {
        0
    } else {
        1 + leading_alike(fixes.drop_first(), far)
    }
}

/// The `n` fixes from position `j` on all have `far_from_route == far`.
pub open spec fn run_at(fixes: Seq<MatchedFix>, j: int, n: int, far: bool) -> bool {
    &&& 0 <= j
    &&& j + n <= fixes.len()
    &&& forall|k: int| j <= k < j + n ==> #[trigger] fixes[k].far_from_route == far
}

/// Somewhere in `fixes` there are `n` far fixes (`far`) or `n` near fixes
/// (`!far`) in a row.
pub open spec fn has_run(fixes: Seq<MatchedFix>, n: int, far: bool) -> bool {
    exists|j: int| #[trigger] run_at(fixes, j, n, far)
}

/// Each fix moves the streaks: a far fix extends the off-route streak and
/// ends the on-route one; a fix within the off-route distance ends the
/// off-route streak and extends the on-route one.
pub proof fn lemma_streaks_count_fixes_in_a_row(v: TripView, fix: MatchedFix)
    ensures
        fix.far_from_route ==> v.after_match(fix).0.on_route_streak == 0,
        fix.far_from_route ==> v.after_match(fix).0.off_route_streak == if v.off_route_streak
            < u32::MAX {
            v.off_route_streak + 1
        } else {
            v.off_route_streak as int
        },
        !fix.far_from_route ==> v.after_match(fix).0.off_route_streak == 0,
        !fix.far_from_route ==> v.after_match(fix).0.on_route_streak == if v.on_route_streak
            < u32::MAX {
            v.on_route_streak + 1
        } else {
            v.on_route_streak as int
        },
{
}

proof fn lemma_leading_alike_bound(fixes: Seq<MatchedFix>, far: bool)
    ensures
        leading_alike(fixes, far) <= fixes.len(),
    decreases fixes.len(),
{
    if fixes.len() > 0 && fixes[0].far_from_route == far {
        lemma_leading_alike_bound(fixes.drop_first(), far);
    }
}

proof fn lemma_leading_alike_prefix(fixes: Seq<MatchedFix>, far: bool, k: int)
    requires
        0 <= k < leading_alike(fixes, far),
    ensures
        fixes[k].far_from_route == far,
    decreases fixes.len(),
{
    lemma_leading_alike_bound(fixes, far);
    if k > 0 {
        lemma_leading_alike_prefix(fixes.drop_first(), far, k - 1);
        assert(fixes[k] == fixes.drop_first()[k - 1]);
    }
}

proof fn lemma_no_run_in_rest(fixes: Seq<MatchedFix>, n: int, far: bool)
    requires
        fixes.len() >= 1,
        !has_run(fixes, n, far),
    ensures
        !has_run(fixes.drop_first(), n, far),
{
    let rest = fixes.drop_first();
    if has_run(rest, n, far) {
        let j = choose|j: int| #[trigger] run_at(rest, j, n, far);
        assert forall|k: int| j + 1 <= k < j + 1 + n implies #[trigger] fixes[k].far_from_route
            == far by {
            assert(fixes[k] == rest[k - 1]);
        }
        assert(run_at(fixes, j + 1, n, far));
    }
}

proof fn lemma_run_from_start(fixes: Seq<MatchedFix>, n: int, far: bool)
    requires
        0 <= n <= leading_alike(fixes, far),
    ensures
        has_run(fixes, n, far),
{
    lemma_leading_alike_bound(fixes, far);
    assert forall|k: int| 0 <= k < n implies #[trigger] fixes[k].far_from_route == far by {
        lemma_leading_alike_prefix(fixes, far, k);
    }
    assert(run_at(fixes, 0, n, far));
}

proof fn lemma_off_route_needs_far_run_from(v: TripView, fixes: Seq<MatchedFix>)
    requires
        !v.is_off_route,
        v.off_route_streak + leading_alike(fixes, true) < v.config.off_route_min_consecutive,
        !has_run(fixes, v.config.off_route_min_consecutive as int, true),
    ensures
        !run(v, fixes).is_off_route,
    decreases fixes.len(),
{
    if fixes.len() > 0 {
        let n = v.config.off_route_min_consecutive as int;
        let rest = fixes.drop_first();
        lemma_no_run_in_rest(fixes, n, true);
        if !fixes[0].far_from_route && leading_alike(rest, true) >= n {
            lemma_run_from_start(rest, n, true);
        }
        lemma_off_route_needs_far_run_from(v.after_match(fixes[0]).0, rest);
    }
}

/// An on-route trip with no off-route streak goes off-route only after
/// `off_route_min_consecutive` far fixes in a row: a fix within the
/// off-route distance in between starts the count again.
pub proof fn lemma_off_route_needs_far_fixes_in_a_row(v: TripView, fixes: Seq<MatchedFix>)
    requires
        !v.is_off_route,
        v.off_route_streak == 0,
        !has_run(fixes, v.config.off_route_min_consecutive as int, true),
    ensures
        !run(v, fixes).is_off_route,
{
    let n = v.config.off_route_min_consecutive as int;
    if leading_alike(fixes, true) >= n {
        lemma_run_from_start(fixes, n, true);
    }
    lemma_off_route_needs_far_run_from(v, fixes);
}

proof fn lemma_on_route_needs_near_run_from(v: TripView, fixes: Seq<MatchedFix>)
    requires
        v.is_off_route,
        v.on_route_streak + leading_alike(fixes, false) < v.config.on_route_min_consecutive,
        !has_run(fixes, v.config.on_route_min_consecutive as int, false),
    ensures
        run(v, fixes).is_off_route,
    decreases fixes.len(),
{
    if fixes.len() > 0 {
        let n = v.config.on_route_min_consecutive as int;
        let rest = fixes.drop_first();
        lemma_no_run_in_rest(fixes, n, false);
        if fixes[0].far_from_route && leading_alike(rest, false) >= n {
            lemma_run_from_start(rest, n, false);
        }
        lemma_on_route_needs_near_run_from(v.after_match(fixes[0]).0, rest);
    }
}

/// An off-route trip with no on-route streak comes back on-route only after
/// `on_route_min_consecutive` fixes within the off-route distance in a row:
/// a far fix in between starts the count again.
pub proof fn lemma_on_route_needs_near_fixes_in_a_row(v: TripView, fixes: Seq<MatchedFix>)
    requires
        v.is_off_route,
        v.on_route_streak == 0,
        !has_run(fixes, v.config.on_route_min_consecutive as int, false),
    ensures
        run(v, fixes).is_off_route,
{
    let n = v.config.on_route_min_consecutive as int;
    if leading_alike(fixes, false) >= n {
        lemma_run_from_start(fixes, n, false);
    }
    lemma_on_route_needs_near_run_from(v, fixes);
}

/// Replacing the route keeps the stale-fix guard: the same fixes are
/// refused as stale before and after.
pub proof fn lemma_set_route_keeps_time_guard(
    v: TripView,
    end_keys: Seq<u64>,
    resync_keys: Seq<u64>,
    timestamp_ms: u64,
)
    ensures
        v.restarted(end_keys, resync_keys).time_check(timestamp_ms) == v.time_check(timestamp_ms),
        v.restarted(end_keys, resync_keys).last_reroute_request_ms == v.last_reroute_request_ms,
{
}

/// After a fix is accepted, exactly the fixes not newer than it are stale.
pub proof fn lemma_accepted_fix_guards_time(v: TripView, accepted_ms: u64, timestamp_ms: u64)
    ensures
        (TripView { last_accepted_ms: Some(accepted_ms), ..v }).time_check(timestamp_ms) is Err
            <==> timestamp_ms <= accepted_ms,
{
}

/// The discrete state of a trip along a route.
pub struct TripTracker {
    config: TrackerConfig,
    end_keys: Vec<u64>,
    resync_keys: Vec<u64>,
    current_step: usize,
    off_route_streak: u32,
    on_route_streak: u32,
    is_off_route: bool,
    arrived: bool,
    last_accepted_ms: Option<u64>,
    last_reroute_request_ms: Option<u64>,
}

impl View for TripTracker {
    type V = TripView;

    closed spec fn view(&self) -> TripView {
        TripView {
            config: self.config,
            end_keys: self.end_keys@,
            resync_keys: self.resync_keys@,
            current_step: self.current_step as int,
            off_route_streak: self.off_route_streak,
            on_route_streak: self.on_route_streak,
            is_off_route: self.is_off_route,
            arrived: self.arrived,
            last_accepted_ms: self.last_accepted_ms,
            last_reroute_request_ms: self.last_reroute_request_ms,
        }
    }
}

impl TripTracker {
    #[verifier::type_invariant]
    spec fn consistent(self) -> bool {
        self@.wf()
    }

    /// A tracker at the start of `marks`' route, with no fix accepted yet.
    pub fn new(config: TrackerConfig, marks: StepMarks) -> (r: TripTracker)
        requires
            marks_wf(marks.end_keys@, marks.resync_keys@),
        ensures
            r@.wf(),
            r@ == (TripView {
                config,
                end_keys: marks.end_keys@,
                resync_keys: marks.resync_keys@,
                current_step: 0,
                off_route_streak: 0,
                on_route_streak: 0,
                is_off_route: false,
                arrived: false,
                last_accepted_ms: None,
                last_reroute_request_ms: None,
            }),
    {
        TripTracker {
            config,
            end_keys: marks.end_keys,
            resync_keys: marks.resync_keys,
            current_step: 0,
            off_route_streak: 0,
            on_route_streak: 0,
            is_off_route: false,
            arrived: false,
            last_accepted_ms: None,
            last_reroute_request_ms: None,
        }
    }

    /// Replace the route. Trip progress restarts on the new route; the
    /// reroute rate limit and the stale-fix guard persist.
    pub fn set_route(&mut self, marks: StepMarks)
        requires
            marks_wf(marks.end_keys@, marks.resync_keys@),
        ensures
            final(self)@ == old(self)@.restarted(marks.end_keys@, marks.resync_keys@),
            final(self)@.wf(),
    {
        proof {
            use_type_invariant(&*self);
        }
        *self = TripTracker {
            config: self.config,
            end_keys: marks.end_keys,
            resync_keys: marks.resync_keys,
            current_step: 0,
            off_route_streak: 0,
            on_route_streak: 0,
            is_off_route: false,
            arrived: false,
            last_accepted_ms: self.last_accepted_ms,
            last_reroute_request_ms: self.last_reroute_request_ms,
        };
    }

    /// The stale-fix guard: a fix must be newer than the last accepted one.
    pub fn check_fix_time(&self, timestamp_ms: u64) -> (r: Result<(), NavError>)
        ensures
            r == self@.time_check(timestamp_ms),
    {
        match self.last_accepted_ms {
            Some(last) => if timestamp_ms <= last {
                Err(NavError::StaleLocation { timestamp_ms, last_timestamp_ms: last })
            } else {
                Ok(())
            },
            None => Ok(()),
        }
    }

    /// Record that the fix at `timestamp_ms`, which passed the stale-fix
    /// guard, was accepted.
    pub fn record_accepted(&mut self, timestamp_ms: u64)
        requires
            old(self)@.time_check(timestamp_ms) is Ok,
        ensures
            final(self)@ == (TripView { last_accepted_ms: Some(timestamp_ms), ..old(self)@ }),
            final(self)@.wf(),
    {
        proof {
            use_type_invariant(&*self);
        }
        self.last_accepted_ms = Some(timestamp_ms);
    }

    /// Off-route hysteresis: a far fix extends the off-route streak and ends
    /// the on-route one, and the reverse for a near fix; the flag changes
    /// once the relevant streak reaches its threshold.
    fn update_off_route(&mut self, far: bool)
        ensures
            final(self)@ == old(self)@.after_off_route(far),
    {
        proof {
            use_type_invariant(&*self);
        }
        if far {
            self.off_route_streak = self.off_route_streak.saturating_add(1);
            self.on_route_streak = 0;
            if self.off_route_streak >= self.config.off_route_min_consecutive {
                self.is_off_route = true;
            }
        } else {
            self.on_route_streak = self.on_route_streak.saturating_add(1);
            self.off_route_streak = 0;
            if self.on_route_streak >= self.config.on_route_min_consecutive {
                self.is_off_route = false;
            }
        }
    }

    /// True on the update where a reroute request is issued.
    fn maybe_request_reroute(&mut self, now_ms: u64) -> (due: bool)
        requires
            old(self)@.last_accepted_ms == Some(now_ms),
        ensures
            due == old(self)@.reroute_due(now_ms),
            final(self)@ == old(self)@.after_reroute(now_ms),
    {
        proof {
            use_type_invariant(&*self);
        }
        if !self.is_off_route || self.arrived {
            return false;
        }
        let due = match self.last_reroute_request_ms {
            None => true,
            Some(last) => now_ms.saturating_sub(last) >= self.config.min_reroute_gap_ms,
        };
        if due {
            self.last_reroute_request_ms = Some(now_ms);
        }
        due
    }

    /// The step the trip reaches at `along` before the early-advance and
    /// arrival tests. The host evaluates the early-advance test for this step.
    pub fn passed_step(&self, along_key: u64) -> (r: usize)
        ensures
            r == self@.passed_step(along_key),
            r < self@.end_keys.len(),
    {
        proof {
            use_type_invariant(self);
        }
        if self.arrived {
            return self.current_step;
        }
        let last = self.end_keys.len() - 1;
        let mut cur = self.current_step;
        if along_key < self.resync_keys[cur] {
            cur = step_at(&self.end_keys, along_key);
        }
        let ghost start = cur as int;
        while cur < last && along_key >= self.end_keys[cur]
            invariant
                self@.wf(),
                last == self@.end_keys.len() - 1,
                cur <= last,
                advance_past(self@.end_keys, start, along_key) == advance_past(
                    self@.end_keys,
                    cur as int,
                    along_key,
                ),
            decreases last - cur,
        {
            cur = cur + 1;
        }
        cur
    }

    /// Step advancement for one on-route fix: passed steps are left behind,
    /// the early advance moves one step further, and near the destination on
    /// the last driving or arrival step the trip arrives. Arrival is final.
    fn update_step(&mut self, along_key: u64, early_advance: bool, near_destination: bool)
        ensures
            final(self)@ == old(self)@.after_step(along_key, early_advance, near_destination),
    {
        proof {
            use_type_invariant(&*self);
        }
        if self.arrived {
            return;
        }
        let last = self.end_keys.len() - 1;
        let mut cur = self.passed_step(along_key);
        if cur < last && early_advance {
            cur = cur + 1;
        }
        if cur >= last.saturating_sub(1) && near_destination {
            self.current_step = last;
            self.arrived = true;
        } else {
            self.current_step = cur;
        }
    }

    /// Apply the decisions for one matched fix; returns whether a reroute is
    /// requested on it.
    pub fn on_match(&mut self, fix: MatchedFix) -> (needs_reroute: bool)
        requires
            old(self)@.accepted(fix),
        ensures
            (final(self)@, needs_reroute) == old(self)@.after_match(fix),
            final(self)@.wf(),
    {
        proof {
            use_type_invariant(&*self);
            lemma_after_match_wf(self@, fix);
        }
        self.update_off_route(fix.far_from_route);
        let needs_reroute = self.maybe_request_reroute(fix.timestamp_ms);
        if !self.is_off_route {
            self.update_step(fix.along_key, fix.early_advance, fix.near_destination);
        }
        needs_reroute
    }

    /// Index into the route's steps of the step currently being driven.
    pub fn current_step(&self) -> (r: usize)
        ensures
            r == self@.current_step,
    {
        self.current_step
    }

    /// Index of the step whose instruction is announced next (the step after
    /// the current one, or the last step).
    pub fn next_step(&self) -> (r: usize)
        ensures
            r == self@.next_step(),
    {
        proof {
            use_type_invariant(self);
        }
        let last = self.end_keys.len() - 1;
        if self.current_step + 1 <= last {
            self.current_step + 1
        } else {
            last
        }
    }

    /// Number of steps of the route.
    pub fn step_count(&self) -> (r: usize)
        ensures
            r == self@.end_keys.len(),
    {
        self.end_keys.len()
    }

    /// True after enough consecutive fixes beyond the off-route distance.
    pub fn is_off_route(&self) -> (r: bool)
        ensures
            r == self@.is_off_route,
    {
        self.is_off_route
    }

    /// True once the trip has arrived.
    pub fn arrived(&self) -> (r: bool)
        ensures
            r == self@.arrived,
    {
        self.arrived
    }

    /// Coarse lifecycle as reported with each state.
    pub fn progress(&self) -> (r: TripProgress)
        ensures
            r == self@.progress(),
    {
        if self.arrived {
            TripProgress::Arrived
        } else {
            TripProgress::Navigating
        }
    }

    /// Timestamp of the last accepted fix, if any.
    pub fn last_accepted_ms(&self) -> (r: Option<u64>)
        ensures
            r == self@.last_accepted_ms,
    {
        self.last_accepted_ms
    }

    /// The configuration in use.
    pub fn config(&self) -> (r: TrackerConfig)
        ensures
            r == self@.config,
    {
        self.config
    }
}

} // verus!
