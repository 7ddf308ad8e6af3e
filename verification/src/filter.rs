//! Admission of fixes into the location filter.
//!
//! Fixes are rejected (not incorporated) when they are not newer than the
//! last accepted fix or when they imply an impossible speed. After
//! `max_consecutive_rejects` implausible fixes in a row the filter assumes it
//! is the one that is lost and re-initialises on that fix.
//!
//! [`FixGate`] makes these decisions; the host's Kalman filter judges whether
//! a fix is implausible (a real-number test on the jump and the elapsed time)
//! and carries out the verdict.

use vstd::prelude::*;

use crate::types::NavError;

verus! {

/// What the filter does with an admitted fix.
#[derive(Debug, Clone, Copy, PartialEq, Eq, Structural)]
pub enum FixVerdict {
    /// No state yet: initialise from this fix.
    Initialise,
    /// Predict and correct with this fix.
    Update,
    /// Too many implausible fixes in a row: drop all state and initialise
    /// from this fix.
    Restart,
}

/// How a fix relates in time to the last accepted one.
#[derive(Debug, Clone, Copy, PartialEq, Eq, Structural)]
pub enum FixTiming {
    /// No fix has been accepted since the last reset.
    First,
    /// The fix is newer than the last accepted one by this many milliseconds.
    After { elapsed_ms: u64 },
}

/// What a [`FixGate`] holds, as the contracts see it.
pub struct GateView {
    pub last_timestamp_ms: Option<u64>,
    pub consecutive_rejects: u32,
    pub max_consecutive_rejects: u32,
}

impl GateView {
    /// The reject count never reaches the limit without a restart.
    pub open spec fn wf(self) -> bool {
        self.consecutive_rejects == 0 || self.consecutive_rejects < self.max_consecutive_rejects
    }

    pub open spec fn timing(self, timestamp_ms: u64) -> Result<FixTiming, NavError> {
        match self.last_timestamp_ms {
            None => Ok(FixTiming::First),
            Some(last) => if timestamp_ms <= last {
                Err(NavError::StaleLocation { timestamp_ms, last_timestamp_ms: last })
            } else {
                Ok(FixTiming::After { elapsed_ms: (timestamp_ms - last) as u64 })
            },
        }
    }

    /// Decision on a fix, given whether the fix is implausible
    /// (only read for a fix that follows an accepted one), and the state
    /// after it.
    pub open spec fn judge(self, timestamp_ms: u64, implausible: bool) -> (
        GateView,
        Result<FixVerdict, NavError>,
    ) {
        match self.last_timestamp_ms {
            None => (
                GateView { last_timestamp_ms: Some(timestamp_ms), consecutive_rejects: 0, ..self },
                Ok(FixVerdict::Initialise),
            ),
            Some(last) => if timestamp_ms <= last {
                (self, Err(NavError::StaleLocation { timestamp_ms, last_timestamp_ms: last }))
            } else if implausible {
                if self.consecutive_rejects + 1 >= self.max_consecutive_rejects {
                    (
                        GateView {
                            last_timestamp_ms: Some(timestamp_ms),
                            consecutive_rejects: 0,
                            ..self
                        },
                        Ok(FixVerdict::Restart),
                    )
                } else {
                    (
                        GateView {
                            consecutive_rejects: (self.consecutive_rejects + 1) as u32,
                            ..self
                        },
                        Err(NavError::ImplausibleLocation),
                    )
                }
            } else {
                (
                    GateView {
                        last_timestamp_ms: Some(timestamp_ms),
                        consecutive_rejects: 0,
                        ..self
                    },
                    Ok(FixVerdict::Update),
                )
            },
        }
    }
}

/// The state after a run of fixes, each with its implausibility verdict.
pub open spec fn judge_all(g: GateView, fixes: Seq<(u64, bool)>) -> GateView
    decreases fixes.len(),
{
    if fixes.len() == 0 {
        g
    } else {
        judge_all(g.judge(fixes[0].0, fixes[0].1).0, fixes.drop_first())
    }
}

/// Timestamps strictly increasing and all after `after`.
pub open spec fn increasing_after(after: u64, fixes: Seq<(u64, bool)>) -> bool {
    &&& forall|i: int| 0 <= i < fixes.len() ==> after < #[trigger] fixes[i].0
    &&& forall|i: int, j: int| 0 <= i < j < fixes.len() ==> fixes[i].0 < fixes[j].0
}

/// Admission decisions of the location filter: the stale-fix guard and the
/// count of consecutive implausible fixes.
#[derive(Debug, Clone, Copy)]
pub struct FixGate {
    last_timestamp_ms: Option<u64>,
    consecutive_rejects: u32,
    max_consecutive_rejects: u32,
}

impl View for FixGate {
    type V = GateView;

    closed spec fn view(&self) -> GateView {
        GateView {
            last_timestamp_ms: self.last_timestamp_ms,
            consecutive_rejects: self.consecutive_rejects,
            max_consecutive_rejects: self.max_consecutive_rejects,
        }
    }
}

impl FixGate {
    #[verifier::type_invariant]
    spec fn consistent(self) -> bool {
        self@.wf()
    }

    /// A gate with no accepted fix.
    pub fn new(max_consecutive_rejects: u32) -> (r: FixGate)
        ensures
            r@ == (GateView { last_timestamp_ms: None, consecutive_rejects: 0, max_consecutive_rejects }),
            r@.wf(),
    {
        FixGate { last_timestamp_ms: None, consecutive_rejects: 0, max_consecutive_rejects }
    }

    /// Drop all state; the next fix initialises.
    pub fn reset(&mut self)
        ensures
            final(self)@ == (GateView {
                last_timestamp_ms: None,
                consecutive_rejects: 0,
                ..old(self)@
            }),
            final(self)@.wf(),
    {
        proof {
            use_type_invariant(&*self);
        }
        self.last_timestamp_ms = None;
        self.consecutive_rejects = 0;
    }

    /// Timestamp of the last accepted fix, if any.
    pub fn last_timestamp_ms(&self) -> (r: Option<u64>)
        ensures
            r == self@.last_timestamp_ms,
    {
        self.last_timestamp_ms
    }

    /// How `timestamp_ms` relates to the last accepted fix: the first fix,
    /// a newer one with the elapsed time, or a stale one.
    pub fn timing(&self, timestamp_ms: u64) -> (r: Result<FixTiming, NavError>)
        ensures
            r == self@.timing(timestamp_ms),
    {
        match self.last_timestamp_ms {
            None => Ok(FixTiming::First),
            Some(last) => if timestamp_ms <= last {
                Err(NavError::StaleLocation { timestamp_ms, last_timestamp_ms: last })
            } else {
                Ok(FixTiming::After { elapsed_ms: timestamp_ms - last })
            },
        }
    }

    /// Decide on a fix. `implausible` is the host's speed test for a fix
    /// that follows an accepted one; it is not read for the first fix or a
    /// stale one. Rejections leave the accepted timestamp unchanged.
    pub fn judge(&mut self, timestamp_ms: u64, implausible: bool) -> (r: Result<
        FixVerdict,
        NavError,
    >)
        ensures
            (final(self)@, r) == old(self)@.judge(timestamp_ms, implausible),
            final(self)@.wf(),
    {
        proof {
            use_type_invariant(&*self);
        }
        match self.last_timestamp_ms {
            None => {
                self.consecutive_rejects = 0;
                self.last_timestamp_ms = Some(timestamp_ms);
                Ok(FixVerdict::Initialise)
            },
            Some(last) => {
                if timestamp_ms <= last {
                    return Err(NavError::StaleLocation { timestamp_ms, last_timestamp_ms: last });
                }
                if implausible {
                    let rejects = self.consecutive_rejects + 1;
                    if rejects >= self.max_consecutive_rejects {
                        self.consecutive_rejects = 0;
                        self.last_timestamp_ms = Some(timestamp_ms);
                        Ok(FixVerdict::Restart)
                    } else {
                        self.consecutive_rejects = rejects;
                        Err(NavError::ImplausibleLocation)
                    }
                } else {
                    self.consecutive_rejects = 0;
                    self.last_timestamp_ms = Some(timestamp_ms);
                    Ok(FixVerdict::Update)
                }
            },
        }
    }
}

/// The reject count is the number of implausible fixes in a row since the
/// last accepted fix: every accepted fix (first, plausible or restart)
/// clears it and becomes the stale-fix bound, each rejected implausible fix
/// adds one, and a stale fix changes nothing. A plausible fix newer than the
/// last accepted one is an update, and a restart comes only on an
/// implausible fix that brings the count to the limit.
pub proof fn lemma_judge_counts_implausible_in_a_row(
    g: GateView,
    timestamp_ms: u64,
    implausible: bool,
)
    requires
        g.wf(),
    ensures
        ({
            let (h, r) = g.judge(timestamp_ms, implausible);
            &&& r is Ok ==> h.consecutive_rejects == 0 && h.last_timestamp_ms == Some(timestamp_ms)
            &&& r == Err::<FixVerdict, NavError>(NavError::ImplausibleLocation) ==> implausible
                && h.consecutive_rejects == g.consecutive_rejects + 1 && h.consecutive_rejects
                < g.max_consecutive_rejects && h.last_timestamp_ms == g.last_timestamp_ms
            &&& r == Ok::<FixVerdict, NavError>(FixVerdict::Restart) ==> implausible
                && g.consecutive_rejects + 1 >= g.max_consecutive_rejects
            &&& r == Ok::<FixVerdict, NavError>(FixVerdict::Initialise) ==> g.last_timestamp_ms is None
            &&& (g.last_timestamp_ms matches Some(last) && last < timestamp_ms && !implausible) ==> r
                == Ok::<FixVerdict, NavError>(FixVerdict::Update)
            &&& (g.last_timestamp_ms matches Some(last) && timestamp_ms <= last) ==> h == g && r
                is Err
        }),
{
}

/// A run of implausible fixes, each newer than the last accepted one, is
/// rejected until the `max_consecutive_rejects`-th in a row, on which the
/// filter restarts: after `k` implausible fixes following a plausible one,
/// with `k` below the limit, the reject count is `k` and the accepted
/// timestamp is unchanged.
pub proof fn lemma_rejects_count_up(g: GateView, fixes: Seq<(u64, bool)>, last: u64)
    requires
        g.wf(),
        g.last_timestamp_ms == Some(last),
        increasing_after(last, fixes),
        forall|i: int| 0 <= i < fixes.len() ==> #[trigger] fixes[i].1,
        g.consecutive_rejects + fixes.len() < g.max_consecutive_rejects,
    ensures
        judge_all(g, fixes) == (GateView {
            consecutive_rejects: (g.consecutive_rejects + fixes.len()) as u32,
            ..g
        }),
    decreases fixes.len(),
{
    if fixes.len() > 0 {
        assert(fixes[0].1);
        assert(last < fixes[0].0);
        let h = g.judge(fixes[0].0, fixes[0].1).0;
        let rest = fixes.drop_first();
        assert forall|i: int| 0 <= i < rest.len() implies #[trigger] rest[i].1 by {
            assert(rest[i] == fixes[i + 1]);
        }
        assert forall|i: int| 0 <= i < rest.len() implies last < #[trigger] rest[i].0 by {
            assert(rest[i] == fixes[i + 1]);
        }
        assert forall|i: int, j: int| 0 <= i < j < rest.len() implies rest[i].0 < rest[j].0 by {
            assert(rest[i] == fixes[i + 1]);
            assert(rest[j] == fixes[j + 1]);
        }
        lemma_rejects_count_up(h, rest, last);
    }
}

/// With a limit of `n` (at least 1), the `n`-th consecutive implausible fix
/// after an accepted one restarts the filter on that fix.
pub proof fn lemma_limit_th_reject_restarts(g: GateView, timestamp_ms: u64)
    requires
        g.wf(),
        g.max_consecutive_rejects >= 1,
        g.consecutive_rejects + 1 == g.max_consecutive_rejects,
        g.last_timestamp_ms matches Some(last) && last < timestamp_ms,
    ensures
        g.judge(timestamp_ms, true) == (
            GateView { last_timestamp_ms: Some(timestamp_ms), consecutive_rejects: 0, ..g },
            Ok::<FixVerdict, NavError>(FixVerdict::Restart),
        ),
{
}

/// Stale fixes and rejected fixes leave the accepted timestamp unchanged;
/// every accepted fix becomes the new stale-fix bound.
pub proof fn lemma_judge_moves_time_forward(g: GateView, timestamp_ms: u64, implausible: bool)
    requires
        g.wf(),
    ensures
        g.judge(timestamp_ms, implausible).1 is Err ==> g.judge(timestamp_ms, implausible).0.last_timestamp_ms
            == g.last_timestamp_ms,
        g.judge(timestamp_ms, implausible).1 is Ok ==> g.judge(timestamp_ms, implausible).0.last_timestamp_ms
            == Some(timestamp_ms),
        g.judge(timestamp_ms, implausible).1 is Ok ==> g.timing(timestamp_ms) is Ok,
{
}

} // verus!
