//! Fixture format shared by tests, benchmarks and the demo apps: a route, a
//! simulated raw GPS trace over it, optional ground truth, and the
//! assertions a full simulated drive must satisfy.
//!
//! Parsing the JSON text is the host's; this module holds the checks made on
//! a parsed fixture and the drive-level expectations.

use vstd::prelude::*;
use vstd::string::StringExecFns;

use crate::types::{JsonProblem, NavError};

verus! {

/// Assertions a full simulated drive over the fixture must satisfy.
#[derive(Debug, Clone, PartialEq)]
pub struct Expected {
    /// `current_step_index` values in the order they should first appear.
    pub step_sequence: Vec<usize>,
    /// Trace indices (inclusive ranges) during which the trip should be off-route.
    pub off_route_ranges: Vec<[usize; 2]>,
    /// Whether the drive should end in `TripProgress::Arrived`.
    pub arrives: bool,
}

impl Default for Expected {
    fn default() -> (r: Expected)
        ensures
            r.step_sequence@ == Seq::<usize>::empty(),
            r.off_route_ranges@ == Seq::<[usize; 2]>::empty(),
            !r.arrives,
    {
        Expected { step_sequence: Vec::new(), off_route_ranges: Vec::new(), arrives: false }
    }
}

/// Ground truth, when given, must hold one point per trace fix.
pub fn check_truth_length(truth_len: usize, trace_len: usize) -> (r: Result<(), NavError>)
    ensures
        truth_len != 0 && truth_len != trace_len ==> r == Err::<(), NavError>(
            NavError::InvalidJson(JsonProblem::TruthLength { truth: truth_len, trace: trace_len }),
        ),
        truth_len == 0 || truth_len == trace_len ==> r == Ok::<(), NavError>(()),
{
    if truth_len != 0 && truth_len != trace_len {
        Err(NavError::InvalidJson(JsonProblem::TruthLength { truth: truth_len, trace: trace_len }))
    } else {
        Ok(())
    }
}

/// Path of the repository `fixtures/` directory for a crate whose manifest
/// directory is `manifest_dir`, for tests.
pub fn fixtures_dir(manifest_dir: &str) -> (r: String)
    ensures
        r@ == manifest_dir@ + "/../../fixtures"@,
{
    let base = String::from_str(manifest_dir);
    base.concat("/../../fixtures")
}

} // verus!
