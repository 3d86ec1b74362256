//! Resolving health-probe outcomes into the health map the selector uses.
//! A target whose probe could not even be issued is treated as healthy
//! (fail-open); when every probe failed to issue, all targets stay healthy.

use vstd::prelude::*;

verus! {

/// What one probe outcome means for a target.
pub open spec fn spec_resolved_health(outcome: Option<bool>) -> bool {
    match outcome {
        Some(b) => b,
        None => true,
    }
}

/// Turns the probe outcomes, aligned with the target list, into the health
/// vector: a reported status is taken as is, an unissued probe counts as
/// healthy. When every probe failed to issue, every target comes out
/// healthy.
pub fn resolve_health_statuses(probe_results: &Vec<Option<bool>>) -> (r: Vec<bool>)
    ensures
        r@.len() == probe_results@.len(),
        forall|i: int|
            0 <= i < r@.len() ==> #[trigger] r@[i] == spec_resolved_health(probe_results@[i]),
    {
    let n = probe_results.len();
    let mut r: Vec<bool> = Vec::new();
    let mut i: usize = 0;
    while i < n
        invariant
            i <= n,
            n == probe_results@.len(),
            r@.len() == i,
            forall|j: int|
                0 <= j < i ==> #[trigger] r@[j] == spec_resolved_health(probe_results@[j]),
        decreases n - i,
    {
        let healthy = match probe_results[i] {
            Some(b) => b,
            None => true,
        };
        r.push(healthy);
        i += 1;
    }
    r
}

} // verus!
