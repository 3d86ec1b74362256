//! Per-target connection statistics: in-flight connection counts that grow
//! by one on dispatch and shrink saturating on completion, and cumulative
//! request counts.

use vstd::prelude::*;

verus! {

/// Counters aligned with the target list: position `i` belongs to target
/// `i`.
pub struct TargetStats {
    in_flight: Vec<u64>,
    request_counts: Vec<u64>,
}

impl TargetStats {
    pub closed spec fn spec_in_flight(&self) -> Seq<u64> {
        self.in_flight@
    }

    pub closed spec fn spec_request_counts(&self) -> Seq<u64> {
        self.request_counts@
    }

    pub open spec fn wf(&self) -> bool {
        self.spec_in_flight().len() == self.spec_request_counts().len()
    }

    pub fn new(target_count: usize) -> (r: Self)
        ensures
            r.wf(),
            r.spec_in_flight().len() == target_count,
            forall|i: int| 0 <= i < target_count ==> #[trigger] r.spec_in_flight()[i] == 0,
            forall|i: int| 0 <= i < target_count ==> #[trigger] r.spec_request_counts()[i] == 0,
    {
        let mut in_flight: Vec<u64> = Vec::new();
        let mut request_counts: Vec<u64> = Vec::new();
        let mut i: usize = 0;
        while i < target_count
            invariant
                i <= target_count,
                in_flight@.len() == i,
                request_counts@.len() == i,
                forall|j: int| 0 <= j < i ==> #[trigger] in_flight@[j] == 0,
                forall|j: int| 0 <= j < i ==> #[trigger] request_counts@[j] == 0,
            decreases target_count - i,
        {
            in_flight.push(0);
            request_counts.push(0);
            i += 1;
        }
        TargetStats { in_flight, request_counts }
    }

    pub fn in_flight_counts(&self) -> (r: &Vec<u64>)
        ensures
            r@ == self.spec_in_flight(),
    {
        &self.in_flight
    }

    pub fn request_counts(&self) -> (r: &Vec<u64>)
        ensures
            r@ == self.spec_request_counts(),
    {
        &self.request_counts
    }

    /// One more connection to target `i` is in flight, and its cumulative
    /// request count grows (stopping at the numeric ceiling).
    pub fn record_dispatch(&mut self, i: usize)
        requires
            old(self).wf(),
            i < old(self).spec_in_flight().len(),
            old(self).spec_in_flight()[i as int] < u64::MAX,
        ensures
            final(self).wf(),
            final(self).spec_in_flight() == old(self).spec_in_flight().update(
                i as int,
                (old(self).spec_in_flight()[i as int] + 1) as u64,
            ),
            final(self).spec_request_counts() == old(self).spec_request_counts().update(
                i as int,
                spec_saturating_add_one(old(self).spec_request_counts()[i as int]),
            ),
    {
        let updated = self.in_flight[i] + 1;
        self.in_flight[i] = updated;
        let requests = self.request_counts[i];
        let bumped = if requests < u64::MAX {
            requests + 1
        } else {
            requests
        };
        self.request_counts[i] = bumped;
    }

    /// The connection to target `i` has settled: its in-flight count
    /// shrinks by one, stopping at zero.
    pub fn record_completion(&mut self, i: usize)
        requires
            old(self).wf(),
            i < old(self).spec_in_flight().len(),
        ensures
            final(self).wf(),
            final(self).spec_in_flight() == old(self).spec_in_flight().update(
                i as int,
                spec_saturating_sub_one(old(self).spec_in_flight()[i as int]),
            ),
            final(self).spec_request_counts() == old(self).spec_request_counts(),
    {
        let current = self.in_flight[i];
        let updated = if current > 0 {
            current - 1
        } else {
            0
        };
        self.in_flight[i] = updated;
    }
}

pub open spec fn spec_saturating_add_one(x: u64) -> u64 {
    if x < u64::MAX {
        (x + 1) as u64
    } else {
        x
    }
}

pub open spec fn spec_saturating_sub_one(x: u64) -> u64 {
    if x > 0 {
        (x - 1) as u64
    } else {
        0
    }
}

/// One event of a dispatch history: which target, and whether it is a
/// dispatch (`true`) or a completion (`false`).
pub open spec fn spec_event_counts(events: Seq<(int, bool)>, t: int, dispatch: bool) -> int
    decreases events.len(),
{
    if events.len() == 0 {
        0
    } else {
        spec_event_counts(events.drop_last(), t, dispatch) + (if events.last().0 == t
            && events.last().1 == dispatch {
            1int
        } else {
            0int
        })
    }
}

/// The in-flight counters after a history of events: a dispatch adds one, a
/// completion subtracts one stopping at zero, events aimed outside the
/// counter range do nothing.
pub open spec fn spec_run_events(counts: Seq<int>, events: Seq<(int, bool)>) -> Seq<int>
    decreases events.len(),
{
    if events.len() == 0 {
        counts
    } else {
        let prev = spec_run_events(counts, events.drop_last());
        let (t, dispatch) = events.last();
        if 0 <= t < prev.len() {
            if dispatch {
                prev.update(t, prev[t] + 1)
            } else {
                prev.update(t, if prev[t] > 0 {
                    prev[t] - 1
                } else {
                    0
                })
            }
        } else {
            prev
        }
    }
}

pub open spec fn spec_zero_counts(n: nat) -> Seq<int> {
    Seq::new(n, |i: int| 0)
}

/// A history never completes more than it has dispatched: in every prefix,
/// each target's completions stay at or below its dispatches.
pub open spec fn spec_history_orderly(events: Seq<(int, bool)>, n: nat) -> bool {
    forall|i: int, t: int|
        0 <= i <= events.len() && 0 <= t < n ==> #[trigger] spec_event_counts(
            events.take(i),
            t,
            false,
        ) <= spec_event_counts(events.take(i), t, true)
}

/// The in-flight counters as history values.
pub open spec fn spec_lift_counts(counts: Seq<u64>) -> Seq<int> {
    counts.map_values(|c: u64| c as int)
}

/// A dispatch recorded by `TargetStats::record_dispatch` is one dispatch
/// event of the history model: the updated counters are the history step
/// applied to the old ones.
pub proof fn lemma_dispatch_matches_history(counts: Seq<u64>, i: int)
    requires
        0 <= i < counts.len(),
        counts[i] < u64::MAX,
    ensures
        spec_run_events(spec_lift_counts(counts), seq![(i, true)]) == spec_lift_counts(
            counts.update(i, (counts[i] + 1) as u64),
        ),
{
    let lifted = spec_lift_counts(counts);
    assert(seq![(i, true)].drop_last() =~= Seq::<(int, bool)>::empty());
    assert(spec_run_events(lifted, Seq::<(int, bool)>::empty()) == lifted);
    assert(spec_run_events(lifted, seq![(i, true)]) =~= spec_lift_counts(
        counts.update(i, (counts[i] + 1) as u64),
    ));
}

/// A completion recorded by `TargetStats::record_completion` is one
/// completion event of the history model: the updated counters are the
/// history step applied to the old ones, saturation included.
pub proof fn lemma_completion_matches_history(counts: Seq<u64>, i: int)
    requires
        0 <= i < counts.len(),
    ensures
        spec_run_events(spec_lift_counts(counts), seq![(i, false)]) == spec_lift_counts(
            counts.update(i, spec_saturating_sub_one(counts[i])),
        ),
{
    let lifted = spec_lift_counts(counts);
    assert(seq![(i, false)].drop_last() =~= Seq::<(int, bool)>::empty());
    assert(spec_run_events(lifted, Seq::<(int, bool)>::empty()) == lifted);
    assert(spec_run_events(lifted, seq![(i, false)]) =~= spec_lift_counts(
        counts.update(i, spec_saturating_sub_one(counts[i])),
    ));
}

/// In an orderly history the counter of each target is exactly its
/// dispatches minus its completions: the saturation at zero never bites.
pub proof fn lemma_run_events_exact(events: Seq<(int, bool)>, n: nat)
    requires
        spec_history_orderly(events, n),
    ensures
        spec_run_events(spec_zero_counts(n), events).len() == n,
        forall|t: int|
            0 <= t < n ==> spec_run_events(spec_zero_counts(n), events)[t] == spec_event_counts(
                events,
                t,
                true,
            ) - spec_event_counts(events, t, false),
    decreases events.len(),
{
    if events.len() == 0 {
    } else {
        let shorter = events.drop_last();
        assert(spec_history_orderly(shorter, n)) by {
            assert forall|i: int, t: int|
                0 <= i <= shorter.len() && 0 <= t < n implies #[trigger] spec_event_counts(
                shorter.take(i),
                t,
                false,
            ) <= spec_event_counts(shorter.take(i), t, true) by {
                assert(shorter.take(i) =~= events.take(i));
            }
        }
        lemma_run_events_exact(shorter, n);
        let prev = spec_run_events(spec_zero_counts(n), shorter);
        let (t0, dispatch) = events.last();
        assert forall|t: int|
            0 <= t < n implies spec_run_events(spec_zero_counts(n), events)[t] == spec_event_counts(
            events,
            t,
            true,
        ) - spec_event_counts(events, t, false) by {
            assert(events.take(events.len() as int) =~= events);
            assert(events.take(events.len() - 1) =~= shorter);
            if t == t0 && 0 <= t0 < n && !dispatch {
                assert(spec_event_counts(events, t, false) <= spec_event_counts(events, t, true));
                assert(prev[t] == spec_event_counts(shorter, t, true) - spec_event_counts(
                    shorter,
                    t,
                    false,
                ));
                assert(spec_event_counts(events, t, true) == spec_event_counts(shorter, t, true));
                assert(spec_event_counts(events, t, false) == spec_event_counts(shorter, t, false)
                    + 1);
            }
        }
    }
}

/// After all dispatches settle — an orderly history in which every target
/// has as many completions as dispatches — every in-flight counter is back
/// at zero, so their sum is zero.
pub proof fn lemma_in_flight_balanced(events: Seq<(int, bool)>, n: nat)
    requires
        spec_history_orderly(events, n),
        forall|t: int|
            0 <= t < n ==> spec_event_counts(events, t, false) == spec_event_counts(
                events,
                t,
                true,
            ),
    ensures
        forall|t: int| 0 <= t < n ==> spec_run_events(spec_zero_counts(n), events)[t] == 0,
{
    lemma_run_events_exact(events, n);
}

} // verus!
