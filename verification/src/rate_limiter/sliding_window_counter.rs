//! Sliding-window-counter rate limiting: each key keeps a short run of
//! sub-windows of fixed granularity, each counting its admissions; requests
//! are judged against the summed counts of the sub-windows still inside the
//! sliding window.

use vstd::prelude::*;

use crate::key_table::KeyTable;
use crate::rate_limiter::{spec_elapsed, RateLimiter};

verus! {

/// One sub-window: when it opened and how many admissions it has counted.
#[derive(Clone, Copy)]
pub struct TimeWindow {
    pub start: u64,
    pub count: u32,
}

/// The sub-windows left after dropping, from the front, those that start
/// before `keep_from`.
pub open spec fn drop_old_windows(wins: Seq<TimeWindow>, keep_from: u64) -> Seq<TimeWindow>
    decreases wins.len(),
{
    if wins.len() > 0 && wins[0].start < keep_from {
        drop_old_windows(wins.drop_first(), keep_from)
    } else {
        wins
    }
}

/// The summed admission counts of a run of sub-windows.
pub open spec fn sum_counts(wins: Seq<TimeWindow>) -> int
    decreases wins.len(),
{
    if wins.len() == 0 {
        0
    } else {
        sum_counts(wins.drop_last()) + wins.last().count
    }
}

/// Dropping sub-windows never grows the run.
pub proof fn lemma_drop_old_windows_len(wins: Seq<TimeWindow>, keep_from: u64)
    ensures
        drop_old_windows(wins, keep_from).len() <= wins.len(),
    decreases wins.len(),
{
    if wins.len() > 0 && wins[0].start < keep_from {
        lemma_drop_old_windows_len(wins.drop_first(), keep_from);
    }
}

/// Admits while the counts of the sub-windows within the sliding window sum
/// to at most `limit`. Requires `window_size_millis > granularity_millis`.
pub struct SlidingWindowCounterRateLimiter {
    windows: KeyTable<Vec<TimeWindow>>,
    limit: u32,
    window_size_millis: u64,
    granularity_millis: u64,
}

impl SlidingWindowCounterRateLimiter {
    pub closed spec fn spec_limit(&self) -> u32 {
        self.limit
    }

    pub closed spec fn spec_window_millis(&self) -> u64 {
        self.window_size_millis
    }

    pub closed spec fn spec_granularity_millis(&self) -> u64 {
        self.granularity_millis
    }

    pub closed spec fn spec_contains(&self, key: Seq<char>) -> bool {
        self.windows.spec_contains(key)
    }

    /// The sub-windows of `key`, oldest first.
    pub closed spec fn spec_at(&self, key: Seq<char>) -> Seq<TimeWindow> {
        self.windows.spec_at(key)@
    }

    /// A meaningful sliding window needs more than one granularity step in
    /// it, so a configuration with `window_size_millis <= granularity_millis`
    /// is rejected.
    pub fn new(limit: u32, window_size_millis: u64, granularity_millis: u64) -> (r: Option<Self>)
        ensures
            r.is_some() == (window_size_millis > granularity_millis),
            match r {
                Some(l) => {
                    &&& l.wf()
                    &&& l.spec_limit() == limit
                    &&& l.spec_window_millis() == window_size_millis
                    &&& l.spec_granularity_millis() == granularity_millis
                    &&& forall|k: Seq<char>| !l.spec_contains(k)
                },
                None => true,
            },
    {
        if window_size_millis > granularity_millis {
            Some(
                SlidingWindowCounterRateLimiter {
                    windows: KeyTable::new(),
                    limit,
                    window_size_millis,
                    granularity_millis,
                },
            )
        } else {
            None
        }
    }
}

/// Whether the oldest sub-window starts before `keep_from`.
fn front_window_old(wins: &Vec<TimeWindow>, keep_from: u64) -> (r: bool)
    ensures
        r == (wins@.len() > 0 && wins@[0].start < keep_from),
{
    if wins.len() == 0 {
        return false;
    }
    wins[0].start < keep_from
}

impl RateLimiter for SlidingWindowCounterRateLimiter {
    /// The window is wider than the granularity and every sub-window counts
    /// between 1 and `limit` admissions.
    closed spec fn wf(&self) -> bool {
        &&& self.window_size_millis > self.granularity_millis
        &&& self.windows.wf()
        &&& forall|i: int|
            0 <= i < self.windows.spec_vals().len() ==> {
                let w = #[trigger] self.windows.spec_vals()[i]@;
                forall|j: int|
                    0 <= j < w.len() ==> 1 <= (#[trigger] w[j]).count && ((w[j]).count == 1 || (
                    w[j]).count <= self.limit)
            }
    }

    open spec fn allow_spec(
        pre: Self,
        post: Self,
        key: Seq<char>,
        now_millis: u64,
        admitted: bool,
    ) -> bool {
        let prev: Seq<TimeWindow> = if pre.spec_contains(key) {
            pre.spec_at(key)
        } else {
            Seq::empty()
        };
        let keep_from = spec_elapsed(now_millis, pre.spec_window_millis());
        let kept = drop_old_windows(prev, keep_from);
        let full_latest = kept.len() > 0 && spec_elapsed(now_millis, kept.last().start)
            <= pre.spec_granularity_millis() && kept.last().count >= pre.spec_limit();
        let updated = if kept.len() == 0 || spec_elapsed(now_millis, kept.last().start)
            > pre.spec_granularity_millis() {
            kept.push(TimeWindow { start: now_millis, count: 1 })
        } else {
            kept.update(
                kept.len() - 1,
                TimeWindow { start: kept.last().start, count: (kept.last().count + 1) as u32 },
            )
        };
        &&& post.spec_contains(key)
        &&& if full_latest {
            &&& admitted == false
            &&& post.spec_at(key) == kept
        } else {
            &&& admitted == (sum_counts(updated) <= pre.spec_limit())
            &&& post.spec_at(key) == updated
        }
        &&& post.spec_limit() == pre.spec_limit()
        &&& post.spec_window_millis() == pre.spec_window_millis()
        &&& post.spec_granularity_millis() == pre.spec_granularity_millis()
        &&& forall|k: Seq<char>|
            k !== key ==> post.spec_contains(k) == pre.spec_contains(k) && (pre.spec_contains(k)
                ==> post.spec_at(k) == pre.spec_at(k))
    }

    fn allow(&mut self, key: &str, now_millis: u64) -> (admitted: bool) {
        let k = key.to_owned();
        let keep_from = if now_millis >= self.window_size_millis {
            now_millis - self.window_size_millis
        } else {
            0
        };
        let ghost limit_g = self.limit;
        let mut wins: Vec<TimeWindow> = match self.windows.find(&k) {
            Some(i) => {
                proof {
                    assert(forall|j: int|
                        0 <= j < self.windows.spec_vals()[i as int]@.len() ==> 1 <= (
                        #[trigger] self.windows.spec_vals()[i as int]@[j]).count && ((
                        self.windows.spec_vals()[i as int]@[j]).count == 1 || (
                        self.windows.spec_vals()[i as int]@[j]).count <= self.limit));
                }
                self.windows.remove_at(i)
            },
            None => Vec::new(),
        };
        let ghost orig = wins@;
        while front_window_old(&wins, keep_from)
            invariant
                drop_old_windows(wins@, keep_from) == drop_old_windows(orig, keep_from),
                forall|j: int|
                    0 <= j < wins@.len() ==> 1 <= (#[trigger] wins@[j]).count && ((wins@[j]).count
                    == 1 || (wins@[j]).count <= limit_g),
            decreases wins.len(),
        {
            let ghost before = wins@;
            wins.remove(0);
            proof {
                assert(wins@ =~= before.drop_first());
            }
        }
        proof {
            assert(wins@ == drop_old_windows(orig, keep_from));
        }
        let n = wins.len();
        let mut rejected_without_count = false;
        if n > 0 {
            let last = wins[n - 1];
            let since = if now_millis >= last.start {
                now_millis - last.start
            } else {
                0
            };
            if since > self.granularity_millis {
                wins.push(TimeWindow { start: now_millis, count: 1 });
            } else if last.count < self.limit {
                let bumped = TimeWindow { start: last.start, count: last.count + 1 };
                wins[n - 1] = bumped;
                proof {
                    assert(wins@ =~= drop_old_windows(orig, keep_from).update(
                        n - 1,
                        TimeWindow {
                            start: drop_old_windows(orig, keep_from).last().start,
                            count: (drop_old_windows(orig, keep_from).last().count + 1) as u32,
                        },
                    ));
                }
            } else {
                rejected_without_count = true;
            }
        } else {
            wins.push(TimeWindow { start: now_millis, count: 1 });
        }
        if rejected_without_count {
            self.windows.insert_new(k, wins);
            return false;
        }
        let m = wins.len();
        let mut total: u128 = 0;
        let mut i: usize = 0;
        while i < m
            invariant
                i <= m,
                m == wins@.len(),
                total == sum_counts(wins@.take(i as int)),
                total <= i as int * 0xffff_ffffu32 as int,
            decreases m - i,
        {
            proof {
                assert(wins@.take(i as int + 1).drop_last() =~= wins@.take(i as int));
                assert(wins@.take(i as int + 1).last() == wins@[i as int]);
            }
            total = total + wins[i].count as u128;
            i += 1;
        }
        proof {
            assert(wins@.take(m as int) =~= wins@);
        }
        let admitted = total <= self.limit as u128;
        self.windows.insert_new(k, wins);
        admitted
    }
}

/// A sub-window is only ever extended while strictly below the limit, so no
/// sub-window of any key ever counts more than `limit` admissions (beyond
/// the single admission that opens it).
pub proof fn lemma_sliding_counter_subwindow_bounded(
    l: SlidingWindowCounterRateLimiter,
    key: Seq<char>,
    j: int,
)
    requires
        l.wf(),
        l.spec_contains(key),
        0 <= j < l.spec_at(key).len(),
    ensures
        l.spec_at(key)[j].count <= l.spec_limit() || l.spec_at(key)[j].count == 1,
{
    crate::key_table::lemma_key_index(l.spec_keys_for_proof(), key);
}

impl SlidingWindowCounterRateLimiter {
    /// The key sequence of the underlying table, for proofs about it.
    pub closed spec fn spec_keys_for_proof(&self) -> Seq<Seq<char>> {
        self.windows.spec_keys()
    }
}

} // verus!
