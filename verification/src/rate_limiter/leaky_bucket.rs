//! Leaky-bucket rate limiting: each key holds a queue of admission times of
//! bounded depth; entries older than the leak interval drain away.

use vstd::prelude::*;

use crate::key_table::KeyTable;
use crate::rate_limiter::{
    drop_expired, front_expired, lemma_count_admitted_nonneg, lemma_count_at_least_le_len,
    lemma_count_at_least_skip, lemma_drop_expired_len, lemma_drop_expired_window,
    lemma_drop_push_sorted, spec_count_admitted, spec_count_at_least, spec_elapsed, spec_sorted,
    RateLimiter,
};

verus! {

/// Admits a request when, after draining entries older than
/// `leak_rate_millis`, the key's queue holds fewer than `capacity` entries.
pub struct LeakyBucketRateLimiter {
    requests: KeyTable<Vec<u64>>,
    capacity: usize,
    leak_rate_millis: u64,
}

impl LeakyBucketRateLimiter {
    pub closed spec fn spec_capacity(&self) -> usize {
        self.capacity
    }

    pub closed spec fn spec_leak_rate_millis(&self) -> u64 {
        self.leak_rate_millis
    }

    pub closed spec fn spec_contains(&self, key: Seq<char>) -> bool {
        self.requests.spec_contains(key)
    }

    /// The queued admission timestamps of `key`.
    pub closed spec fn spec_at(&self, key: Seq<char>) -> Seq<u64> {
        self.requests.spec_at(key)@
    }

    pub fn new(capacity: usize, leak_rate_millis: u64) -> (r: Self)
        ensures
            r.wf(),
            r.spec_capacity() == capacity,
            r.spec_leak_rate_millis() == leak_rate_millis,
            forall|k: Seq<char>| !r.spec_contains(k),
    {
        LeakyBucketRateLimiter { requests: KeyTable::new(), capacity, leak_rate_millis }
    }
}

impl RateLimiter for LeakyBucketRateLimiter {
    /// No key queues more than `capacity` admissions.
    closed spec fn wf(&self) -> bool {
        &&& self.requests.wf()
        &&& forall|i: int|
            0 <= i < self.requests.spec_vals().len() ==> (#[trigger] self.requests.spec_vals()[i])@.len()
                <= self.capacity
    }

    open spec fn allow_spec(
        pre: Self,
        post: Self,
        key: Seq<char>,
        now_millis: u64,
        admitted: bool,
    ) -> bool {
        let prev: Seq<u64> = if pre.spec_contains(key) {
            pre.spec_at(key)
        } else {
            Seq::empty()
        };
        let kept = drop_expired(prev, now_millis, pre.spec_leak_rate_millis());
        &&& admitted == (kept.len() < pre.spec_capacity())
        &&& post.spec_contains(key)
        &&& post.spec_at(key) == (if admitted {
            kept.push(now_millis)
        } else {
            kept
        })
        &&& post.spec_capacity() == pre.spec_capacity()
        &&& post.spec_leak_rate_millis() == pre.spec_leak_rate_millis()
        &&& forall|k: Seq<char>|
            k !== key ==> post.spec_contains(k) == pre.spec_contains(k) && (pre.spec_contains(k)
                ==> post.spec_at(k) == pre.spec_at(k))
    }

    fn allow(&mut self, key: &str, now_millis: u64) -> (admitted: bool) {
        let k = key.to_owned();
        let leak = self.leak_rate_millis;
        let mut queue: Vec<u64> = match self.requests.find(&k) {
            Some(i) => {
                let ghost ki = crate::key_table::key_index(self.requests.spec_keys(), k@);
                proof {
                    assert(self.requests.spec_vals()[ki]@.len() <= self.capacity);
                }
                self.requests.remove_at(i)
            },
            None => Vec::new(),
        };
        let ghost orig = queue@;
        while front_expired(&queue, now_millis, leak)
            invariant
                drop_expired(queue@, now_millis, leak) == drop_expired(orig, now_millis, leak),
                queue@.len() <= orig.len(),
            decreases queue.len(),
        {
            let ghost before = queue@;
            queue.remove(0);
            proof {
                assert(queue@ =~= before.drop_first());
            }
        }
        proof {
            assert(queue@ == drop_expired(orig, now_millis, leak));
            lemma_drop_expired_len(orig, now_millis, leak);
        }
        let admitted = queue.len() < self.capacity;
        if admitted {
            queue.push(now_millis);
        }
        self.requests.insert_new(k, queue);
        admitted
    }
}

/// One admission decision, read against the whole leak interval: when the
/// queue was written with a monotone clock (so it is sorted), the queue
/// after a call holds exactly the admissions that have not yet leaked —
/// the fresh suffix of the previous queue, plus this call when admitted —
/// and the call is admitted precisely when fewer than `capacity` of them
/// remain. No interval of the leak length therefore ever covers more than
/// `capacity` admissions of one key.
pub proof fn lemma_leaky_bucket_window_law(
    pre: LeakyBucketRateLimiter,
    post: LeakyBucketRateLimiter,
    key: Seq<char>,
    now_millis: u64,
    admitted: bool,
) -> (d: int)
    requires
        LeakyBucketRateLimiter::allow_spec(pre, post, key, now_millis, admitted),
        spec_sorted(if pre.spec_contains(key) {
            pre.spec_at(key)
        } else {
            Seq::empty()
        }),
    ensures
        ({
            let prev: Seq<u64> = if pre.spec_contains(key) {
                pre.spec_at(key)
            } else {
                Seq::empty()
            };
            &&& 0 <= d <= prev.len()
            &&& forall|i: int|
                0 <= i < d ==> spec_elapsed(now_millis, #[trigger] prev[i]) > pre.spec_leak_rate_millis()
            &&& forall|i: int|
                d <= i < prev.len() ==> spec_elapsed(now_millis, #[trigger] prev[i]) <= pre.spec_leak_rate_millis()
            &&& admitted == (prev.len() - d < pre.spec_capacity())
            &&& post.spec_at(key) == (if admitted {
                prev.skip(d).push(now_millis)
            } else {
                prev.skip(d)
            })
        }),
{
    let prev: Seq<u64> = if pre.spec_contains(key) {
        pre.spec_at(key)
    } else {
        Seq::empty()
    };
    lemma_drop_expired_window(prev, now_millis, pre.spec_leak_rate_millis());
    let d = choose|d: int|
        0 <= d <= prev.len() && drop_expired(prev, now_millis, pre.spec_leak_rate_millis()) == prev.skip(d)
            && (forall|i: int|
            0 <= i < d ==> spec_elapsed(now_millis, #[trigger] prev[i]) > pre.spec_leak_rate_millis()) && (
        forall|i: int|
            d <= i < prev.len() ==> spec_elapsed(now_millis, #[trigger] prev[i]) <= pre.spec_leak_rate_millis());
    d
}

/// Under a monotone clock the log stays sorted: when every previous entry
/// lies at or before `now`, the entries kept by a call, plus the admission
/// it may append, are again in order and at or before `now`. This is the
/// inductive step that carries the window law through a run of calls.
pub proof fn lemma_leaky_bucket_sorted_preserved(
    pre: LeakyBucketRateLimiter,
    post: LeakyBucketRateLimiter,
    key: Seq<char>,
    now_millis: u64,
    admitted: bool,
)
    requires
        LeakyBucketRateLimiter::allow_spec(pre, post, key, now_millis, admitted),
        pre.spec_contains(key) ==> spec_sorted(pre.spec_at(key)),
        pre.spec_contains(key) ==> forall|i: int|
            0 <= i < pre.spec_at(key).len() ==> #[trigger] pre.spec_at(key)[i] <= now_millis,
    ensures
        spec_sorted(post.spec_at(key)),
        forall|i: int|
            0 <= i < post.spec_at(key).len() ==> #[trigger] post.spec_at(key)[i] <= now_millis,
{
    let prev: Seq<u64> = if pre.spec_contains(key) {
        pre.spec_at(key)
    } else {
        Seq::empty()
    };
    if pre.spec_contains(key) {
        assert(forall|i: int| 0 <= i < prev.len() ==> #[trigger] prev[i] <= now_millis);
    } else {
        assert(prev =~= Seq::<u64>::empty());
    }
    lemma_drop_push_sorted(prev, now_millis, pre.spec_leak_rate_millis(), admitted);
    if admitted {
        assert(post.spec_at(key) == drop_expired(prev, now_millis, pre.spec_leak_rate_millis()).push(now_millis));
        assert forall|i: int|
            0 <= i < post.spec_at(key).len() implies #[trigger] post.spec_at(key)[i]
            <= now_millis by {
            assert(post.spec_at(key)[i] == drop_expired(prev, now_millis, pre.spec_leak_rate_millis()).push(
                now_millis,
            )[i]);
        }
    } else {
        assert(post.spec_at(key) == drop_expired(prev, now_millis, pre.spec_leak_rate_millis()));
        assert forall|i: int|
            0 <= i < post.spec_at(key).len() implies #[trigger] post.spec_at(key)[i]
            <= now_millis by {
            assert(post.spec_at(key)[i] == drop_expired(prev, now_millis, pre.spec_leak_rate_millis())[i]);
        }
    }
}

/// The queue a limiter holds for `key`: its entries, or nothing for an
/// absent key.
pub open spec fn spec_queue_of(l: LeakyBucketRateLimiter, key: Seq<char>) -> Seq<u64> {
    if l.spec_contains(key) {
        l.spec_at(key)
    } else {
        Seq::empty()
    }
}

/// Whether `states` and `calls` form one run of `allow` calls on `key`:
/// state `i` steps to state `i + 1` under the call at time `calls[i].0`
/// with decision `calls[i].1`.
pub open spec fn spec_leaky_bucket_run(
    states: Seq<LeakyBucketRateLimiter>,
    calls: Seq<(u64, bool)>,
    key: Seq<char>,
) -> bool {
    &&& states.len() == calls.len() + 1
    &&& forall|i: int|
        0 <= i < calls.len() ==> LeakyBucketRateLimiter::allow_spec(
            #[trigger] states[i],
            states[i + 1],
            key,
            calls[i].0,
            calls[i].1,
        )
}

/// One call of a run, seen through the run's bookkeeping: the admissions
/// made since `t0` all survive in the queue (they are too young to leak),
/// a new admission needs the kept queue, which holds them, to be below the
/// capacity, and the queue stays sorted and bounded by the clock.
proof fn lemma_leaky_bucket_run_step(
    pre: LeakyBucketRateLimiter,
    post: LeakyBucketRateLimiter,
    key: Seq<char>,
    now: u64,
    admitted: bool,
    t0: u64,
    admitted_before: int,
)
    requires
        LeakyBucketRateLimiter::allow_spec(pre, post, key, now, admitted),
        t0 <= now,
        spec_elapsed(now, t0) <= pre.spec_leak_rate_millis(),
        admitted_before >= 0,
        spec_sorted(spec_queue_of(pre, key)),
        forall|i: int|
            0 <= i < spec_queue_of(pre, key).len() ==> #[trigger] spec_queue_of(pre, key)[i] <= now,
        spec_count_at_least(spec_queue_of(pre, key), t0) >= admitted_before,
    ensures
        post.spec_contains(key),
        spec_sorted(spec_queue_of(post, key)),
        forall|i: int|
            0 <= i < spec_queue_of(post, key).len() ==> #[trigger] spec_queue_of(post, key)[i] <= now,
        spec_count_at_least(spec_queue_of(post, key), t0) >= admitted_before + (if admitted {
            1int
        } else {
            0int
        }),
        admitted ==> admitted_before < pre.spec_capacity(),
        post.spec_capacity() == pre.spec_capacity(),
        post.spec_leak_rate_millis() == pre.spec_leak_rate_millis(),
{
    let prev = spec_queue_of(pre, key);
    let window = pre.spec_leak_rate_millis();
    lemma_drop_expired_window(prev, now, window);
    let d = choose|d: int|
        0 <= d <= prev.len() && drop_expired(prev, now, window) == prev.skip(d) && (forall|i: int|
            0 <= i < d ==> spec_elapsed(now, #[trigger] prev[i]) > window) && (forall|i: int|
            d <= i < prev.len() ==> spec_elapsed(now, #[trigger] prev[i]) <= window);
    // The kept entries of this call are exactly that suffix.
    assert(post.spec_at(key) == (if admitted {
        prev.skip(d).push(now)
    } else {
        prev.skip(d)
    }));
    assert(admitted == (prev.skip(d).len() < pre.spec_capacity()));
    assert forall|i: int| 0 <= i < d implies #[trigger] prev[i] < t0 by {
        assert(spec_queue_of(pre, key)[i] == prev[i]);
        if prev[i] >= t0 {
            assert(prev[i] <= now);
            assert(spec_elapsed(now, prev[i]) <= spec_elapsed(now, t0));
        }
    }
    lemma_count_at_least_skip(prev, t0, d);
    lemma_count_at_least_le_len(prev.skip(d), t0);
    if admitted {
        assert(prev.skip(d).push(now).drop_last() =~= prev.skip(d));
        assert(spec_count_at_least(prev.skip(d).push(now), t0) == spec_count_at_least(
            prev.skip(d),
            t0,
        ) + 1);
        assert(admitted_before <= prev.skip(d).len());
    }
    lemma_leaky_bucket_sorted_preserved(pre, post, key, now, admitted);
}

/// The interval item over whole runs: a run of calls on one key, made with a
/// monotone clock over a history whose log is likewise monotone, and whose
/// times all span at most one leak interval, admits at most `capacity` calls — every
/// admission of the run is still in the queue, which must hold fewer than
/// `capacity` entries at each admission.
pub proof fn lemma_leaky_bucket_run_bound(
    states: Seq<LeakyBucketRateLimiter>,
    calls: Seq<(u64, bool)>,
    key: Seq<char>,
)
    requires
        states.len() > 0,
        spec_leaky_bucket_run(states, calls, key),
        forall|i: int, j: int| 0 <= i <= j < calls.len() ==> calls[i].0 <= calls[j].0,
        forall|i: int, j: int|
            0 <= i <= j < calls.len() ==> spec_elapsed(calls[j].0, calls[i].0)
                <= states[0].spec_leak_rate_millis(),
        spec_sorted(spec_queue_of(states[0], key)),
        calls.len() > 0 ==> forall|i: int|
            0 <= i < spec_queue_of(states[0], key).len() ==> #[trigger] spec_queue_of(
                states[0],
                key,
            )[i] <= calls[0].0,
    ensures
        spec_count_admitted(calls) <= states[0].spec_capacity(),
        states.last().spec_capacity() == states[0].spec_capacity(),
        states.last().spec_leak_rate_millis() == states[0].spec_leak_rate_millis(),
        spec_sorted(spec_queue_of(states.last(), key)),
        calls.len() > 0 ==> {
            &&& states.last().spec_contains(key)
            &&& (forall|i: int|
                0 <= i < spec_queue_of(states.last(), key).len() ==> #[trigger] spec_queue_of(
                    states.last(),
                    key,
                )[i] <= calls.last().0)
            &&& spec_count_at_least(spec_queue_of(states.last(), key), calls[0].0)
                >= spec_count_admitted(calls)
        },
    decreases calls.len(),
{
    if calls.len() == 0 {
        return ;
    }
    let n = calls.len() as int;
    let shorter = calls.drop_last();
    let states_short = states.drop_last();
    assert(spec_leaky_bucket_run(states_short, shorter, key)) by {
        assert forall|i: int|
            0 <= i < shorter.len() implies LeakyBucketRateLimiter::allow_spec(
            #[trigger] states_short[i],
            states_short[i + 1],
            key,
            shorter[i].0,
            shorter[i].1,
        ) by {
            assert(states_short[i] == states[i]);
            assert(states_short[i + 1] == states[i + 1]);
            assert(shorter[i] == calls[i]);
        }
    }
    assert(forall|i: int, j: int| 0 <= i <= j < shorter.len() ==> shorter[i].0 <= shorter[j].0);
    assert(forall|i: int, j: int|
        0 <= i <= j < shorter.len() ==> spec_elapsed(shorter[j].0, shorter[i].0)
            <= states[0].spec_leak_rate_millis());
    lemma_leaky_bucket_run_bound(states_short, shorter, key);
    let pre = states[n - 1];
    let post = states[n];
    let now = calls[n - 1].0;
    let admitted = calls[n - 1].1;
    let t0 = calls[0].0;
    let admitted_before = spec_count_admitted(shorter);
    assert(states_short.last() == pre);
    assert(states.last() == post);
    assert(LeakyBucketRateLimiter::allow_spec(pre, post, key, now, admitted));
    assert(calls.drop_last() == shorter);
    assert(t0 <= now && spec_elapsed(now, t0) <= pre.spec_leak_rate_millis());
    assert(admitted_before >= 0) by {
        lemma_count_admitted_nonneg(shorter);
    }
    assert(forall|i: int|
        0 <= i < spec_queue_of(pre, key).len() ==> #[trigger] spec_queue_of(pre, key)[i] <= now) by {
        if n == 1 {
        } else {
            assert(shorter[0] == calls[0]);
            assert(shorter.last() == calls[n - 2]);
            assert(calls[n - 2].0 <= now);
        }
    }
    assert(spec_count_at_least(spec_queue_of(pre, key), t0) >= admitted_before) by {
        if n == 1 {
            lemma_count_at_least_le_len(spec_queue_of(pre, key), t0);
        } else {
            assert(shorter[0] == calls[0]);
        }
    }
    lemma_leaky_bucket_run_step(pre, post, key, now, admitted, t0, admitted_before);
    assert(spec_count_admitted(calls) == admitted_before + (if admitted {
        1int
    } else {
        0int
    }));
}

/// At every point, a key's queue holds at most `capacity` admission times:
/// the bucket never holds more than its depth.
pub proof fn lemma_leaky_bucket_admissions_bounded(l: LeakyBucketRateLimiter, key: Seq<char>)
    requires
        l.wf(),
        l.spec_contains(key),
    ensures
        l.spec_at(key).len() <= l.spec_capacity(),
{
    crate::key_table::lemma_key_index(l.spec_keys_for_proof(), key);
}

impl LeakyBucketRateLimiter {
    /// The key sequence of the underlying table, for proofs about it.
    pub closed spec fn spec_keys_for_proof(&self) -> Seq<Seq<char>> {
        self.requests.spec_keys()
    }
}

} // verus!
