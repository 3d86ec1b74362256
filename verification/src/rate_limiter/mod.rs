//! Per-client admission control: five keyed rate-limiting algorithms and a
//! pass-through limiter, all behind one trait. Keys are client addresses;
//! the clock is passed in explicitly as milliseconds.

use vstd::prelude::*;

pub mod fixed_window;
pub mod leaky_bucket;
pub mod sliding_window_counter;
pub mod sliding_window_log;
pub mod token_bucket;

verus! {

/// `a - b`, stopping at zero: how much time has passed from `b` to `a` when
/// the clock may have moved backwards.
pub open spec fn spec_elapsed(now: u64, then: u64) -> u64 {
    if now >= then {
        (now - then) as u64
    } else {
        0
    }
}

/// The timestamps left after dropping, from the front, every entry that lies
/// more than `window` milliseconds before `now`.
pub open spec fn drop_expired(times: Seq<u64>, now: u64, window: u64) -> Seq<u64>
    decreases times.len(),
{
    if times.len() > 0 && spec_elapsed(now, times[0]) > window {
        drop_expired(times.drop_first(), now, window)
    } else {
        times
    }
}

/// Dropping never grows the sequence, and what is left is a suffix whose
/// entries it keeps in order.
pub proof fn lemma_drop_expired_len(times: Seq<u64>, now: u64, window: u64)
    ensures
        drop_expired(times, now, window).len() <= times.len(),
    decreases times.len(),
{
    if times.len() > 0 && spec_elapsed(now, times[0]) > window {
        lemma_drop_expired_len(times.drop_first(), now, window);
    }
}

/// Timestamps in nondecreasing order, as a log written with a monotone
/// clock is.
pub open spec fn spec_sorted(times: Seq<u64>) -> bool {
    forall|i: int, j: int| 0 <= i <= j < times.len() ==> times[i] <= times[j]
}

/// On a sorted log, dropping removes exactly the entries that lie more
/// than `window` before `now`: what is left is the suffix of entries
/// within the window.
pub proof fn lemma_drop_expired_window(times: Seq<u64>, now: u64, window: u64)
    requires
        spec_sorted(times),
    ensures
        exists|d: int|
            0 <= d <= times.len() && drop_expired(times, now, window) == times.skip(d) && (forall|
                i: int,
            |
                0 <= i < d ==> spec_elapsed(now, #[trigger] times[i]) > window) && (forall|i: int|
                d <= i < times.len() ==> spec_elapsed(now, #[trigger] times[i]) <= window),
    decreases times.len(),
{
    if times.len() == 0 {
        assert(drop_expired(times, now, window) == times.skip(0)) by {
            assert(times.skip(0) =~= times);
        }
        assert(0 <= 0 <= times.len() && drop_expired(times, now, window) == times.skip(0) && (
        forall|i: int| 0 <= i < 0 ==> spec_elapsed(now, #[trigger] times[i]) > window) && (forall|
            i: int,
        |
            0 <= i < times.len() ==> spec_elapsed(now, #[trigger] times[i]) <= window));
    } else if spec_elapsed(now, times[0]) > window {
        assert(spec_sorted(times.drop_first())) by {
            assert forall|i: int, j: int|
                0 <= i <= j < times.drop_first().len() implies times.drop_first()[i]
                <= times.drop_first()[j] by {
                assert(times.drop_first()[i] == times[i + 1]);
                assert(times.drop_first()[j] == times[j + 1]);
            }
        }
        lemma_drop_expired_window(times.drop_first(), now, window);
        let d0 = choose|d: int|
            0 <= d <= times.drop_first().len() && drop_expired(times.drop_first(), now, window)
                == times.drop_first().skip(d) && (forall|i: int|
                0 <= i < d ==> spec_elapsed(now, #[trigger] times.drop_first()[i]) > window) && (
            forall|i: int|
                d <= i < times.drop_first().len() ==> spec_elapsed(
                    now,
                    #[trigger] times.drop_first()[i],
                ) <= window);
        let d = d0 + 1;
        assert(times.drop_first().skip(d0) =~= times.skip(d));
        assert forall|i: int| 0 <= i < d implies spec_elapsed(now, #[trigger] times[i])
            > window by {
            if i > 0 {
                assert(times.drop_first()[i - 1] == times[i]);
            }
        }
        assert forall|i: int| d <= i < times.len() implies spec_elapsed(now, #[trigger] times[i])
            <= window by {
            assert(times.drop_first()[i - 1] == times[i]);
        }
        assert(0 <= d <= times.len() && drop_expired(times, now, window) == times.skip(d) && (
        forall|i: int| 0 <= i < d ==> spec_elapsed(now, #[trigger] times[i]) > window) && (forall|
            i: int,
        |
            d <= i < times.len() ==> spec_elapsed(now, #[trigger] times[i]) <= window));
    } else {
        assert(drop_expired(times, now, window) == times.skip(0)) by {
            assert(times.skip(0) =~= times);
        }
        assert forall|i: int| 0 <= i < times.len() implies spec_elapsed(now, #[trigger] times[i])
            <= window by {
            assert(times[0] <= times[i]);
        }
        assert(0 <= 0 <= times.len() && drop_expired(times, now, window) == times.skip(0) && (
        forall|i: int| 0 <= i < 0 ==> spec_elapsed(now, #[trigger] times[i]) > window) && (forall|
            i: int,
        |
            0 <= i < times.len() ==> spec_elapsed(now, #[trigger] times[i]) <= window));
    }
}

/// A sorted log whose entries do not pass `now` stays that way through a
/// drop and a push of `now`: the inductive step that keeps the logs of the
/// sliding-window and leaky-bucket limiters sorted under a monotone clock.
pub proof fn lemma_drop_push_sorted(times: Seq<u64>, now: u64, window: u64, push_now: bool)
    requires
        spec_sorted(times),
        forall|i: int| 0 <= i < times.len() ==> #[trigger] times[i] <= now,
    ensures
        push_now ==> spec_sorted(drop_expired(times, now, window).push(now)) && (forall|i: int|
            0 <= i < drop_expired(times, now, window).push(now).len()
                ==> #[trigger] drop_expired(times, now, window).push(now)[i] <= now),
        !push_now ==> spec_sorted(drop_expired(times, now, window)) && (forall|i: int|
            0 <= i < drop_expired(times, now, window).len() ==> #[trigger] drop_expired(
                times,
                now,
                window,
            )[i] <= now),
{
    lemma_drop_expired_window(times, now, window);
    let d = choose|d: int|
        0 <= d <= times.len() && drop_expired(times, now, window) == times.skip(d) && (forall|
            i: int,
        |
            0 <= i < d ==> spec_elapsed(now, #[trigger] times[i]) > window) && (forall|i: int|
            d <= i < times.len() ==> spec_elapsed(now, #[trigger] times[i]) <= window);
    let kept = times.skip(d);
    assert(spec_sorted(kept)) by {
        assert forall|i: int, j: int| 0 <= i <= j < kept.len() implies kept[i] <= kept[j] by {
            assert(kept[i] == times[d + i]);
            assert(kept[j] == times[d + j]);
        }
    }
    assert(forall|i: int| 0 <= i < kept.len() ==> #[trigger] kept[i] <= now);
    if push_now {
        let pushed = kept.push(now);
        assert(spec_sorted(pushed)) by {
            assert forall|i: int, j: int|
                0 <= i <= j < pushed.len() implies pushed[i] <= pushed[j] by {
                if j < kept.len() {
                    assert(pushed[i] == kept[i] && pushed[j] == kept[j]);
                } else if i < kept.len() {
                    assert(pushed[i] == kept[i] && pushed[j] == now);
                }
            }
        }
    }
}

/// How many calls of a run were admitted.
pub open spec fn spec_count_admitted(calls: Seq<(u64, bool)>) -> int
    decreases calls.len(),
{
    if calls.len() == 0 {
        0
    } else {
        spec_count_admitted(calls.drop_last()) + (if calls.last().1 {
            1int
        } else {
            0int
        })
    }
}

/// Admission counts never go below zero.
pub proof fn lemma_count_admitted_nonneg(calls: Seq<(u64, bool)>)
    ensures
        spec_count_admitted(calls) >= 0,
    decreases calls.len(),
{
    if calls.len() > 0 {
        lemma_count_admitted_nonneg(calls.drop_last());
    }
}

/// How many logged timestamps lie at or after `t0`.
pub open spec fn spec_count_at_least(times: Seq<u64>, t0: u64) -> int
    decreases times.len(),
{
    if times.len() == 0 {
        0
    } else {
        spec_count_at_least(times.drop_last(), t0) + (if times.last() >= t0 {
            1int
        } else {
            0int
        })
    }
}

pub proof fn lemma_count_at_least_le_len(times: Seq<u64>, t0: u64)
    ensures
        0 <= spec_count_at_least(times, t0) <= times.len(),
    decreases times.len(),
{
    if times.len() > 0 {
        lemma_count_at_least_le_len(times.drop_last(), t0);
    }
}

/// Entries below `t0` are all the count sees of a sequence of them.
pub proof fn lemma_count_at_least_all_below(times: Seq<u64>, t0: u64)
    requires
        forall|i: int| 0 <= i < times.len() ==> #[trigger] times[i] < t0,
    ensures
        spec_count_at_least(times, t0) == 0,
    decreases times.len(),
{
    if times.len() > 0 {
        assert(forall|i: int|
            0 <= i < times.drop_last().len() ==> #[trigger] times.drop_last()[i] == times[i]);
        lemma_count_at_least_all_below(times.drop_last(), t0);
    }
}

/// Dropping a prefix that lies entirely below `t0` keeps the count.
pub proof fn lemma_count_at_least_skip(times: Seq<u64>, t0: u64, d: int)
    requires
        0 <= d <= times.len(),
        forall|i: int| 0 <= i < d ==> #[trigger] times[i] < t0,
    ensures
        spec_count_at_least(times.skip(d), t0) == spec_count_at_least(times, t0),
    decreases times.len(),
{
    if d == times.len() {
        assert(times.skip(d) =~= Seq::<u64>::empty());
        lemma_count_at_least_all_below(times, t0);
    } else {
        assert(forall|i: int|
            0 <= i < times.drop_last().len() ==> #[trigger] times.drop_last()[i] == times[i]);
        lemma_count_at_least_skip(times.drop_last(), t0, d);
        assert(times.skip(d).drop_last() =~= times.drop_last().skip(d));
        assert(times.skip(d).last() == times.last());
    }
}

/// Whether the oldest logged timestamp lies more than `window_millis` before
/// `now_millis`.
pub(crate) fn front_expired(times: &Vec<u64>, now_millis: u64, window_millis: u64) -> (r: bool)
    ensures
        r == (times@.len() > 0 && spec_elapsed(now_millis, times@[0]) > window_millis),
{
    if times.len() == 0 {
        return false;
    }
    let t = times[0];
    let elapsed = if now_millis >= t {
        now_millis - t
    } else {
        0
    };
    elapsed > window_millis
}

/// One admission decision per call: `allow` answers whether the request from
/// `key` at time `now_millis` is admitted, updating the per-key state.
pub trait RateLimiter: Sized {
    /// Internal invariant of the limiter state.
    spec fn wf(&self) -> bool;

    /// Exactly what one `allow` call does: how the state after (`post`)
    /// follows from the state before (`pre`), the key, the clock, and what
    /// the decision was.
    spec fn allow_spec(pre: Self, post: Self, key: Seq<char>, now_millis: u64, admitted: bool) -> bool;

    fn allow(&mut self, key: &str, now_millis: u64) -> (admitted: bool)
        requires
            old(self).wf(),
        ensures
            final(self).wf(),
            Self::allow_spec(*old(self), *final(self), key@, now_millis, admitted),
    ;
}

use crate::config::RateLimitingConfig;
use crate::rate_limiter::fixed_window::FixedWindowRateLimiter;
use crate::rate_limiter::leaky_bucket::LeakyBucketRateLimiter;
use crate::rate_limiter::sliding_window_counter::SlidingWindowCounterRateLimiter;
use crate::rate_limiter::sliding_window_log::SlidingWindowLogRateLimiter;
use crate::rate_limiter::token_bucket::TokenBucketRateLimiter;

/// Admits every request; used when no rate-limiting is configured.
pub struct NoOpRateLimiter;

impl RateLimiter for NoOpRateLimiter {
    open spec fn wf(&self) -> bool {
        true
    }

    open spec fn allow_spec(
        pre: Self,
        post: Self,
        key: Seq<char>,
        now_millis: u64,
        admitted: bool,
    ) -> bool {
        admitted
    }

    fn allow(&mut self, key: &str, now_millis: u64) -> (admitted: bool) {
        true
    }
}

/// The rate limiter a configuration selects: one of the five algorithms, or
/// the pass-through limiter.
pub enum ConfiguredRateLimiter {
    NoOp(NoOpRateLimiter),
    FixedWindow(FixedWindowRateLimiter),
    SlidingLog(SlidingWindowLogRateLimiter),
    SlidingCounter(SlidingWindowCounterRateLimiter),
    TokenBucket(TokenBucketRateLimiter),
    LeakyBucket(LeakyBucketRateLimiter),
}

impl RateLimiter for ConfiguredRateLimiter {
    open spec fn wf(&self) -> bool {
        match self {
            ConfiguredRateLimiter::NoOp(l) => l.wf(),
            ConfiguredRateLimiter::FixedWindow(l) => l.wf(),
            ConfiguredRateLimiter::SlidingLog(l) => l.wf(),
            ConfiguredRateLimiter::SlidingCounter(l) => l.wf(),
            ConfiguredRateLimiter::TokenBucket(l) => l.wf(),
            ConfiguredRateLimiter::LeakyBucket(l) => l.wf(),
        }
    }

    open spec fn allow_spec(
        pre: Self,
        post: Self,
        key: Seq<char>,
        now_millis: u64,
        admitted: bool,
    ) -> bool {
        match (pre, post) {
            (
                ConfiguredRateLimiter::NoOp(a),
                ConfiguredRateLimiter::NoOp(b),
            ) => NoOpRateLimiter::allow_spec(a, b, key, now_millis, admitted),
            (
                ConfiguredRateLimiter::FixedWindow(a),
                ConfiguredRateLimiter::FixedWindow(b),
            ) => FixedWindowRateLimiter::allow_spec(a, b, key, now_millis, admitted),
            (
                ConfiguredRateLimiter::SlidingLog(a),
                ConfiguredRateLimiter::SlidingLog(b),
            ) => SlidingWindowLogRateLimiter::allow_spec(a, b, key, now_millis, admitted),
            (
                ConfiguredRateLimiter::SlidingCounter(a),
                ConfiguredRateLimiter::SlidingCounter(b),
            ) => SlidingWindowCounterRateLimiter::allow_spec(a, b, key, now_millis, admitted),
            (
                ConfiguredRateLimiter::TokenBucket(a),
                ConfiguredRateLimiter::TokenBucket(b),
            ) => TokenBucketRateLimiter::allow_spec(a, b, key, now_millis, admitted),
            (
                ConfiguredRateLimiter::LeakyBucket(a),
                ConfiguredRateLimiter::LeakyBucket(b),
            ) => LeakyBucketRateLimiter::allow_spec(a, b, key, now_millis, admitted),
            _ => false,
        }
    }

    fn allow(&mut self, key: &str, now_millis: u64) -> (admitted: bool) {
        match self {
            ConfiguredRateLimiter::NoOp(l) => l.allow(key, now_millis),
            ConfiguredRateLimiter::FixedWindow(l) => l.allow(key, now_millis),
            ConfiguredRateLimiter::SlidingLog(l) => l.allow(key, now_millis),
            ConfiguredRateLimiter::SlidingCounter(l) => l.allow(key, now_millis),
            ConfiguredRateLimiter::TokenBucket(l) => l.allow(key, now_millis),
            ConfiguredRateLimiter::LeakyBucket(l) => l.allow(key, now_millis),
        }
    }
}

/// Whether a rate-limiting configuration can be acted on: the strategies
/// that divide by a window or interval need it positive, the strategies
/// with extra parameters need them present, and windows in seconds must fit
/// in milliseconds. A configuration whose strategy name is none of the five
/// known ones selects the pass-through limiter and needs nothing.
pub open spec fn limiter_config_usable(c: RateLimitingConfig) -> bool {
    &&& (c.strategy@ == "FixedWindow"@ ==> c.window_size_seconds >= 1 && c.window_size_seconds
        * 1000 <= u64::MAX)
    &&& (c.strategy@ == "SlidingWindow"@ ==> c.window_size_seconds * 1000 <= u64::MAX)
    &&& (c.strategy@ == "TokenBucket"@ ==> c.refill_amount.is_some() && c.window_size_seconds >= 1
        && c.window_size_seconds * 1000 <= u64::MAX)
    &&& (c.strategy@ == "LeakyBucket"@ ==> c.capacity.is_some() && c.leak_rate_seconds.is_some()
        && c.leak_rate_seconds.unwrap() * 1000 <= u64::MAX)
    &&& (c.strategy@ == "SlidingWindowCounter"@ ==> c.granularity_seconds.is_some()
        && c.window_size_seconds > c.granularity_seconds.unwrap() && c.window_size_seconds * 1000
        <= u64::MAX)
}

/// Builds the limiter a configuration names, converting its windows to
/// milliseconds; no configuration, or an unknown strategy name, yields the
/// pass-through limiter.
pub fn create_rate_limiter(config: Option<RateLimitingConfig>) -> (r: ConfiguredRateLimiter)
    requires
        match config {
            Some(c) => limiter_config_usable(c),
            None => true,
        },
    ensures
        r.wf(),
        match config {
            Some(c) => {
                &&& (c.strategy@ == "FixedWindow"@ ==> (r
                    matches ConfiguredRateLimiter::FixedWindow(l) && l.spec_limit() == c.limit
                    && l.spec_window_millis() == c.window_size_seconds * 1000))
                &&& (c.strategy@ == "SlidingWindow"@ ==> (r
                    matches ConfiguredRateLimiter::SlidingLog(l) && l.spec_limit() == c.limit
                    && l.spec_window_millis() == c.window_size_seconds * 1000))
                &&& (c.strategy@ == "TokenBucket"@ ==> (r
                    matches ConfiguredRateLimiter::TokenBucket(l) && l.spec_capacity() == c.limit
                    && l.spec_refill_millis() == c.window_size_seconds * 1000
                    && l.spec_refill_amount() == c.refill_amount.unwrap()))
                &&& (c.strategy@ == "LeakyBucket"@ ==> (r
                    matches ConfiguredRateLimiter::LeakyBucket(l) && l.spec_capacity()
                    == c.capacity.unwrap() && l.spec_leak_rate_millis()
                    == c.leak_rate_seconds.unwrap() * 1000))
                &&& (c.strategy@ == "SlidingWindowCounter"@ ==> (r
                    matches ConfiguredRateLimiter::SlidingCounter(l) && l.spec_limit() == c.limit
                    && l.spec_window_millis() == c.window_size_seconds * 1000
                    && l.spec_granularity_millis() == c.granularity_seconds.unwrap() * 1000))
                &&& (c.strategy@ !== "FixedWindow"@ && c.strategy@ !== "SlidingWindow"@
                    && c.strategy@ !== "TokenBucket"@ && c.strategy@ !== "LeakyBucket"@
                    && c.strategy@ !== "SlidingWindowCounter"@ ==> (r
                    matches ConfiguredRateLimiter::NoOp(l)))
            },
            None => r matches ConfiguredRateLimiter::NoOp(l),
        },
{
    proof {
        reveal_strlit("FixedWindow");
        reveal_strlit("SlidingWindow");
        reveal_strlit("TokenBucket");
        reveal_strlit("LeakyBucket");
        reveal_strlit("SlidingWindowCounter");
        assert("FixedWindow"@.len() == 11 && "FixedWindow"@[0] == 'F');
        assert("SlidingWindow"@.len() == 13);
        assert("TokenBucket"@.len() == 11 && "TokenBucket"@[0] == 'T');
        assert("LeakyBucket"@.len() == 11 && "LeakyBucket"@[0] == 'L');
        assert("SlidingWindowCounter"@.len() == 20);
    }
    match config {
        Some(c) => {
            let fixed_window: String = "FixedWindow".to_owned();
            let sliding_window: String = "SlidingWindow".to_owned();
            let token_bucket: String = "TokenBucket".to_owned();
            let leaky_bucket: String = "LeakyBucket".to_owned();
            let sliding_counter: String = "SlidingWindowCounter".to_owned();
            if c.strategy == fixed_window {
                ConfiguredRateLimiter::FixedWindow(
                    FixedWindowRateLimiter::new(c.limit, c.window_size_seconds * 1000),
                )
            } else if c.strategy == sliding_window {
                ConfiguredRateLimiter::SlidingLog(
                    SlidingWindowLogRateLimiter::new(c.limit, c.window_size_seconds * 1000),
                )
            } else if c.strategy == token_bucket {
                let refill_amount = match c.refill_amount {
                    Some(a) => a,
                    None => 0,
                };
                ConfiguredRateLimiter::TokenBucket(
                    TokenBucketRateLimiter::new(c.limit, c.window_size_seconds * 1000, refill_amount),
                )
            } else if c.strategy == leaky_bucket {
                let capacity = match c.capacity {
                    Some(v) => v,
                    None => 0,
                };
                let leak_rate_seconds = match c.leak_rate_seconds {
                    Some(v) => v,
                    None => 0,
                };
                ConfiguredRateLimiter::LeakyBucket(
                    LeakyBucketRateLimiter::new(capacity, leak_rate_seconds * 1000),
                )
            } else if c.strategy == sliding_counter {
                let granularity_seconds = match c.granularity_seconds {
                    Some(v) => v,
                    None => 0,
                };
                match SlidingWindowCounterRateLimiter::new(
                    c.limit,
                    c.window_size_seconds * 1000,
                    granularity_seconds * 1000,
                ) {
                    Some(l) => ConfiguredRateLimiter::SlidingCounter(l),
                    None => ConfiguredRateLimiter::NoOp(NoOpRateLimiter),
                }
            } else {
                ConfiguredRateLimiter::NoOp(NoOpRateLimiter)
            }
        },
        None => ConfiguredRateLimiter::NoOp(NoOpRateLimiter),
    }
}

} // verus!
