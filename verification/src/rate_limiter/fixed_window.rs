//! Fixed-window rate limiting: time is cut into windows of a fixed width,
//! and each key may be admitted at most `limit` times per window.

use vstd::prelude::*;

use crate::key_table::KeyTable;
use crate::rate_limiter::{spec_count_admitted, RateLimiter};

verus! {

/// Per-key state: the start of the window the key was last counted in, and
/// how many admissions that window has seen.
#[derive(Clone, Copy)]
pub struct WindowCount {
    pub window_start: u64,
    pub count: u32,
}

/// Admits up to `limit` requests per key within each fixed window of
/// `window_size_millis` milliseconds.
pub struct FixedWindowRateLimiter {
    requests: KeyTable<WindowCount>,
    limit: u32,
    window_size_millis: u64,
}

impl FixedWindowRateLimiter {
    pub closed spec fn spec_limit(&self) -> u32 {
        self.limit
    }

    pub closed spec fn spec_window_millis(&self) -> u64 {
        self.window_size_millis
    }

    pub closed spec fn spec_contains(&self, key: Seq<char>) -> bool {
        self.requests.spec_contains(key)
    }

    pub closed spec fn spec_at(&self, key: Seq<char>) -> WindowCount {
        self.requests.spec_at(key)
    }

    /// The start of the window containing `now_millis`.
    pub open spec fn spec_window_start(&self, now_millis: u64) -> int {
        now_millis - (now_millis as int % self.spec_window_millis() as int)
    }

    pub fn new(limit: u32, window_size_millis: u64) -> (r: Self)
        requires
            window_size_millis >= 1,
        ensures
            r.wf(),
            r.spec_limit() == limit,
            r.spec_window_millis() == window_size_millis,
            forall|k: Seq<char>| !r.spec_contains(k),
    {
        FixedWindowRateLimiter { requests: KeyTable::new(), limit, window_size_millis }
    }
}

impl RateLimiter for FixedWindowRateLimiter {
    /// The window width is positive and no key's counter exceeds the limit.
    closed spec fn wf(&self) -> bool {
        &&& self.window_size_millis >= 1
        &&& self.requests.wf()
        &&& forall|i: int|
            0 <= i < self.requests.spec_vals().len() ==> (#[trigger] self.requests.spec_vals()[i]).count
                <= self.limit
    }

    open spec fn allow_spec(
        pre: Self,
        post: Self,
        key: Seq<char>,
        now_millis: u64,
        admitted: bool,
    ) -> bool {
        let ws = pre.spec_window_start(now_millis);
        let prev = if pre.spec_contains(key) {
            pre.spec_at(key)
        } else {
            WindowCount { window_start: (ws as u64), count: 0 }
        };
        let cur = if prev.window_start < ws {
            WindowCount { window_start: (ws as u64), count: 0 }
        } else {
            prev
        };
        &&& admitted == (cur.count < pre.spec_limit())
        &&& post.spec_contains(key)
        &&& post.spec_at(key) == (if admitted {
            WindowCount { window_start: cur.window_start, count: (cur.count + 1) as u32 }
        } else {
            cur
        })
        &&& post.spec_limit() == pre.spec_limit()
        &&& post.spec_window_millis() == pre.spec_window_millis()
        &&& forall|k: Seq<char>|
            k !== key ==> post.spec_contains(k) == pre.spec_contains(k) && (pre.spec_contains(k)
                ==> post.spec_at(k) == pre.spec_at(k))
    }

    fn allow(&mut self, key: &str, now_millis: u64) -> (admitted: bool) {
        proof {
            assert(now_millis % self.window_size_millis <= now_millis) by (nonlinear_arith)
                requires
                    self.window_size_millis >= 1,
            ;
        }
        let window_start = now_millis - (now_millis % self.window_size_millis);
        let k = key.to_owned();
        let (idx, entry) = match self.requests.find(&k) {
            Some(i) => {
                let e = *self.requests.val_at(i);
                if e.window_start < window_start {
                    (i, WindowCount { window_start, count: 0 })
                } else {
                    (i, e)
                }
            },
            None => {
                self.requests.insert_new(k, WindowCount { window_start, count: 0 });
                let n = self.requests.len();
                (n - 1, WindowCount { window_start, count: 0 })
            },
        };
        if entry.count < self.limit {
            let updated = WindowCount { window_start: entry.window_start, count: entry.count + 1 };
            self.requests.set_at(idx, updated);
            true
        } else {
            self.requests.set_at(idx, entry);
            false
        }
    }
}

/// One call, read against its aligned window: while a key stays in the
/// same window its counter rises by exactly one on each admission and an
/// admission requires the counter to be below the limit; when the window
/// has advanced (or the key is new) the counter restarts at zero before
/// the decision. A run of calls inside one aligned window therefore admits
/// at most `limit` requests for the key.
pub proof fn lemma_fixed_window_step(
    pre: FixedWindowRateLimiter,
    post: FixedWindowRateLimiter,
    key: Seq<char>,
    now_millis: u64,
    admitted: bool,
)
    requires
        pre.wf(),
        FixedWindowRateLimiter::allow_spec(pre, post, key, now_millis, admitted),
    ensures
        pre.spec_contains(key) && pre.spec_at(key).window_start == pre.spec_window_start(
            now_millis,
        ) ==> {
            &&& admitted == (pre.spec_at(key).count < pre.spec_limit())
            &&& post.spec_at(key).count == pre.spec_at(key).count + (if admitted {
                1int
            } else {
                0int
            })
            &&& post.spec_at(key).window_start == pre.spec_at(key).window_start
        },
        (!pre.spec_contains(key) || pre.spec_at(key).window_start < pre.spec_window_start(
            now_millis,
        )) ==> {
            &&& admitted == (0 < pre.spec_limit())
            &&& post.spec_at(key).count == (if admitted {
                1int
            } else {
                0int
            })
            &&& post.spec_at(key).window_start == pre.spec_window_start(now_millis)
        },
{
    assert(now_millis as int % pre.spec_window_millis() as int <= now_millis && 0 <= now_millis as int
        % pre.spec_window_millis() as int) by (nonlinear_arith)
        requires
            pre.spec_window_millis() >= 1,
    ;
}

/// Whether `states` and `calls` form one run of `allow` calls on `key`:
/// state `i` steps to state `i + 1` under the call at time `calls[i].0`
/// with decision `calls[i].1`.
pub open spec fn spec_fixed_window_run(
    states: Seq<FixedWindowRateLimiter>,
    calls: Seq<(u64, bool)>,
    key: Seq<char>,
) -> bool {
    &&& states.len() == calls.len() + 1
    &&& forall|i: int|
        0 <= i < calls.len() ==> FixedWindowRateLimiter::allow_spec(
            #[trigger] states[i],
            states[i + 1],
            key,
            calls[i].0,
            calls[i].1,
        )
}

/// The window item over whole runs: a run of calls on one key whose times
/// all fall inside the aligned window starting at `ws`, beginning with the
/// key absent or left over from an earlier window, admits at most `limit`
/// calls — and the key's counter ends exactly at the number of admissions.
pub proof fn lemma_fixed_window_run_bound(
    states: Seq<FixedWindowRateLimiter>,
    calls: Seq<(u64, bool)>,
    key: Seq<char>,
    ws: int,
)
    requires
        states.len() > 0,
        states[0].wf(),
        spec_fixed_window_run(states, calls, key),
        forall|i: int|
            0 <= i < calls.len() ==> states[0].spec_window_start(#[trigger] calls[i].0) == ws,
        !states[0].spec_contains(key) || states[0].spec_at(key).window_start < ws,
    ensures
        spec_count_admitted(calls) <= states[0].spec_limit(),
        states.last().spec_limit() == states[0].spec_limit(),
        states.last().spec_window_millis() == states[0].spec_window_millis(),
        calls.len() > 0 ==> states.last().spec_contains(key) && states.last().spec_at(
            key,
        ).count == spec_count_admitted(calls) && states.last().spec_at(key).window_start == ws,
    decreases calls.len(),
{
    if calls.len() == 0 {
    } else {
        let n = calls.len() as int;
        let shorter = calls.drop_last();
        let states_short = states.drop_last();
        assert(spec_fixed_window_run(states_short, shorter, key)) by {
            assert forall|i: int| 0 <= i < shorter.len() implies FixedWindowRateLimiter::allow_spec(
                #[trigger] states_short[i],
                states_short[i + 1],
                key,
                shorter[i].0,
                shorter[i].1,
            ) by {
                assert(states_short[i] == states[i]);
                assert(states_short[i + 1] == states[i + 1]);
                assert(shorter[i] == calls[i]);
            }
        }
        assert(forall|i: int|
            0 <= i < shorter.len() ==> states[0].spec_window_start(#[trigger] shorter[i].0) == ws);
        lemma_fixed_window_run_bound(states_short, shorter, key, ws);
        let pre = states[n - 1];
        let post = states[n];
        let now = calls[n - 1].0;
        let admitted = calls[n - 1].1;
        assert(states_short.last() == pre);
        assert(states.last() == post);
        assert(FixedWindowRateLimiter::allow_spec(pre, post, key, now, admitted));
        assert(states[0].spec_window_start(now) == ws);
        assert(pre.spec_window_millis() == states[0].spec_window_millis());
        assert(pre.spec_window_start(now) == ws);
        assert(0 <= ws <= u64::MAX) by {
            assert(now as int % states[0].spec_window_millis() as int <= now && 0 <= now as int
                % states[0].spec_window_millis() as int) by (nonlinear_arith)
                requires
                    states[0].spec_window_millis() >= 1,
            ;
        }
        assert(calls.drop_last() == shorter);
        if shorter.len() == 0 {
            assert(spec_count_admitted(calls) == (if admitted {
                1int
            } else {
                0int
            }));
        } else {
            assert(pre.spec_contains(key) && pre.spec_at(key).count == spec_count_admitted(shorter)
                && pre.spec_at(key).window_start == ws);
        }
    }
}

/// No fixed window ever sees more than `limit` admissions for one key: the
/// per-key counter counts the admissions of the window it belongs to, rises
/// by one on each admission, resets only when the window advances, and an
/// admission requires it to be strictly below the limit beforehand.
pub proof fn lemma_fixed_window_admissions_bounded(l: FixedWindowRateLimiter, key: Seq<char>)
    requires
        l.wf(),
        l.spec_contains(key),
    ensures
        l.spec_at(key).count <= l.spec_limit(),
{
    crate::key_table::lemma_key_index(l.spec_keys_for_proof(), key);
}

impl FixedWindowRateLimiter {
    /// The key sequence of the underlying table, for proofs about it.
    pub closed spec fn spec_keys_for_proof(&self) -> Seq<Seq<char>> {
        self.requests.spec_keys()
    }
}

} // verus!
