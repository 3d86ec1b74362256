//! Retry back-off strategies: nine ways to compute the delay before the
//! next connection attempt. Delays are integer milliseconds; the geometric
//! and jitter multiplier is a fixed-point factor in thousandths.

use vstd::arithmetic::div_mod::{
    lemma_div_is_ordered, lemma_div_multiples_vanish, lemma_div_pos_is_pos,
};
use vstd::prelude::*;

use crate::random::{random_below, random_inclusive};

verus! {

/// Computes the delay before a retry and decides whether to keep retrying.
pub trait RetryStrategy: Sized {
    /// The configuration values under which `delay` is callable.
    spec fn wf(&self) -> bool;

    /// What `delay` may return for `attempt`: exact for the deterministic
    /// strategies, a range for the randomized ones.
    spec fn delay_ok(&self, attempt: usize, delay_millis: u64) -> bool;

    fn delay(&self, attempt: usize) -> (delay_millis: u64)
        requires
            self.wf(),
        ensures
            self.delay_ok(attempt, delay_millis),
    ;

    fn should_retry(&self, attempt: usize, max_attempts: usize) -> (r: bool)
        ensures
            r == (attempt < max_attempts),
    ;
}

/// 2 to the power `e`.
pub open spec fn pow2(e: nat) -> nat
    decreases e,
{
    if e == 0 {
        1
    } else {
        2 * pow2((e - 1) as nat)
    }
}

pub proof fn lemma_pow2_pos(e: nat)
    ensures
        pow2(e) >= 1,
    decreases e,
{
    if e > 0 {
        lemma_pow2_pos((e - 1) as nat);
    }
}

pub proof fn lemma_pow2_monotone(a: nat, b: nat)
    requires
        a <= b,
    ensures
        pow2(a) <= pow2(b),
        pow2(a) >= 1,
    decreases b,
{
    lemma_pow2_pos(a);
    if a < b {
        lemma_pow2_monotone(a, (b - 1) as nat);
    }
}

/// The Fibonacci numbers: 0, 1, 1, 2, 3, 5, ...
pub open spec fn spec_fib(n: nat) -> nat
    decreases n,
{
    if n == 0 {
        0
    } else if n == 1 {
        1
    } else {
        spec_fib((n - 1) as nat) + spec_fib((n - 2) as nat)
    }
}

pub proof fn lemma_fib_monotone(a: nat, b: nat)
    requires
        a <= b,
    ensures
        spec_fib(a) <= spec_fib(b),
    decreases b,
{
    if b > 1 && a <= b - 1 {
        lemma_fib_monotone(a, (b - 1) as nat);
    }
}

/// The `n`-th Fibonacci number, whenever it fits the machine word.
pub fn fibonacci(n: usize) -> (r: usize)
    requires
        spec_fib(n as nat) <= usize::MAX,
    ensures
        r == spec_fib(n as nat),
{
    if n == 0 {
        return 0;
    }
    let mut prev: usize = 0;
    let mut cur: usize = 1;
    let mut i: usize = 1;
    while i < n
        invariant
            1 <= i <= n,
            prev == spec_fib((i - 1) as nat),
            cur == spec_fib(i as nat),
            spec_fib(n as nat) <= usize::MAX,
        decreases n - i,
    {
        proof {
            lemma_fib_monotone((i + 1) as nat, n as nat);
        }
        let next = prev + cur;
        prev = cur;
        cur = next;
        i += 1;
    }
    cur
}

/// Waits the same `delay_duration_millis` before every retry.
pub struct FixedDelayStrategy {
    pub delay_duration_millis: u64,
}

impl RetryStrategy for FixedDelayStrategy {
    open spec fn wf(&self) -> bool {
        true
    }

    open spec fn delay_ok(&self, attempt: usize, delay_millis: u64) -> bool {
        delay_millis == self.delay_duration_millis
    }

    fn delay(&self, attempt: usize) -> (delay_millis: u64) {
        self.delay_duration_millis
    }

    fn should_retry(&self, attempt: usize, max_attempts: usize) -> (r: bool) {
        attempt < max_attempts
    }
}

/// Doubles the delay on every attempt: `initial * 2^attempt`, capped at
/// `max_delay_millis`.
pub struct ExponentialBackoffStrategy {
    pub initial_delay_millis: u64,
    pub max_delay_millis: u64,
}

impl ExponentialBackoffStrategy {
    pub open spec fn spec_delay(&self, attempt: nat) -> int {
        let raw = self.initial_delay_millis * pow2(attempt);
        if raw >= self.max_delay_millis {
            self.max_delay_millis as int
        } else {
            raw as int
        }
    }
}

impl RetryStrategy for ExponentialBackoffStrategy {
    open spec fn wf(&self) -> bool {
        true
    }

    open spec fn delay_ok(&self, attempt: usize, delay_millis: u64) -> bool {
        delay_millis == self.spec_delay(attempt as nat)
    }

    fn delay(&self, attempt: usize) -> (delay_millis: u64) {
        if self.initial_delay_millis == 0 {
            proof {
                lemma_pow2_monotone(0, attempt as nat);
                assert(self.initial_delay_millis * pow2(attempt as nat) == 0) by (nonlinear_arith)
                    requires
                        self.initial_delay_millis == 0,
                ;
            }
            return if 0 >= self.max_delay_millis {
                self.max_delay_millis
            } else {
                0
            };
        }
        let mut d = self.initial_delay_millis;
        let mut i: usize = 0;
        proof {
            assert(self.initial_delay_millis * pow2(0) == self.initial_delay_millis)
                by (nonlinear_arith)
                requires
                    pow2(0) == 1,
            ;
        }
        while i < attempt
            invariant
                i <= attempt,
                self.initial_delay_millis >= 1,
                d == self.initial_delay_millis * pow2(i as nat),
                d <= u64::MAX,
            decreases attempt - i,
        {
            if d >= self.max_delay_millis {
                proof {
                    lemma_pow2_monotone(i as nat, attempt as nat);
                    assert(self.initial_delay_millis * pow2(i as nat) <= self.initial_delay_millis
                        * pow2(attempt as nat)) by (nonlinear_arith)
                        requires
                            pow2(i as nat) <= pow2(attempt as nat),
                            self.initial_delay_millis >= 0,
                    ;
                }
                return self.max_delay_millis;
            }
            if d > u64::MAX / 2 {
                proof {
                    lemma_pow2_monotone(i as nat, attempt as nat);
                    lemma_pow2_monotone((i + 1) as nat, attempt as nat);
                    assert(self.initial_delay_millis * pow2((i + 1) as nat)
                        <= self.initial_delay_millis * pow2(attempt as nat)) by (nonlinear_arith)
                        requires
                            pow2((i + 1) as nat) <= pow2(attempt as nat),
                            self.initial_delay_millis >= 0,
                    ;
                    assert(self.initial_delay_millis * pow2((i + 1) as nat) == 2 * (
                    self.initial_delay_millis * pow2(i as nat))) by (nonlinear_arith)
                        requires
                            pow2((i + 1) as nat) == 2 * pow2(i as nat),
                    ;
                }
                return self.max_delay_millis;
            }
            proof {
                assert(self.initial_delay_millis * pow2((i + 1) as nat) == 2 * (
                self.initial_delay_millis * pow2(i as nat))) by (nonlinear_arith)
                    requires
                        pow2((i + 1) as nat) == 2 * pow2(i as nat),
                ;
            }
            d = d * 2;
            i += 1;
        }
        if d >= self.max_delay_millis {
            self.max_delay_millis
        } else {
            d
        }
    }

    fn should_retry(&self, attempt: usize, max_attempts: usize) -> (r: bool) {
        attempt < max_attempts
    }
}

/// Grows the delay by a fixed `increment_millis` per attempt:
/// `initial + increment * attempt`, capped at `max_delay_millis`.
pub struct LinearBackoffStrategy {
    pub initial_delay_millis: u64,
    pub increment_millis: u64,
    pub max_delay_millis: u64,
}

impl LinearBackoffStrategy {
    pub open spec fn spec_delay(&self, attempt: nat) -> int {
        let raw = self.initial_delay_millis + self.increment_millis * attempt;
        if raw >= self.max_delay_millis {
            self.max_delay_millis as int
        } else {
            raw
        }
    }
}

impl RetryStrategy for LinearBackoffStrategy {
    open spec fn wf(&self) -> bool {
        true
    }

    open spec fn delay_ok(&self, attempt: usize, delay_millis: u64) -> bool {
        delay_millis == self.spec_delay(attempt as nat)
    }

    fn delay(&self, attempt: usize) -> (delay_millis: u64) {
        proof {
            assert(self.increment_millis as int * attempt as int <= 0xffff_ffff_ffff_ffffu64 as int
                * 0xffff_ffff_ffff_ffffu64 as int) by (nonlinear_arith)
                requires
                    0 <= self.increment_millis as int <= 0xffff_ffff_ffff_ffffu64 as int,
                    0 <= attempt as int <= 0xffff_ffff_ffff_ffffu64 as int,
            ;
        }
        let raw: u128 = self.initial_delay_millis as u128 + self.increment_millis as u128
            * attempt as u128;
        if raw >= self.max_delay_millis as u128 {
            self.max_delay_millis
        } else {
            raw as u64
        }
    }

    fn should_retry(&self, attempt: usize, max_attempts: usize) -> (r: bool) {
        attempt < max_attempts
    }
}

/// Waits a uniformly random time between `min_delay_millis` and
/// `max_delay_millis`, both inclusive.
pub struct RandomDelayStrategy {
    pub min_delay_millis: u64,
    pub max_delay_millis: u64,
}

impl RetryStrategy for RandomDelayStrategy {
    open spec fn wf(&self) -> bool {
        self.min_delay_millis <= self.max_delay_millis
    }

    open spec fn delay_ok(&self, attempt: usize, delay_millis: u64) -> bool {
        self.min_delay_millis <= delay_millis <= self.max_delay_millis
    }

    fn delay(&self, attempt: usize) -> (delay_millis: u64) {
        random_inclusive(self.min_delay_millis, self.max_delay_millis)
    }

    fn should_retry(&self, attempt: usize, max_attempts: usize) -> (r: bool) {
        attempt < max_attempts
    }
}

/// Grows the delay by an increment that itself grows with the attempt:
/// `initial + (increment_step + step_increment * (attempt - 1)) * attempt`,
/// capped at `max_delay_millis` on every attempt.
pub struct IncrementalBackoffStrategy {
    pub initial_delay_millis: u64,
    pub increment_step_millis: u64,
    pub step_increment_millis: u64,
    pub max_delay_millis: u64,
}

impl IncrementalBackoffStrategy {
    pub open spec fn spec_delay(&self, attempt: nat) -> int {
        let raw = if attempt == 0 {
            self.initial_delay_millis as int
        } else {
            self.initial_delay_millis + (self.increment_step_millis + self.step_increment_millis
                * (attempt - 1)) * attempt
        };
        if raw >= self.max_delay_millis {
            self.max_delay_millis as int
        } else {
            raw
        }
    }
}

impl RetryStrategy for IncrementalBackoffStrategy {
    open spec fn wf(&self) -> bool {
        true
    }

    open spec fn delay_ok(&self, attempt: usize, delay_millis: u64) -> bool {
        delay_millis == self.spec_delay(attempt as nat)
    }

    fn delay(&self, attempt: usize) -> (delay_millis: u64) {
        if attempt == 0 {
            return if self.initial_delay_millis >= self.max_delay_millis {
                self.max_delay_millis
            } else {
                self.initial_delay_millis
            };
        }
        proof {
            assert(self.step_increment_millis as int * (attempt - 1) as int
                <= 0xffff_ffff_ffff_ffffu64 as int * 0xffff_ffff_ffff_ffffu64 as int)
                by (nonlinear_arith)
                requires
                    0 <= self.step_increment_millis as int <= 0xffff_ffff_ffff_ffffu64 as int,
                    0 <= (attempt - 1) as int <= 0xffff_ffff_ffff_ffffu64 as int,
            ;
        }
        let inc: u128 = self.increment_step_millis as u128 + self.step_increment_millis as u128
            * (attempt as u128 - 1);
        if inc > self.max_delay_millis as u128 {
            proof {
                assert(inc as int * attempt as int >= inc as int) by (nonlinear_arith)
                    requires
                        attempt as int >= 1,
                        inc as int >= 0,
                ;
            }
            return self.max_delay_millis;
        }
        proof {
            assert(inc as int * attempt as int <= 0xffff_ffff_ffff_ffffu64 as int
                * 0xffff_ffff_ffff_ffffu64 as int) by (nonlinear_arith)
                requires
                    0 <= inc as int <= 0xffff_ffff_ffff_ffffu64 as int,
                    0 <= attempt as int <= 0xffff_ffff_ffff_ffffu64 as int,
            ;
        }
        let raw: u128 = self.initial_delay_millis as u128 + inc * attempt as u128;
        if raw >= self.max_delay_millis as u128 {
            self.max_delay_millis
        } else {
            raw as u64
        }
    }

    fn should_retry(&self, attempt: usize, max_attempts: usize) -> (r: bool) {
        attempt < max_attempts
    }
}

/// Scales the delay by the Fibonacci numbers: `base * fib(attempt)`, capped
/// at `max_delay_millis`.
pub struct FibonacciBackoffStrategy {
    pub base_delay_millis: u64,
    pub max_delay_millis: u64,
}

impl FibonacciBackoffStrategy {
    pub open spec fn spec_delay(&self, attempt: nat) -> int {
        let raw = self.base_delay_millis * spec_fib(attempt);
        if raw >= self.max_delay_millis {
            self.max_delay_millis as int
        } else {
            raw as int
        }
    }
}

impl RetryStrategy for FibonacciBackoffStrategy {
    open spec fn wf(&self) -> bool {
        true
    }

    open spec fn delay_ok(&self, attempt: usize, delay_millis: u64) -> bool {
        delay_millis == self.spec_delay(attempt as nat)
    }

    fn delay(&self, attempt: usize) -> (delay_millis: u64) {
        let base = self.base_delay_millis;
        let max = self.max_delay_millis;
        if base == 0 || attempt == 0 {
            proof {
                assert(base as int * spec_fib(attempt as nat) == 0) by (nonlinear_arith)
                    requires
                        base == 0 || spec_fib(attempt as nat) == 0,
                ;
            }
            return if 0 >= max {
                max
            } else {
                0
            };
        }
        if base > max {
            proof {
                lemma_fib_monotone(1, attempt as nat);
                assert(base as int * spec_fib(attempt as nat) >= base as int) by (nonlinear_arith)
                    requires
                        spec_fib(attempt as nat) >= 1,
                        base as int >= 0,
                ;
            }
            return max;
        }
        let mut fp: u128 = 0;
        let mut fc: u128 = 1;
        let mut i: usize = 1;
        while i < attempt
            invariant
                1 <= i <= attempt,
                fp == spec_fib((i - 1) as nat),
                fc == spec_fib(i as nat),
                fp <= fc,
                fc <= max,
                1 <= base <= max,
                base as int * fc <= max,
                base == self.base_delay_millis,
                max == self.max_delay_millis,
            decreases attempt - i,
        {
            proof {
                assert(base as int * (fp + fc) <= 2 * (base as int * fc)) by (nonlinear_arith)
                    requires
                        fp <= fc,
                        base as int >= 0,
                ;
            }
            let next = fp + fc;
            if base as u128 * next > max as u128 {
                proof {
                    lemma_fib_monotone((i + 1) as nat, attempt as nat);
                    assert(base as int * next as int <= base as int * spec_fib(attempt as nat))
                        by (nonlinear_arith)
                        requires
                            next as int <= spec_fib(attempt as nat),
                            base as int >= 0,
                    ;
                }
                return max;
            }
            proof {
                lemma_fib_monotone(i as nat, (i + 1) as nat);
                assert(next <= max) by (nonlinear_arith)
                    requires
                        base as int * next as int <= max as int,
                        base as int >= 1,
                        next as int >= 0,
                ;
            }
            fp = fc;
            fc = next;
            i += 1;
        }
        proof {
            assert(fc <= max) by (nonlinear_arith)
                requires
                    base as int * fc as int <= max as int,
                    base as int >= 1,
                    fc as int >= 0,
            ;
        }
        (base as u128 * fc) as u64
    }

    fn should_retry(&self, attempt: usize, max_attempts: usize) -> (r: bool) {
        attempt < max_attempts
    }
}

/// The fixed-point geometric progression: `attempt` steps of multiplying by
/// `mul_milli` thousandths, each step rounded down.
pub open spec fn spec_geo(initial: u64, mul_milli: u64, attempt: nat) -> int
    decreases attempt,
{
    if attempt == 0 {
        initial as int
    } else {
        spec_geo(initial, mul_milli, (attempt - 1) as nat) * mul_milli / 1000
    }
}

pub proof fn lemma_geo_nonneg(initial: u64, mul_milli: u64, attempt: nat)
    ensures
        spec_geo(initial, mul_milli, attempt) >= 0,
    decreases attempt,
{
    if attempt > 0 {
        lemma_geo_nonneg(initial, mul_milli, (attempt - 1) as nat);
        let prev = spec_geo(initial, mul_milli, (attempt - 1) as nat);
        assert(prev * mul_milli >= 0) by (nonlinear_arith)
            requires
                prev >= 0,
                mul_milli >= 0,
        ;
        lemma_div_pos_is_pos(prev * mul_milli, 1000);
    }
}

/// With a factor of at least one, each step of the progression does not
/// shrink it.
pub proof fn lemma_geo_step_ge(x: int, mul_milli: u64)
    requires
        x >= 0,
        mul_milli >= 1000,
    ensures
        x * mul_milli / 1000 >= x,
{
    assert(x * mul_milli >= x * 1000) by (nonlinear_arith)
        requires
            x >= 0,
            mul_milli >= 1000,
    ;
    lemma_div_is_ordered(x * 1000, x * mul_milli, 1000);
    lemma_div_multiples_vanish(x, 1000);
    assert(x * 1000 == 1000 * x) by (nonlinear_arith);
}

/// With a factor of at most one, each step of the progression does not grow
/// it.
pub proof fn lemma_geo_step_le(x: int, mul_milli: u64)
    requires
        x >= 0,
        mul_milli <= 1000,
    ensures
        x * mul_milli / 1000 <= x,
{
    assert(x * mul_milli <= x * 1000) by (nonlinear_arith)
        requires
            x >= 0,
            mul_milli <= 1000,
    ;
    lemma_div_is_ordered(x * mul_milli, x * 1000, 1000);
    lemma_div_multiples_vanish(x, 1000);
    assert(x * 1000 == 1000 * x) by (nonlinear_arith);
}

/// With a factor of at least one the progression is nondecreasing.
pub proof fn lemma_geo_monotone(initial: u64, mul_milli: u64, a: nat, b: nat)
    requires
        mul_milli >= 1000,
        a <= b,
    ensures
        spec_geo(initial, mul_milli, a) <= spec_geo(initial, mul_milli, b),
        spec_geo(initial, mul_milli, a) >= initial,
    decreases b,
{
    lemma_geo_nonneg(initial, mul_milli, a);
    if a == b {
        if a > 0 {
            lemma_geo_monotone(initial, mul_milli, (a - 1) as nat, (a - 1) as nat);
            lemma_geo_nonneg(initial, mul_milli, (a - 1) as nat);
            lemma_geo_step_ge(spec_geo(initial, mul_milli, (a - 1) as nat), mul_milli);
        }
    } else {
        lemma_geo_monotone(initial, mul_milli, a, (b - 1) as nat);
        lemma_geo_nonneg(initial, mul_milli, (b - 1) as nat);
        lemma_geo_step_ge(spec_geo(initial, mul_milli, (b - 1) as nat), mul_milli);
    }
}

/// With a factor of at most one the progression stays at or below its
/// starting value.
pub proof fn lemma_geo_bounded(initial: u64, mul_milli: u64, attempt: nat)
    requires
        mul_milli <= 1000,
    ensures
        0 <= spec_geo(initial, mul_milli, attempt) <= initial,
    decreases attempt,
{
    lemma_geo_nonneg(initial, mul_milli, attempt);
    if attempt > 0 {
        lemma_geo_bounded(initial, mul_milli, (attempt - 1) as nat);
        lemma_geo_step_le(spec_geo(initial, mul_milli, (attempt - 1) as nat), mul_milli);
    }
}

/// Multiplies the delay by `multiplier_milli` thousandths on every attempt,
/// starting from `initial_delay_millis`, capped at `max_delay_millis`.
pub struct GeometricBackoffStrategy {
    pub initial_delay_millis: u64,
    pub multiplier_milli: u64,
    pub max_delay_millis: u64,
}

impl GeometricBackoffStrategy {
    pub open spec fn spec_delay(&self, attempt: nat) -> int {
        let raw = spec_geo(self.initial_delay_millis, self.multiplier_milli, attempt);
        if raw >= self.max_delay_millis {
            self.max_delay_millis as int
        } else {
            raw
        }
    }

    /// Runs the fixed-point progression, stopping as soon as the cap is
    /// reached; callable from the jitter strategy as well.
    fn run_progression(initial: u64, mul_milli: u64, max: u64, attempt: usize) -> (r: u64)
        ensures
            r == ({
                let raw = spec_geo(initial, mul_milli, attempt as nat);
                if raw >= max {
                    max as int
                } else {
                    raw
                }
            }),
    {
        if mul_milli >= 1000 {
            let mut d: u128 = initial as u128;
            let mut i: usize = 0;
            while i < attempt
                invariant
                    i <= attempt,
                    mul_milli >= 1000,
                    d == spec_geo(initial, mul_milli, i as nat),
                    d <= u64::MAX,
                decreases attempt - i,
            {
                if d > max as u128 {
                    proof {
                        lemma_geo_monotone(initial, mul_milli, i as nat, attempt as nat);
                    }
                    return max;
                }
                proof {
                    lemma_geo_nonneg(initial, mul_milli, i as nat);
                    assert(d as int * mul_milli as int <= 0xffff_ffff_ffff_ffffu64 as int
                        * 0xffff_ffff_ffff_ffffu64 as int) by (nonlinear_arith)
                        requires
                            0 <= d as int <= 0xffff_ffff_ffff_ffffu64 as int,
                            0 <= mul_milli as int <= 0xffff_ffff_ffff_ffffu64 as int,
                    ;
                    lemma_geo_monotone(initial, mul_milli, i as nat, (i + 1) as nat);
                    lemma_geo_step_ge(d as int, mul_milli);
                }
                let grown = d * mul_milli as u128 / 1000;
                if grown > u64::MAX as u128 {
                    proof {
                        lemma_geo_monotone(initial, mul_milli, (i + 1) as nat, attempt as nat);
                    }
                    return max;
                }
                d = grown;
                i += 1;
            }
            if d >= max as u128 {
                max
            } else {
                d as u64
            }
        } else {
            let mut d: u128 = initial as u128;
            let mut i: usize = 0;
            while i < attempt
                invariant
                    i <= attempt,
                    mul_milli <= 1000,
                    d == spec_geo(initial, mul_milli, i as nat),
                    d <= initial,
                decreases attempt - i,
            {
                proof {
                    lemma_geo_nonneg(initial, mul_milli, i as nat);
                    lemma_geo_step_le(d as int, mul_milli);
                }
                d = d * mul_milli as u128 / 1000;
                i += 1;
            }
            if d >= max as u128 {
                max
            } else {
                d as u64
            }
        }
    }
}

impl RetryStrategy for GeometricBackoffStrategy {
    open spec fn wf(&self) -> bool {
        true
    }

    open spec fn delay_ok(&self, attempt: usize, delay_millis: u64) -> bool {
        delay_millis == self.spec_delay(attempt as nat)
    }

    fn delay(&self, attempt: usize) -> (delay_millis: u64) {
        GeometricBackoffStrategy::run_progression(
            self.initial_delay_millis,
            self.multiplier_milli,
            self.max_delay_millis,
            attempt,
        )
    }

    fn should_retry(&self, attempt: usize, max_attempts: usize) -> (r: bool) {
        attempt < max_attempts
    }
}

/// The harmonic partial sum in fixed point: `initial/1 + initial/2 + ... +
/// initial/attempt`, each term rounded down.
pub open spec fn spec_hsum(initial: u64, attempt: nat) -> int
    decreases attempt,
{
    if attempt == 0 {
        0
    } else {
        spec_hsum(initial, (attempt - 1) as nat) + initial as int / attempt as int
    }
}

pub proof fn lemma_hsum_monotone(initial: u64, a: nat, b: nat)
    requires
        a <= b,
    ensures
        0 <= spec_hsum(initial, a) <= spec_hsum(initial, b),
    decreases b,
{
    if b > 0 {
        lemma_div_pos_is_pos(initial as int, b as int);
        if a <= b - 1 {
            lemma_hsum_monotone(initial, a, (b - 1) as nat);
        } else {
            lemma_hsum_monotone(initial, (a - 1) as nat, (b - 1) as nat);
        }
    }
}

/// Scales the delay by the harmonic numbers: `initial * (1 + 1/2 + ... +
/// 1/attempt)` in fixed point, capped at `max_delay_millis`.
pub struct HarmonicBackoffStrategy {
    pub initial_delay_millis: u64,
    pub max_delay_millis: u64,
}

impl HarmonicBackoffStrategy {
    pub open spec fn spec_delay(&self, attempt: nat) -> int {
        let raw = spec_hsum(self.initial_delay_millis, attempt);
        if raw >= self.max_delay_millis {
            self.max_delay_millis as int
        } else {
            raw
        }
    }
}

impl RetryStrategy for HarmonicBackoffStrategy {
    open spec fn wf(&self) -> bool {
        true
    }

    open spec fn delay_ok(&self, attempt: usize, delay_millis: u64) -> bool {
        delay_millis == self.spec_delay(attempt as nat)
    }

    fn delay(&self, attempt: usize) -> (delay_millis: u64) {
        let initial = self.initial_delay_millis;
        let max = self.max_delay_millis;
        let mut sum: u128 = 0;
        let mut i: usize = 0;
        while i < attempt
            invariant
                i <= attempt,
                sum == spec_hsum(initial, i as nat),
                sum <= max,
                initial == self.initial_delay_millis,
                max == self.max_delay_millis,
            decreases attempt - i,
        {
            let k: u64 = if i as u64 <= u64::MAX - 1 {
                i as u64 + 1
            } else {
                u64::MAX
            };
            proof {
                lemma_div_pos_is_pos(initial as int, k as int);
            }
            let term = initial / k;
            let grown = sum + term as u128;
            proof {
                assert(k == i as u64 + 1);
                assert(k as int == i + 1);
                assert(grown == spec_hsum(initial, (i + 1) as nat));
            }
            if grown > max as u128 {
                proof {
                    lemma_hsum_monotone(initial, (i + 1) as nat, attempt as nat);
                }
                return max;
            }
            sum = grown;
            i += 1;
        }
        sum as u64
    }

    fn should_retry(&self, attempt: usize, max_attempts: usize) -> (r: bool) {
        attempt < max_attempts
    }
}

/// The geometric progression plus a uniformly random jitter below it,
/// capped at `max_delay_millis`. Needs a positive starting delay and a
/// factor of at least one, so that the jitter draw is over a non-empty
/// range.
pub struct JitterBackoffStrategy {
    pub initial_delay_millis: u64,
    pub multiplier_milli: u64,
    pub max_delay_millis: u64,
}

impl RetryStrategy for JitterBackoffStrategy {
    open spec fn wf(&self) -> bool {
        &&& self.initial_delay_millis >= 1
        &&& self.multiplier_milli >= 1000
    }

    open spec fn delay_ok(&self, attempt: usize, delay_millis: u64) -> bool {
        let exp = spec_geo(self.initial_delay_millis, self.multiplier_milli, attempt as nat);
        if exp >= self.max_delay_millis {
            delay_millis == self.max_delay_millis
        } else {
            exp <= delay_millis <= self.max_delay_millis && delay_millis < 2 * exp
        }
    }

    fn delay(&self, attempt: usize) -> (delay_millis: u64) {
        let exp_capped = GeometricBackoffStrategy::run_progression(
            self.initial_delay_millis,
            self.multiplier_milli,
            u64::MAX,
            attempt,
        );
        proof {
            lemma_geo_monotone(self.initial_delay_millis, self.multiplier_milli, 0, attempt as nat);
        }
        let ghost exp_s = spec_geo(self.initial_delay_millis, self.multiplier_milli, attempt as nat);
        if exp_capped == u64::MAX {
            proof {
                assert(exp_s >= u64::MAX >= self.max_delay_millis);
            }
            return self.max_delay_millis;
        }
        let exp = exp_capped;
        proof {
            assert(exp == exp_s);
            assert(exp >= 1);
        }
        let j = random_below(exp);
        let total = exp as u128 + j as u128;
        if total >= self.max_delay_millis as u128 {
            self.max_delay_millis
        } else {
            total as u64
        }
    }

    fn should_retry(&self, attempt: usize, max_attempts: usize) -> (r: bool) {
        attempt < max_attempts
    }
}

/// The fixed strategy waits the same time before every attempt: any two
/// permitted delays are equal, so the schedule is trivially monotone.
pub proof fn lemma_fixed_delay_monotone(s: FixedDelayStrategy, a: usize, b: usize, da: u64, db: u64)
    requires
        s.delay_ok(a, da),
        s.delay_ok(b, db),
    ensures
        da == db,
{
}

/// The exponential schedule never exceeds its cap and never shrinks from
/// one attempt to the next.
pub proof fn lemma_exponential_delay_monotone(s: ExponentialBackoffStrategy, a: nat, b: nat)
    requires
        a <= b,
    ensures
        s.spec_delay(a) <= s.spec_delay(b),
        s.spec_delay(a) <= s.max_delay_millis,
{
    lemma_pow2_monotone(a, b);
    assert(s.initial_delay_millis * pow2(a) <= s.initial_delay_millis * pow2(b))
        by (nonlinear_arith)
        requires
            pow2(a) <= pow2(b),
            s.initial_delay_millis >= 0,
    ;
}

/// The linear schedule never exceeds its cap and never shrinks from one
/// attempt to the next.
pub proof fn lemma_linear_delay_monotone(s: LinearBackoffStrategy, a: nat, b: nat)
    requires
        a <= b,
    ensures
        s.spec_delay(a) <= s.spec_delay(b),
        s.spec_delay(a) <= s.max_delay_millis,
{
    assert(s.increment_millis * a <= s.increment_millis * b) by (nonlinear_arith)
        requires
            a <= b,
            s.increment_millis >= 0,
    ;
}

/// The incremental schedule never exceeds its cap and never shrinks from
/// one attempt to the next.
pub proof fn lemma_incremental_delay_monotone(s: IncrementalBackoffStrategy, a: nat, b: nat)
    requires
        a <= b,
    ensures
        s.spec_delay(a) <= s.spec_delay(b),
        s.spec_delay(a) <= s.max_delay_millis,
{
    if a == 0 {
        if b > 0 {
            assert((s.increment_step_millis + s.step_increment_millis * (b - 1)) * b >= 0)
                by (nonlinear_arith)
                requires
                    b >= 1,
                    s.increment_step_millis >= 0,
                    s.step_increment_millis >= 0,
            ;
        }
    } else {
        let inc_a = s.increment_step_millis + s.step_increment_millis * (a - 1);
        let inc_b = s.increment_step_millis + s.step_increment_millis * (b - 1);
        assert(s.step_increment_millis * (a - 1) <= s.step_increment_millis * (b - 1))
            by (nonlinear_arith)
            requires
                a <= b,
                a >= 1,
                s.step_increment_millis >= 0,
        ;
        assert(inc_a * a <= inc_b * b) by (nonlinear_arith)
            requires
                0 <= inc_a <= inc_b,
                0 < a <= b,
        ;
    }
}

/// The Fibonacci schedule never exceeds its cap and never shrinks from one
/// attempt to the next.
pub proof fn lemma_fibonacci_delay_monotone(s: FibonacciBackoffStrategy, a: nat, b: nat)
    requires
        a <= b,
    ensures
        s.spec_delay(a) <= s.spec_delay(b),
        s.spec_delay(a) <= s.max_delay_millis,
{
    lemma_fib_monotone(a, b);
    assert(s.base_delay_millis * spec_fib(a) <= s.base_delay_millis * spec_fib(b))
        by (nonlinear_arith)
        requires
            spec_fib(a) <= spec_fib(b),
            s.base_delay_millis >= 0,
    ;
}

/// With a multiplier of at least one the geometric schedule never exceeds
/// its cap and never shrinks from one attempt to the next.
pub proof fn lemma_geometric_delay_monotone(s: GeometricBackoffStrategy, a: nat, b: nat)
    requires
        a <= b,
        s.multiplier_milli >= 1000,
    ensures
        s.spec_delay(a) <= s.spec_delay(b),
        s.spec_delay(a) <= s.max_delay_millis,
{
    lemma_geo_monotone(s.initial_delay_millis, s.multiplier_milli, a, b);
}

/// The harmonic schedule never exceeds its cap and never shrinks from one
/// attempt to the next.
pub proof fn lemma_harmonic_delay_monotone(s: HarmonicBackoffStrategy, a: nat, b: nat)
    requires
        a <= b,
    ensures
        s.spec_delay(a) <= s.spec_delay(b),
        s.spec_delay(a) <= s.max_delay_millis,
{
    lemma_hsum_monotone(s.initial_delay_millis, a, b);
}

} // verus!
