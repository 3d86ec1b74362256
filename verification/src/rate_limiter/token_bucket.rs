//! Token-bucket rate limiting: each key owns a bucket of tokens refilled at
//! a fixed rate up to a capacity; an admission spends one token.

use vstd::prelude::*;

use crate::key_table::KeyTable;
use crate::rate_limiter::{spec_elapsed, RateLimiter};

verus! {

/// Per-key state: the last time the bucket was refilled and the tokens left.
#[derive(Clone, Copy)]
pub struct TokenState {
    pub last_refill: u64,
    pub tokens: u32,
}

/// Admits while the key's bucket has a token. Every `refill_millis`
/// milliseconds since the last refill adds `refill_amount` tokens, capped at
/// `capacity`; a fresh key starts with a full bucket.
pub struct TokenBucketRateLimiter {
    tokens: KeyTable<TokenState>,
    capacity: u32,
    refill_millis: u64,
    refill_amount: u32,
}

impl TokenBucketRateLimiter {
    pub closed spec fn spec_capacity(&self) -> u32 {
        self.capacity
    }

    pub closed spec fn spec_refill_millis(&self) -> u64 {
        self.refill_millis
    }

    pub closed spec fn spec_refill_amount(&self) -> u32 {
        self.refill_amount
    }

    pub closed spec fn spec_contains(&self, key: Seq<char>) -> bool {
        self.tokens.spec_contains(key)
    }

    pub closed spec fn spec_at(&self, key: Seq<char>) -> TokenState {
        self.tokens.spec_at(key)
    }

    /// The bucket state after refilling at `now_millis`: if at least one
    /// refill interval has passed, `refill_amount` tokens per whole interval
    /// are added, capped at `capacity`, and the refill clock resets.
    pub open spec fn spec_refilled(&self, prev: TokenState, now_millis: u64) -> TokenState {
        let elapsed = spec_elapsed(now_millis, prev.last_refill);
        if elapsed >= self.spec_refill_millis() {
            let cycles = elapsed as int / self.spec_refill_millis() as int;
            let add = if self.spec_refill_amount() * cycles >= self.spec_capacity() {
                self.spec_capacity() as int
            } else {
                self.spec_refill_amount() * cycles
            };
            let filled = if prev.tokens + add >= self.spec_capacity() {
                self.spec_capacity() as int
            } else {
                prev.tokens + add
            };
            TokenState { last_refill: now_millis, tokens: filled as u32 }
        } else {
            prev
        }
    }

    pub fn new(capacity: u32, refill_millis: u64, refill_amount: u32) -> (r: Self)
        requires
            refill_millis >= 1,
        ensures
            r.wf(),
            r.spec_capacity() == capacity,
            r.spec_refill_millis() == refill_millis,
            r.spec_refill_amount() == refill_amount,
            forall|k: Seq<char>| !r.spec_contains(k),
    {
        TokenBucketRateLimiter { tokens: KeyTable::new(), capacity, refill_millis, refill_amount }
    }
}

impl RateLimiter for TokenBucketRateLimiter {
    /// The refill interval is positive and no bucket exceeds its capacity.
    closed spec fn wf(&self) -> bool {
        &&& self.refill_millis >= 1
        &&& self.tokens.wf()
        &&& forall|i: int|
            0 <= i < self.tokens.spec_vals().len() ==> (#[trigger] self.tokens.spec_vals()[i]).tokens
                <= self.capacity
    }

    open spec fn allow_spec(
        pre: Self,
        post: Self,
        key: Seq<char>,
        now_millis: u64,
        admitted: bool,
    ) -> bool {
        let prev = if pre.spec_contains(key) {
            pre.spec_at(key)
        } else {
            TokenState { last_refill: now_millis, tokens: pre.spec_capacity() }
        };
        let refilled = pre.spec_refilled(prev, now_millis);
        &&& admitted == (refilled.tokens > 0)
        &&& post.spec_contains(key)
        &&& post.spec_at(key) == (if admitted {
            TokenState { last_refill: refilled.last_refill, tokens: (refilled.tokens - 1) as u32 }
        } else {
            refilled
        })
        &&& post.spec_capacity() == pre.spec_capacity()
        &&& post.spec_refill_millis() == pre.spec_refill_millis()
        &&& post.spec_refill_amount() == pre.spec_refill_amount()
        &&& forall|k: Seq<char>|
            k !== key ==> post.spec_contains(k) == pre.spec_contains(k) && (pre.spec_contains(k)
                ==> post.spec_at(k) == pre.spec_at(k))
    }

    fn allow(&mut self, key: &str, now_millis: u64) -> (admitted: bool) {
        let k = key.to_owned();
        let (idx, prev) = match self.tokens.find(&k) {
            Some(i) => (i, *self.tokens.val_at(i)),
            None => {
                let fresh = TokenState { last_refill: now_millis, tokens: self.capacity };
                self.tokens.insert_new(k, fresh);
                let n = self.tokens.len();
                (n - 1, fresh)
            },
        };
        let elapsed = if now_millis >= prev.last_refill {
            now_millis - prev.last_refill
        } else {
            0
        };
        proof {
            assert(elapsed == spec_elapsed(now_millis, prev.last_refill));
        }
        let refilled = if elapsed >= self.refill_millis {
            let cycles = elapsed / self.refill_millis;
            let add: u64 = if self.refill_amount == 0 {
                0
            } else if cycles >= self.capacity as u64 {
                proof {
                    assert(self.refill_amount as int * cycles as int >= cycles as int)
                        by (nonlinear_arith)
                        requires
                            self.refill_amount >= 1,
                    ;
                }
                self.capacity as u64
            } else {
                proof {
                    assert(self.refill_amount as int * cycles as int <= u32::MAX as int
                        * u32::MAX as int) by (nonlinear_arith)
                        requires
                            self.refill_amount <= u32::MAX as int && cycles <= u32::MAX as int,
                    ;
                }
                let prod = (self.refill_amount as u64) * cycles;
                if prod >= self.capacity as u64 {
                    self.capacity as u64
                } else {
                    prod
                }
            };
            proof {
                let s_cycles = elapsed as int / self.spec_refill_millis() as int;
                assert(cycles == s_cycles);
                let s_add = if self.spec_refill_amount() * s_cycles >= self.spec_capacity() {
                    self.spec_capacity() as int
                } else {
                    self.spec_refill_amount() * s_cycles
                };
                if self.refill_amount == 0 {
                    assert(self.spec_refill_amount() * s_cycles == 0) by (nonlinear_arith)
                        requires
                            self.spec_refill_amount() == 0,
                    ;
                }
                assert(add == s_add);
            }
            let filled: u64 = if prev.tokens as u64 + add >= self.capacity as u64 {
                self.capacity as u64
            } else {
                prev.tokens as u64 + add
            };
            TokenState { last_refill: now_millis, tokens: filled as u32 }
        } else {
            prev
        };
        proof {
            assert(refilled == self.spec_refilled(prev, now_millis));
        }
        if refilled.tokens > 0 {
            let spent = TokenState { last_refill: refilled.last_refill, tokens: refilled.tokens - 1 };
            self.tokens.set_at(idx, spent);
            true
        } else {
            self.tokens.set_at(idx, refilled);
            false
        }
    }
}

/// A bucket never holds more than `capacity` tokens, so between two refills
/// a key is admitted at most `capacity` times.
pub proof fn lemma_token_bucket_tokens_bounded(l: TokenBucketRateLimiter, key: Seq<char>)
    requires
        l.wf(),
        l.spec_contains(key),
    ensures
        l.spec_at(key).tokens <= l.spec_capacity(),
{
    crate::key_table::lemma_key_index(l.spec_keys_for_proof(), key);
}

/// A key whose bucket is empty and whose refill interval has not passed is
/// rejected: with no time elapsed there is nothing to spend.
pub proof fn lemma_empty_bucket_rejects(
    pre: TokenBucketRateLimiter,
    post: TokenBucketRateLimiter,
    key: Seq<char>,
    now_millis: u64,
    admitted: bool,
)
    requires
        TokenBucketRateLimiter::allow_spec(pre, post, key, now_millis, admitted),
        pre.spec_contains(key),
        pre.spec_at(key).tokens == 0,
        spec_elapsed(now_millis, pre.spec_at(key).last_refill) < pre.spec_refill_millis(),
    ensures
        !admitted,
{
}

impl TokenBucketRateLimiter {
    /// The key sequence of the underlying table, for proofs about it.
    pub closed spec fn spec_keys_for_proof(&self) -> Seq<Seq<char>> {
        self.tokens.spec_keys()
    }
}

} // verus!
