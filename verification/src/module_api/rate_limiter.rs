//! I/O rate limiting: a token bucket. It starts full with `capacity`
//! tokens, refills at `refill_per_second` tokens a second up to that
//! capacity, and each acquisition takes one token.
//!
//! Tokens are kept exactly, in billionths of a token, and time is given
//! by the caller in nanoseconds on any fixed clock: a nanosecond adds
//! `refill_per_second` billionths.

use vstd::prelude::*;

verus! {

/// Billionths of a token in one token.
pub const TOKEN: u128 = 1_000_000_000;

/// The tokens (in billionths) after refilling `tokens` for `elapsed`
/// nanoseconds at `rate` tokens a second, capped at `capacity` tokens.
pub open spec fn refilled(tokens: u128, elapsed: u128, rate: u32, capacity: u32) -> int {
    let full = tokens + elapsed * rate;
    let cap = capacity * TOKEN;
    if full < cap {
        full
    } else {
        cap
    }
}

/// A token-bucket rate limiter.
#[derive(Debug, Clone, Copy, PartialEq, Eq, Structural)]
pub struct RateLimiter {
    capacity: u32,
    refill_per_second: u32,
    tokens: u128,
    last_refill: u128,
}

impl RateLimiter {
    /// The bucket's capacity, in tokens.
    pub closed spec fn capacity_view(&self) -> u32 {
        self.capacity
    }

    /// The refill rate, in tokens a second.
    pub closed spec fn rate_view(&self) -> u32 {
        self.refill_per_second
    }

    /// The tokens held, in billionths.
    pub closed spec fn tokens_view(&self) -> u128 {
        self.tokens
    }

    /// When the bucket was last refilled, in nanoseconds.
    pub closed spec fn last_view(&self) -> u128 {
        self.last_refill
    }

    /// Never more tokens than the capacity.
    pub closed spec fn wf(&self) -> bool {
        self.tokens <= self.capacity * TOKEN
    }

    /// A full bucket of `capacity` tokens refilling at `refill_per_second`
    /// tokens a second, as of `now`.
    pub fn new(capacity: u32, refill_per_second: u32, now: u128) -> (r: Self)
        ensures
            r.wf(),
            r.capacity_view() == capacity,
            r.rate_view() == refill_per_second,
            r.tokens_view() == capacity * TOKEN,
            r.last_view() == now,
    {
        proof {
            assert(capacity * TOKEN <= u32::MAX * TOKEN) by (nonlinear_arith)
                requires
                    capacity <= u32::MAX,
            ;
        }
        RateLimiter {
            capacity,
            refill_per_second,
            tokens: capacity as u128 * TOKEN,
            last_refill: now,
        }
    }

    /// Take one token at time `now`, after refilling for the time since
    /// the last refill (none where `now` is earlier). Without a whole
    /// token nothing is taken and the answer is `false`.
    pub fn try_acquire(&mut self, now: u128) -> (r: bool)
        requires
            old(self).wf(),
        ensures
            final(self).wf(),
            final(self).capacity_view() == old(self).capacity_view(),
            final(self).rate_view() == old(self).rate_view(),
            final(self).last_view() == now,
            ({
                let t = refilled(
                    old(self).tokens_view(),
                    if now >= old(self).last_view() { (now - old(self).last_view()) as u128 } else { 0 },
                    old(self).rate_view(),
                    old(self).capacity_view(),
                );
                &&& r == (t >= TOKEN)
                &&& final(self).tokens_view() == if r { t - TOKEN } else { t }
            }),
    {
        let elapsed: u128 = if now >= self.last_refill {
            now - self.last_refill
        } else {
            0
        };
        let cap: u128 = self.capacity as u128 * TOKEN;
        let gain = elapsed.checked_mul(self.refill_per_second as u128);
        let t: u128 = match gain {
            Some(g) => {
                if g >= cap || self.tokens >= cap - g {
                    cap
                } else {
                    self.tokens + g
                }
            },
            None => {
                proof {
                    assert(elapsed * self.refill_per_second >= cap) by (nonlinear_arith)
                        requires
                            elapsed * self.refill_per_second > u128::MAX,
                            cap <= u32::MAX * TOKEN,
                    ;
                }
                cap
            },
        };
        assert(t == refilled(self.tokens, elapsed, self.refill_per_second, self.capacity));
        self.last_refill = now;
        if t >= TOKEN {
            self.tokens = t - TOKEN;
            true
        } else {
            self.tokens = t;
            false
        }
    }
}

} // verus!
