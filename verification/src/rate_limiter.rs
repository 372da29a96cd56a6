//! Token-bucket rate limiter. The bucket holds up to `burst` bytes worth
//! of tokens and refills at `bytes_per_second`. Token amounts are kept in
//! nano-bytes (bytes × 10⁹) so that refilling over a number of nanoseconds
//! is exact integer arithmetic. Waiting is the caller's business: an
//! acquire either succeeds now or says how long to wait before retrying.
use vstd::prelude::*;

verus! {

/// Nano-bytes per byte (also nanoseconds per second).
pub open spec fn nano() -> int {
    1_000_000_000
}

/// Token-bucket state.
#[derive(Debug, Clone, Copy, PartialEq, Eq)]
pub struct RateLimiter {
    /// Current tokens, in nano-bytes.
    pub tokens: u128,
    /// Time of the last successful acquire, in nanoseconds since the
    /// limiter's epoch.
    pub last_ns: u64,
    /// Bucket capacity (the burst), in nano-bytes.
    pub max_tokens: u128,
    /// Refill rate in bytes per second (= nano-bytes per nanosecond).
    pub rate: u64,
}

/// Result of one acquire attempt.
#[derive(Debug, Clone, Copy, PartialEq, Eq, Structural)]
pub enum Acquire {
    /// The tokens were taken.
    Granted,
    /// Not enough tokens: retry after this many nanoseconds.
    Wait { ns: u64 },
}

/// Tokens available at `now_ns`: what the bucket held plus the refill
/// since the last acquire, capped at the capacity.
pub open spec fn refilled(rl: RateLimiter, now_ns: u64) -> int {
    let elapsed: int = if now_ns >= rl.last_ns {
        now_ns - rl.last_ns
    } else {
        0
    };
    let grown = rl.tokens + elapsed * rl.rate;
    if grown < rl.max_tokens {
        grown
    } else {
        rl.max_tokens as int
    }
}

/// Nanoseconds until `missing` nano-bytes have refilled at `rate`, rounded
/// up and capped at `u64::MAX`.
pub open spec fn wait_ns(missing: int, rate: int) -> int {
    let q = (missing + rate - 1) / rate;
    if q > u64::MAX {
        u64::MAX as int
    } else {
        q
    }
}

impl RateLimiter {
    /// The bucket never holds more than its capacity, and the capacity is a
    /// whole number of bytes that fits the arithmetic.
    pub open spec fn wf(self) -> bool {
        &&& self.tokens <= self.max_tokens
        &&& self.max_tokens <= u64::MAX * nano()
    }

    /// A limiter allowing `bytes_per_second` sustained with a burst of
    /// `burst` bytes; it starts full.
    pub fn new(bytes_per_second: u64, burst: u64) -> (r: RateLimiter)
        ensures
            r.wf(),
            r.tokens == burst * nano(),
            r.max_tokens == burst * nano(),
            r.rate == bytes_per_second,
            r.last_ns == 0,
    {
        let max = (burst as u128) * 1_000_000_000u128;
        RateLimiter { tokens: max, last_ns: 0, max_tokens: max, rate: bytes_per_second }
    }

    fn refill(&self, now_ns: u64) -> (r: u128)
        requires
            self.wf(),
        ensures
            r == refilled(*self, now_ns),
            r <= self.max_tokens,
    {
        let elapsed: u64 = if now_ns >= self.last_ns {
            now_ns - self.last_ns
        } else {
            0
        };
        proof {
            assert((elapsed as int) * (self.rate as int) <= (u64::MAX as int) * (u64::MAX as int))
                by (nonlinear_arith)
                requires
                    elapsed <= u64::MAX,
                    self.rate <= u64::MAX,
            ;
        }
        let grow = (elapsed as u128) * (self.rate as u128);
        if grow >= self.max_tokens - self.tokens {
            self.max_tokens
        } else {
            self.tokens + grow
        }
    }

    /// Tries to take `n` bytes worth of tokens at time `now_ns`. On success
    /// the bucket keeps what is left and the refill clock moves to `now_ns`
    /// (never backwards); otherwise nothing changes and the caller is told
    /// how long the missing tokens take to refill.
    pub fn try_acquire(&mut self, now_ns: u64, n: u64) -> (r: Acquire)
        requires
            old(self).wf(),
            old(self).rate > 0 || refilled(*old(self), now_ns) >= n * nano(),
        ensures
            final(self).wf(),
            refilled(*old(self), now_ns) >= n * nano() ==> {
                &&& r == Acquire::Granted
                &&& final(self).tokens == refilled(*old(self), now_ns) - n * nano()
                &&& final(self).last_ns == (if now_ns > old(self).last_ns {
                    now_ns
                } else {
                    old(self).last_ns
                })
                &&& final(self).max_tokens == old(self).max_tokens
                &&& final(self).rate == old(self).rate
            },
            refilled(*old(self), now_ns) < n * nano() ==> {
                &&& r == (Acquire::Wait {
                    ns: wait_ns(n * nano() - refilled(*old(self), now_ns), old(self).rate as int)
                        as u64,
                })
                &&& *final(self) == *old(self)
            },
    {
        let have = self.refill(now_ns);
        let need = (n as u128) * 1_000_000_000u128;
        if have >= need {
            self.tokens = have - need;
            if now_ns > self.last_ns {
                self.last_ns = now_ns;
            }
            Acquire::Granted
        } else {
            let missing = need - have;
            let rate = self.rate as u128;
            let q = (missing + rate - 1) / rate;
            let ns: u64 = if q > u64::MAX as u128 {
                u64::MAX
            } else {
                q as u64
            };
            Acquire::Wait { ns }
        }
    }
}

/// Acquiring nothing always succeeds at once: the tokens available always
/// cover a request of zero bytes, so `try_acquire(now_ns, 0)` grants.
pub proof fn law_zero_acquire_is_immediate(rl: RateLimiter, now_ns: u64)
    requires
        rl.wf(),
    ensures
        refilled(rl, now_ns) >= 0u64 * nano(),
{
}

/// A full bucket grants anything up to the burst at once.
pub proof fn law_full_bucket_grants_burst(rl: RateLimiter, now_ns: u64, n: u64)
    requires
        rl.wf(),
        rl.tokens == rl.max_tokens,
        n * nano() <= rl.max_tokens,
    ensures
        refilled(rl, now_ns) >= n * nano(),
{
    let elapsed: int = if now_ns >= rl.last_ns {
        now_ns - rl.last_ns
    } else {
        0
    };
    assert(elapsed * rl.rate >= 0) by (nonlinear_arith)
        requires
            elapsed >= 0,
            rl.rate >= 0,
    ;
}

/// Waiting as long as a refused acquire says is enough: if nothing else
/// takes tokens meanwhile, the same request is granted then, provided it
/// fits in the bucket at all. (Stated for a clock that has not gone back
/// before the last grant, and a wait short enough not to be capped.)
pub proof fn law_wait_is_enough(rl: RateLimiter, now_ns: u64, n: u64)
    requires
        rl.wf(),
        rl.rate > 0,
        now_ns >= rl.last_ns,
        (n * nano() - refilled(rl, now_ns) + rl.rate - 1) / (rl.rate as int) <= u64::MAX,
        n * nano() <= rl.max_tokens,
        refilled(rl, now_ns) < n * nano(),
        now_ns + wait_ns(n * nano() - refilled(rl, now_ns), rl.rate as int) <= u64::MAX,
    ensures
        refilled(
            rl,
            (now_ns + wait_ns(n * nano() - refilled(rl, now_ns), rl.rate as int)) as u64,
        ) >= n * nano(),
{
    let have = refilled(rl, now_ns);
    let missing = n * nano() - have;
    let rate = rl.rate as int;
    let w = wait_ns(missing, rate);
    let later = (now_ns + w) as u64;
    let e0: int = if now_ns >= rl.last_ns {
        now_ns - rl.last_ns
    } else {
        0
    };
    let e1: int = if later >= rl.last_ns {
        later - rl.last_ns
    } else {
        0
    };
    // `have` is below the cap, so it is the uncapped refill.
    assert(have == rl.tokens + e0 * rate);
    let q = (missing + rate - 1) / rate;
    assert(q * rate >= missing) by (nonlinear_arith)
        requires
            rate > 0,
            missing > 0,
            q == (missing + rate - 1) / rate,
    ;
    assert(w == q);
    assert(e1 >= e0 + w);
    assert(e1 * rate >= e0 * rate + w * rate) by (nonlinear_arith)
        requires
            e1 >= e0 + w,
            rate > 0,
    ;
}

} // verus!
