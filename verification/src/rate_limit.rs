//! Token-bucket refill/consume arithmetic.
//!
//! A `TokenBucket` holds the per-client quota state; `evaluate` applies one
//! admission decision to it. Time is an explicit, injected millisecond
//! timestamp so that every state transition is a deterministic function of
//! its arguments.

use vstd::prelude::*;

verus! {

/// Rate-limiter configuration: at most `requests` admissions per `window_ms`
/// milliseconds, immutable after construction.
#[derive(Clone, Copy, Debug)]
pub struct RateLimitConfig {
    pub requests: u32,
    pub window_ms: u64,
}

impl RateLimitConfig {
    /// A configuration is well formed when both the quota and the window are
    /// positive.
    pub open spec fn wf(self) -> bool {
        self.requests >= 1 && self.window_ms >= 1
    }

    pub fn new(requests: u32, window_ms: u64) -> (c: RateLimitConfig)
        requires
            requests >= 1,
            window_ms >= 1,
        ensures
            c.requests == requests,
            c.window_ms == window_ms,
            c.wf(),
    {
        RateLimitConfig { requests, window_ms }
    }
}

impl Default for RateLimitConfig {
    /// The service default: 5 requests per 60-second window.
    fn default() -> (c: RateLimitConfig)
        ensures
            c.requests == 5,
            c.window_ms == 60000,
            c.wf(),
    {
        RateLimitConfig { requests: 5, window_ms: 60000 }
    }
}

/// Per-client quota state: the tokens still available and the timestamp of
/// the last refill (or creation).
#[derive(Clone, Copy, Debug)]
pub struct TokenBucket {
    pub tokens: u32,
    pub last_refill: u64,
}

impl TokenBucket {
    /// A bucket never holds more tokens than the configured quota.
    pub open spec fn wf(self, cfg: RateLimitConfig) -> bool {
        self.tokens <= cfg.requests
    }
}

/// A freshly created bucket: full, with its refill clock started at `now`.
pub open spec fn fresh_bucket(cfg: RateLimitConfig, now: u64) -> TokenBucket {
    TokenBucket { tokens: cfg.requests, last_refill: now }
}

/// Milliseconds elapsed since the bucket's last refill, saturating at zero
/// if the clock reads earlier than the recorded refill time.
pub open spec fn elapsed_ms(b: TokenBucket, now: u64) -> int {
    if now >= b.last_refill {
        now - b.last_refill
    } else {
        0
    }
}

/// Proportional linear refill, rounded down:
/// `floor(elapsed / window * requests)`.
pub open spec fn refill_amount(cfg: RateLimitConfig, b: TokenBucket, now: u64) -> int {
    (elapsed_ms(b, now) * cfg.requests) / (cfg.window_ms as int)
}

/// The bucket after the refill step: when the refill amount is positive the
/// tokens are topped up (capped at the quota) and the refill clock restarts;
/// otherwise the bucket is left untouched, fractional credit included.
pub open spec fn refilled(cfg: RateLimitConfig, b: TokenBucket, now: u64) -> TokenBucket {
    let amt = refill_amount(cfg, b, now);
    if amt > 0 {
        let t = if b.tokens + amt > cfg.requests {
            cfg.requests as int
        } else {
            b.tokens + amt
        };
        TokenBucket { tokens: t as u32, last_refill: now }
    } else {
        b
    }
}

/// Whether an evaluation at `now` admits the request: at least one token is
/// available after the refill step.
pub open spec fn spec_allowed(cfg: RateLimitConfig, b: TokenBucket, now: u64) -> bool {
    refilled(cfg, b, now).tokens > 0
}

/// The bucket after a whole evaluation: refill, then consume one token if
/// the request was admitted.
pub open spec fn bucket_after(cfg: RateLimitConfig, b: TokenBucket, now: u64) -> TokenBucket {
    let rb = refilled(cfg, b, now);
    if rb.tokens > 0 {
        TokenBucket { tokens: (rb.tokens - 1) as u32, last_refill: rb.last_refill }
    } else {
        rb
    }
}

/// The remaining quota reported by an evaluation: the tokens left after the
/// decision (zero on denial, post-decrement count on admission).
pub open spec fn spec_remaining(cfg: RateLimitConfig, b: TokenBucket, now: u64) -> u32 {
    bucket_after(cfg, b, now).tokens
}

/// Milliseconds until the next possible refill tick, measured from the
/// refill clock as it stands after the evaluation.
pub open spec fn reset_ms(cfg: RateLimitConfig, b: TokenBucket, now: u64) -> u64 {
    let passed = elapsed_ms(refilled(cfg, b, now), now);
    if cfg.window_ms >= passed {
        (cfg.window_ms - passed) as u64
    } else {
        0
    }
}

impl TokenBucket {
    /// One atomic refill/consume evaluation at time `now`, as a mutation of
    /// the bucket. Returns `(allowed, remaining, reset_in_ms)`.
    pub fn evaluate(&mut self, cfg: &RateLimitConfig, now: u64) -> (r: (bool, u32, u64))
        requires
            cfg.wf(),
            old(self).wf(*cfg),
        ensures
            final(self).wf(*cfg),
            *final(self) == bucket_after(*cfg, *old(self), now),
            r.0 == spec_allowed(*cfg, *old(self), now),
            r.1 == spec_remaining(*cfg, *old(self), now),
            r.2 == reset_ms(*cfg, *old(self), now),
    {
        let elapsed: u64 = if now >= self.last_refill {
            now - self.last_refill
        } else {
            0
        };
        assert((elapsed as u128) * (cfg.requests as u128) <= (u64::MAX as u128) * (u32::MAX as u128))
            by (nonlinear_arith)
            requires
                elapsed <= u64::MAX,
                cfg.requests <= u32::MAX,
        ;
        let amt: u128 = (elapsed as u128) * (cfg.requests as u128) / (cfg.window_ms as u128);
        if amt > 0 {
            let add: u64 = if amt > cfg.requests as u128 {
                cfg.requests as u64
            } else {
                amt as u64
            };
            let topped: u64 = self.tokens as u64 + add;
            self.tokens = if topped > cfg.requests as u64 {
                cfg.requests
            } else {
                topped as u32
            };
            self.last_refill = now;
        }
        let allowed = self.tokens > 0;
        let remaining: u32 = if allowed {
            self.tokens - 1
        } else {
            0
        };
        let passed: u64 = if now >= self.last_refill {
            now - self.last_refill
        } else {
            0
        };
        let reset: u64 = if cfg.window_ms >= passed {
            cfg.window_ms - passed
        } else {
            0
        };
        if allowed {
            self.tokens = remaining;
        }
        (allowed, remaining, reset)
    }
}

} // verus!
