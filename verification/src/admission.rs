//! The HTTP-layer admission decision.
//!
//! For each request the middleware derives the client key, consults the
//! bucket store once, and needs exactly four facts back: whether to
//! forward the request, and the three quota headers. `check_admission`
//! computes them; attaching headers and short-circuiting the response is
//! left to the unverified HTTP shell.

use vstd::prelude::*;

use crate::limiter::RateLimiter;
use crate::rate_limit::{bucket_after, reset_ms, spec_allowed, spec_remaining};

verus! {

/// One admission decision together with the quota header values:
/// `X-RateLimit-Limit`, `X-RateLimit-Remaining` and `X-RateLimit-Reset`
/// (the last in whole seconds).
pub struct AdmissionDecision {
    pub allowed: bool,
    pub limit: u32,
    pub remaining: u32,
    pub reset_secs: u64,
}

impl RateLimiter {
    /// Evaluates one request for `key` at `now_ms` and reports the
    /// decision plus the header values. Denied requests still consume an
    /// evaluation and still carry headers (remaining is then zero); there
    /// is no side-effect-free peek.
    pub fn check_admission(&mut self, key: &String, now_ms: u64) -> (d: AdmissionDecision)
        requires
            old(self).wf(),
        ensures
            final(self).wf(),
            final(self).config == old(self).config,
            d.limit == old(self).config.requests,
            d.allowed == spec_allowed(old(self).config, old(self).prior_bucket(key@, now_ms), now_ms),
            d.remaining == spec_remaining(
                old(self).config,
                old(self).prior_bucket(key@, now_ms),
                now_ms,
            ),
            d.reset_secs == reset_ms(old(self).config, old(self).prior_bucket(key@, now_ms), now_ms)
                / 1000,
            final(self).spec_lookup(key@) == Some(
                bucket_after(old(self).config, old(self).prior_bucket(key@, now_ms), now_ms),
            ),
            forall|k2: Seq<char>|
                k2 != key@ ==> (#[trigger] final(self).spec_lookup(k2)) == old(self).spec_lookup(
                    k2,
                ),
    {
        let limit = self.config.requests;
        let (allowed, remaining, reset) = self.get_rate_limit_info(key, now_ms);
        AdmissionDecision { allowed, limit, remaining, reset_secs: reset / 1000 }
    }
}

} // verus!
