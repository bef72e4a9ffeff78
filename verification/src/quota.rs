//! Quota laws: proved properties of the refill/consume algorithm across
//! one or many evaluations.

use vstd::prelude::*;

use vstd::arithmetic::div_mod::{lemma_div_is_ordered, lemma_div_multiples_vanish, lemma_div_of0};
use vstd::arithmetic::mul::lemma_mul_inequality;

use crate::rate_limit::{
    bucket_after, fresh_bucket, refill_amount, reset_ms, spec_allowed, spec_remaining,
    RateLimitConfig, TokenBucket,
};

verus! {

/// A freshly created bucket admits its first request and reports the full
/// quota minus the one admission just consumed. In particular, a key that
/// was swept and is requested again behaves as brand new.
pub proof fn lemma_fresh_key_full_quota(cfg: RateLimitConfig, now: u64)
    requires
        cfg.wf(),
    ensures
        spec_allowed(cfg, fresh_bucket(cfg, now), now),
        spec_remaining(cfg, fresh_bucket(cfg, now), now) == cfg.requests - 1,
        reset_ms(cfg, fresh_bucket(cfg, now), now) == cfg.window_ms,
{
    lemma_div_of0(cfg.window_ms as int);
}

/// One full window after the last refill, an evaluation refills at least
/// the whole quota, so it is always admitted, and the remaining count it
/// reports is the refilled token count (prior tokens plus refill, capped
/// at the quota) minus the one admission just consumed.
pub proof fn lemma_refill_after_window(cfg: RateLimitConfig, b: TokenBucket, now: u64)
    requires
        cfg.wf(),
        b.wf(cfg),
        now >= b.last_refill,
        now - b.last_refill >= cfg.window_ms,
    ensures
        refill_amount(cfg, b, now) >= cfg.requests,
        spec_allowed(cfg, b, now),
        spec_remaining(cfg, b, now) == (if b.tokens + refill_amount(cfg, b, now) > cfg.requests {
            cfg.requests as int
        } else {
            b.tokens + refill_amount(cfg, b, now)
        }) - 1,
{
    let e = now - b.last_refill;
    let w = cfg.window_ms as int;
    let r = cfg.requests as int;
    lemma_mul_inequality(w, e, r);
    lemma_div_is_ordered(w * r, e * r, w);
    lemma_div_multiples_vanish(r, w);
    assert((w * r) / w == r);
    assert(refill_amount(cfg, b, now) >= r);
}

/// As soon as at least one token of credit has accrued — however partial
/// the refill — the next evaluation is admitted, and the remaining count
/// it reports is the refilled token count (prior tokens plus refill,
/// capped at the quota) minus the one admission just consumed. After a
/// denial this is what lets the key through again.
pub proof fn lemma_any_refill_allows(cfg: RateLimitConfig, b: TokenBucket, now: u64)
    requires
        cfg.wf(),
        b.wf(cfg),
        refill_amount(cfg, b, now) >= 1,
    ensures
        spec_allowed(cfg, b, now),
        spec_remaining(cfg, b, now) == (if b.tokens + refill_amount(cfg, b, now) > cfg.requests {
            cfg.requests as int
        } else {
            b.tokens + refill_amount(cfg, b, now)
        }) - 1,
{
}

/// The bucket state after a sequence of evaluations, one per timestamp.
pub open spec fn bucket_after_all(cfg: RateLimitConfig, b: TokenBucket, times: Seq<u64>) -> TokenBucket
    decreases times.len(),
{
    if times.len() == 0 {
        b
    } else {
        bucket_after(cfg, bucket_after_all(cfg, b, times.drop_last()), times.last())
    }
}

/// How many evaluations of the sequence admit their request.
pub open spec fn count_allowed(cfg: RateLimitConfig, b: TokenBucket, times: Seq<u64>) -> int
    decreases times.len(),
{
    if times.len() == 0 {
        0int
    } else {
        count_allowed(cfg, b, times.drop_last()) + (
        if spec_allowed(cfg, bucket_after_all(cfg, b, times.drop_last()), times.last()) {
            1int
        } else {
            0int
        })
    }
}

/// The timestamps all fall within one un-refilled window of the bucket:
/// no evaluation among them triggers a refill.
pub open spec fn no_refill_during(cfg: RateLimitConfig, b: TokenBucket, times: Seq<u64>) -> bool {
    forall|i: int| 0 <= i < times.len() ==> refill_amount(cfg, b, #[trigger] times[i]) == 0
}

/// With no refill, the refill clock never moves and the tokens fall by
/// exactly the number of admissions, which never exceeds the starting
/// token count.
pub proof fn lemma_run_no_refill(cfg: RateLimitConfig, b: TokenBucket, times: Seq<u64>)
    requires
        cfg.wf(),
        b.wf(cfg),
        no_refill_during(cfg, b, times),
    ensures
        bucket_after_all(cfg, b, times).last_refill == b.last_refill,
        0 <= count_allowed(cfg, b, times) <= b.tokens,
        bucket_after_all(cfg, b, times).tokens == b.tokens - count_allowed(cfg, b, times),
        bucket_after_all(cfg, b, times).wf(cfg),
    decreases times.len(),
{
    if times.len() > 0 {
        let prefix = times.drop_last();
        assert forall|j: int|
            0 <= j < prefix.len() implies refill_amount(cfg, b, #[trigger] prefix[j]) == 0 by {
            assert(prefix[j] == times[j]);
        }
        lemma_run_no_refill(cfg, b, prefix);
        let bp = bucket_after_all(cfg, b, prefix);
        assert(refill_amount(cfg, b, times[times.len() - 1]) == 0);
        assert(refill_amount(cfg, bp, times.last()) == 0);
    }
}

/// No overshoot under concurrency: however many callers race on one key,
/// their evaluations are serialised, and within one un-refilled window at
/// most `capacity` of them are admitted in total.
pub proof fn lemma_no_overshoot(cfg: RateLimitConfig, b: TokenBucket, times: Seq<u64>)
    requires
        cfg.wf(),
        b.wf(cfg),
        no_refill_during(cfg, b, times),
    ensures
        count_allowed(cfg, b, times) <= cfg.requests,
{
    lemma_run_no_refill(cfg, b, times);
}

/// Quota accounting: starting from a full bucket and refilling never, an
/// admitted evaluation reports remaining = capacity minus the admissions
/// consumed so far in the window, the current one included.
pub proof fn lemma_remaining_accounts_for_consumed(
    cfg: RateLimitConfig,
    b: TokenBucket,
    times: Seq<u64>,
    i: int,
)
    requires
        cfg.wf(),
        b.tokens == cfg.requests,
        no_refill_during(cfg, b, times),
        0 <= i < times.len(),
        spec_allowed(cfg, bucket_after_all(cfg, b, times.take(i)), times[i]),
    ensures
        spec_remaining(cfg, bucket_after_all(cfg, b, times.take(i)), times[i]) == cfg.requests
            - count_allowed(cfg, b, times.take(i + 1)),
{
    let pre = times.take(i);
    assert forall|j: int|
        0 <= j < pre.len() implies refill_amount(cfg, b, #[trigger] pre[j]) == 0 by {
        assert(pre[j] == times[j]);
    }
    lemma_run_no_refill(cfg, b, pre);
    let bp = bucket_after_all(cfg, b, pre);
    assert(refill_amount(cfg, b, times[i]) == 0);
    assert(refill_amount(cfg, bp, times[i]) == 0);
    assert(times.take(i + 1).drop_last() =~= pre);
    assert(times.take(i + 1).last() == times[i]);
    assert(count_allowed(cfg, b, times.take(i + 1)) == count_allowed(cfg, b, pre) + 1);
}

} // verus!
