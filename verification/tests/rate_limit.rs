use file_microservice::{RateLimitConfig, RateLimiter};

fn limiter_5_per_minute() -> RateLimiter {
    RateLimiter::new(RateLimitConfig::new(5, 60000))
}

#[test]
fn quota_exhausts_then_denies() {
    let mut rl = limiter_5_per_minute();
    let key = String::from("10.0.0.1");
    let mut seen = Vec::new();
    for _ in 0..5 {
        let (allowed, remaining, _reset) = rl.get_rate_limit_info(&key, 0);
        assert!(allowed);
        seen.push(remaining);
    }
    assert_eq!(seen, vec![4, 3, 2, 1, 0]);
    let (allowed, remaining, _reset) = rl.get_rate_limit_info(&key, 0);
    assert!(!allowed);
    assert_eq!(remaining, 0);
}

#[test]
fn denied_then_full_window_refills() {
    let mut rl = limiter_5_per_minute();
    let key = String::from("10.0.0.1");
    for _ in 0..5 {
        let (allowed, _, _) = rl.get_rate_limit_info(&key, 0);
        assert!(allowed);
    }
    let (allowed, _, _) = rl.get_rate_limit_info(&key, 0);
    assert!(!allowed);
    // One whole window later the bucket refills completely:
    // remaining = min(capacity, 0 + 5) - 1.
    let (allowed, remaining, _) = rl.get_rate_limit_info(&key, 60000);
    assert!(allowed);
    assert_eq!(remaining, 4);
}

#[test]
fn denied_then_partial_refill() {
    let mut rl = limiter_5_per_minute();
    let key = String::from("10.0.0.1");
    for _ in 0..6 {
        rl.get_rate_limit_info(&key, 0);
    }
    // 12 s into a 60 s window refills floor(12000 / 60000 * 5) = 1 token:
    // remaining = min(capacity, 0 + 1) - 1.
    let (allowed, remaining, _) = rl.get_rate_limit_info(&key, 12000);
    assert!(allowed);
    assert_eq!(remaining, 0);
}

#[test]
fn distinct_keys_are_independent() {
    let mut rl = limiter_5_per_minute();
    let first = String::from("10.0.0.1");
    let second = String::from("10.0.0.2");
    for _ in 0..6 {
        rl.get_rate_limit_info(&first, 0);
    }
    let (allowed, _, _) = rl.get_rate_limit_info(&first, 0);
    assert!(!allowed);
    // Exhausting the first key's quota leaves the second untouched.
    let (allowed, remaining, _) = rl.get_rate_limit_info(&second, 0);
    assert!(allowed);
    assert_eq!(remaining, 4);
}

#[test]
fn sweep_removes_exactly_stale_buckets() {
    let mut rl = limiter_5_per_minute();
    let idle = String::from("10.0.0.1");
    let active = String::from("10.0.0.2");
    for _ in 0..6 {
        rl.get_rate_limit_info(&idle, 0);
    }
    // Exhaust `active` too; its last refill (at 1) is one tick fresher
    // than the sweep's two-window threshold.
    for _ in 0..6 {
        rl.get_rate_limit_info(&active, 1);
    }
    rl.cleanup(120000);
    // `idle` (last refill at 0, 2 x 60 s ago) was evicted: it behaves as
    // brand new, with full capacity.
    let (allowed, remaining, _) = rl.get_rate_limit_info(&idle, 120000);
    assert!(allowed);
    assert_eq!(remaining, 4);
    // `active` survived with its old refill time: 12 s after that time
    // only one token has accrued, where a fresh bucket would hold five.
    let (allowed, remaining, _) = rl.get_rate_limit_info(&active, 12001);
    assert!(allowed);
    assert_eq!(remaining, 0);
}

#[test]
fn sweep_keeps_fresh_buckets() {
    let mut rl = limiter_5_per_minute();
    let key = String::from("10.0.0.1");
    for _ in 0..6 {
        rl.get_rate_limit_info(&key, 0);
    }
    // One tick short of two windows: the bucket survives the sweep.
    rl.cleanup(119999);
    // It kept its refill time of 0, so at 12 s only one token has
    // accrued; a freshly created bucket would report remaining = 4.
    let (allowed, remaining, _) = rl.get_rate_limit_info(&key, 12000);
    assert!(allowed);
    assert_eq!(remaining, 0);
}

#[test]
fn no_overshoot_within_one_window() {
    let mut rl = limiter_5_per_minute();
    let key = String::from("10.0.0.1");
    // Twenty serialised callers racing on one key within an un-refilled
    // window: exactly `capacity` admissions in total.
    let mut admitted = 0;
    for _ in 0..20 {
        let (allowed, _, _) = rl.get_rate_limit_info(&key, 0);
        if allowed {
            admitted += 1;
        }
    }
    assert_eq!(admitted, 5);
}

#[test]
fn remaining_accounts_for_consumed() {
    let mut rl = limiter_5_per_minute();
    let key = String::from("10.0.0.1");
    // On every admitted call, remaining = limit - (admissions so far).
    let mut consumed = 0;
    for _ in 0..20 {
        let (allowed, remaining, _) = rl.get_rate_limit_info(&key, 0);
        if allowed {
            consumed += 1;
            assert_eq!(remaining as u64, 5 - consumed);
        }
    }
}

#[test]
fn reset_counts_down_without_refill() {
    let mut rl = limiter_5_per_minute();
    let key = String::from("10.0.0.1");
    let (_, _, reset) = rl.get_rate_limit_info(&key, 0);
    assert_eq!(reset, 60000);
    // 6 s later no refill has happened (floor(6000 / 60000 * 5) = 0), so
    // the reset clock still runs against the old refill time.
    let (_, _, reset) = rl.get_rate_limit_info(&key, 6000);
    assert_eq!(reset, 54000);
}

#[test]
fn refill_is_capped_at_capacity() {
    let mut rl = limiter_5_per_minute();
    let key = String::from("10.0.0.1");
    for _ in 0..6 {
        rl.get_rate_limit_info(&key, 0);
    }
    // 90 s of credit would be 7 tokens; the bucket caps at 5, and this
    // call consumes one of them.
    let (allowed, remaining, _) = rl.get_rate_limit_info(&key, 90000);
    assert!(allowed);
    assert_eq!(remaining, 4);
}

#[test]
fn fractional_credit_stalls_below_one_token() {
    let mut rl = limiter_5_per_minute();
    let key = String::from("10.0.0.1");
    for _ in 0..6 {
        rl.get_rate_limit_info(&key, 0);
    }
    // Just under one token of credit (floor(11999 / 60000 * 5) = 0): the
    // refill clock does not advance and the call is still denied.
    let (allowed, remaining, _) = rl.get_rate_limit_info(&key, 11999);
    assert!(!allowed);
    assert_eq!(remaining, 0);
    // The reference time never moved, so at 12000 the token does arrive.
    let (allowed, _, _) = rl.get_rate_limit_info(&key, 12000);
    assert!(allowed);
}

#[test]
fn default_config_is_five_per_minute() {
    let cfg = RateLimitConfig::default();
    assert_eq!(cfg.requests, 5);
    assert_eq!(cfg.window_ms, 60000);
}

#[test]
fn admission_decision_carries_headers() {
    let mut rl = limiter_5_per_minute();
    let key = String::from("10.0.0.1");
    let d = rl.check_admission(&key, 0);
    assert!(d.allowed);
    assert_eq!(d.limit, 5);
    assert_eq!(d.remaining, 4);
    assert_eq!(d.reset_secs, 60);
    for _ in 0..4 {
        rl.check_admission(&key, 0);
    }
    let d = rl.check_admission(&key, 6000);
    assert!(!d.allowed);
    assert_eq!(d.limit, 5);
    assert_eq!(d.remaining, 0);
    assert_eq!(d.reset_secs, 54);
}
