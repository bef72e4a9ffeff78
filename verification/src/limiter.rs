//! The keyed bucket store: one token bucket per client key, created lazily
//! on first use, evaluated under exclusive access, and evicted once idle
//! for two windows.
//!
//! The store is modelled as an association list with pairwise-distinct
//! keys; `lookup` is its mathematical reading, and every contract is stated
//! over it.

use vstd::prelude::*;

use crate::rate_limit::{
    bucket_after, elapsed_ms, fresh_bucket, reset_ms, spec_allowed, spec_remaining,
    RateLimitConfig, TokenBucket,
};

verus! {

/// First-match association-list lookup over the store's entries.
pub open spec fn lookup(s: Seq<(String, TokenBucket)>, k: Seq<char>) -> Option<TokenBucket>
    decreases s.len(),
{
    if s.len() == 0 {
        None
    } else if s[0].0@ == k {
        Some(s[0].1)
    } else {
        lookup(s.drop_first(), k)
    }
}

/// If no entry carries key `k`, the lookup misses.
proof fn lemma_lookup_none(s: Seq<(String, TokenBucket)>, k: Seq<char>)
    requires
        forall|j: int| 0 <= j < s.len() ==> (#[trigger] s[j]).0@ != k,
    ensures
        lookup(s, k) is None,
    decreases s.len(),
{
    if s.len() > 0 {
        assert forall|j: int|
            0 <= j < s.drop_first().len() implies (#[trigger] s.drop_first()[j]).0@ != k by {
            assert(s.drop_first()[j] == s[j + 1]);
        }
        lemma_lookup_none(s.drop_first(), k);
    }
}

/// If the first entry carrying key `k` stands at index `i`, the lookup
/// returns that entry's bucket.
proof fn lemma_lookup_first_match(s: Seq<(String, TokenBucket)>, i: int, k: Seq<char>)
    requires
        0 <= i < s.len(),
        forall|j: int| 0 <= j < i ==> (#[trigger] s[j]).0@ != k,
        s[i].0@ == k,
    ensures
        lookup(s, k) == Some(s[i].1),
    decreases i,
{
    if i > 0 {
        assert(s[0].0@ != k);
        assert(s.drop_first()[i - 1] == s[i]);
        assert forall|j: int|
            0 <= j < i - 1 implies (#[trigger] s.drop_first()[j]).0@ != k by {
            assert(s.drop_first()[j] == s[j + 1]);
        }
        lemma_lookup_first_match(s.drop_first(), i - 1, k);
    }
}

/// A successful lookup comes from some entry of the list.
proof fn lemma_lookup_some_entry(s: Seq<(String, TokenBucket)>, k: Seq<char>, b: TokenBucket)
    requires
        lookup(s, k) == Some(b),
    ensures
        exists|i: int| 0 <= i < s.len() && (#[trigger] s[i]).0@ == k && s[i].1 == b,
    decreases s.len(),
{
    if s.len() > 0 {
        if s[0].0@ == k {
            assert((s[0]).0@ == k && s[0].1 == b);
        } else {
            lemma_lookup_some_entry(s.drop_first(), k, b);
            let i = choose|i: int|
                0 <= i < s.drop_first().len() && (#[trigger] s.drop_first()[i]).0@ == k
                    && s.drop_first()[i].1 == b;
            assert(s.drop_first()[i] == s[i + 1]);
            assert((s[i + 1]).0@ == k && s[i + 1].1 == b);
        }
    }
}

/// How appending one entry changes the lookup: hits are preserved, and a
/// former miss now finds the new entry when the key matches.
proof fn lemma_lookup_push(s: Seq<(String, TokenBucket)>, e: (String, TokenBucket), k: Seq<char>)
    ensures
        lookup(s.push(e), k) == (if lookup(s, k) is Some {
            lookup(s, k)
        } else if e.0@ == k {
            Some(e.1)
        } else {
            None::<TokenBucket>
        }),
    decreases s.len(),
{
    if s.len() == 0 {
        assert(s.push(e)[0] == e);
        assert(lookup(s, k) is None);
        if e.0@ == k {
            assert(lookup(s.push(e), k) == Some(e.1));
        } else {
            assert(s.push(e).drop_first() =~= Seq::<(String, TokenBucket)>::empty());
            assert(lookup(s.push(e).drop_first(), k) is None);
            assert(lookup(s.push(e), k) is None);
        }
    } else {
        assert(s.push(e)[0] == s[0]);
        if s[0].0@ == k {
            assert(lookup(s, k) == Some(s[0].1));
            assert(lookup(s.push(e), k) == Some(s[0].1));
        } else {
            assert(s.push(e).drop_first() =~= s.drop_first().push(e));
            lemma_lookup_push(s.drop_first(), e, k);
            assert(lookup(s.push(e), k) == lookup(s.drop_first().push(e), k));
            assert(lookup(s, k) == lookup(s.drop_first(), k));
        }
    }
}

/// Instantiates the pairwise-distinct-keys part of `wf` at two indices.
proof fn lemma_distinct_keys(r: RateLimiter, x: int, y: int)
    requires
        r.wf(),
        0 <= x < y < r.entries().len(),
    ensures
        r.entries()[x].0@ != r.entries()[y].0@,
{
}

/// Instantiates the per-bucket quota bound of `wf` at one index.
proof fn lemma_entry_wf(r: RateLimiter, x: int)
    requires
        r.wf(),
        0 <= x < r.entries().len(),
    ensures
        r.entries()[x].1.wf(r.config),
{
}

/// How overwriting the first entry carrying a key changes the lookup:
/// that key now maps to the new bucket, every other key is untouched.
proof fn lemma_lookup_update(
    s: Seq<(String, TokenBucket)>,
    i: int,
    e: (String, TokenBucket),
    k: Seq<char>,
)
    requires
        0 <= i < s.len(),
        forall|j: int| 0 <= j < i ==> (#[trigger] s[j]).0@ != s[i].0@,
        e.0@ == s[i].0@,
    ensures
        lookup(s.update(i, e), k) == (if k == e.0@ {
            Some(e.1)
        } else {
            lookup(s, k)
        }),
    decreases i,
{
    let u = s.update(i, e);
    if i == 0 {
        assert(u[0] == e);
        if k != e.0@ {
            assert(u.drop_first() =~= s.drop_first());
        }
    } else {
        assert(u[0] == s[0]);
        assert(s[0].0@ != e.0@);
        if k != s[0].0@ {
            assert(u.drop_first() =~= s.drop_first().update(i - 1, e));
            assert(s.drop_first()[i - 1] == s[i]);
            assert forall|j: int|
                0 <= j < i - 1 implies (#[trigger] s.drop_first()[j]).0@ != s.drop_first()[i
                - 1].0@ by {
                assert(s.drop_first()[j] == s[j + 1]);
            }
            lemma_lookup_update(s.drop_first(), i - 1, e, k);
        }
    }
}

/// A bucket is stale at `now` once it has gone unrefilled for at least two
/// whole windows; the sweep evicts exactly the stale buckets.
pub open spec fn stale(cfg: RateLimitConfig, b: TokenBucket, now: u64) -> bool {
    elapsed_ms(b, now) >= 2 * cfg.window_ms
}

/// What one sweep at `now` leaves of a single lookup result.
pub open spec fn sweep_result(
    cfg: RateLimitConfig,
    o: Option<TokenBucket>,
    now: u64,
) -> Option<TokenBucket> {
    match o {
        Some(b) => if stale(cfg, b, now) {
            None
        } else {
            Some(b)
        },
        None => None,
    }
}

/// The keyed table of per-client buckets, owned exclusively. Callers
/// serialise access (the service wraps it in one lock), so each operation
/// sees and leaves a fully consistent table.
pub struct RateLimiter {
    pub buckets: Vec<(String, TokenBucket)>,
    pub config: RateLimitConfig,
}

impl RateLimiter {
    /// The store's entries, for specification purposes.
    pub open spec fn entries(self) -> Seq<(String, TokenBucket)> {
        self.buckets@
    }

    /// The bucket currently recorded for key `k`, if any.
    pub open spec fn spec_lookup(self, k: Seq<char>) -> Option<TokenBucket> {
        lookup(self.entries(), k)
    }

    /// Well-formedness: a positive configuration, pairwise-distinct keys,
    /// and every bucket within the configured quota.
    pub open spec fn wf(self) -> bool {
        &&& self.config.wf()
        &&& forall|i: int, j: int|
            0 <= i < j < self.entries().len() ==> (#[trigger] self.entries()[i]).0@ != (
            #[trigger] self.entries()[j]).0@
        &&& forall|i: int|
            0 <= i < self.entries().len() ==> (#[trigger] self.entries()[i]).1.wf(self.config)
    }

    /// The bucket an evaluation for key `k` starts from: the recorded one,
    /// or a fresh full bucket created at `now`.
    pub open spec fn prior_bucket(self, k: Seq<char>, now: u64) -> TokenBucket {
        match self.spec_lookup(k) {
            Some(b) => b,
            None => fresh_bucket(self.config, now),
        }
    }

    /// An empty store under the given configuration.
    pub fn new(config: RateLimitConfig) -> (r: RateLimiter)
        requires
            config.wf(),
        ensures
            r.wf(),
            r.config == config,
            r.entries().len() == 0,
            forall|k: Seq<char>| (#[trigger] r.spec_lookup(k)) is None,
    {
        RateLimiter { buckets: Vec::new(), config }
    }

    /// Looks up or lazily creates the bucket for `key`, applies one
    /// refill/consume evaluation at `now`, and returns
    /// `(allowed, remaining, reset_in_ms)`.
    ///
    /// The entry for `key` afterwards holds exactly the evaluated bucket,
    /// and every other key's entry is untouched: distinct keys are fully
    /// independent.
    pub fn get_rate_limit_info(&mut self, key: &String, now: u64) -> (r: (bool, u32, u64))
        requires
            old(self).wf(),
        ensures
            final(self).wf(),
            final(self).config == old(self).config,
            r.0 == spec_allowed(old(self).config, old(self).prior_bucket(key@, now), now),
            r.1 == spec_remaining(old(self).config, old(self).prior_bucket(key@, now), now),
            r.2 == reset_ms(old(self).config, old(self).prior_bucket(key@, now), now),
            final(self).spec_lookup(key@) == Some(
                bucket_after(old(self).config, old(self).prior_bucket(key@, now), now),
            ),
            forall|k2: Seq<char>|
                k2 != key@ ==> (#[trigger] final(self).spec_lookup(k2)) == old(self).spec_lookup(
                    k2,
                ),
    {
        let cfg = self.config;
        let n = self.buckets.len();
        let mut found: bool = false;
        let mut idx: usize = 0;
        let mut i: usize = 0;
        while i < n
            invariant
                self.buckets@ == old(self).buckets@,
                self.config == old(self).config,
                n == self.buckets@.len(),
                i <= n,
                found ==> idx < n && self.buckets@[idx as int].0@ == key@ && (forall|j: int|
                    0 <= j < idx ==> (#[trigger] self.buckets@[j]).0@ != key@),
                !found ==> forall|j: int|
                    0 <= j < i ==> (#[trigger] self.buckets@[j]).0@ != key@,
            decreases n - i,
        {
            if !found {
                let e = &self.buckets[i];
                if e.0 == *key {
                    found = true;
                    idx = i;
                }
            }
            i += 1;
        }
        let ghost s0 = self.buckets@;
        if found {
            proof {
                lemma_lookup_first_match(s0, idx as int, key@);
            }
            let e = &self.buckets[idx];
            let mut b = e.1;
            let r = b.evaluate(&cfg, now);
            let entry = (key.clone(), b);
            let ghost ge = entry;
            self.buckets.set(idx, entry);
            proof {
                assert forall|k2: Seq<char>| (#[trigger] lookup(self.buckets@, k2)) == (if k2
                    == key@ {
                    Some(b)
                } else {
                    lookup(s0, k2)
                }) by {
                    lemma_lookup_update(s0, idx as int, ge, k2);
                }
                assert forall|x: int, y: int|
                    0 <= x < y < self.buckets@.len() implies (#[trigger] self.buckets@[x]).0@ != (
                #[trigger] self.buckets@[y]).0@ by {
                    lemma_distinct_keys(*old(self), x, y);
                    assert(self.buckets@[x].0@ == s0[x].0@);
                    assert(self.buckets@[y].0@ == s0[y].0@);
                }
                assert forall|x: int|
                    0 <= x < self.buckets@.len() implies (#[trigger] self.buckets@[x]).1.wf(
                    cfg,
                ) by {
                    if x != idx {
                        lemma_entry_wf(*old(self), x);
                    }
                }
            }
            r
        } else {
            proof {
                lemma_lookup_none(s0, key@);
            }
            let mut b = TokenBucket { tokens: cfg.requests, last_refill: now };
            let r = b.evaluate(&cfg, now);
            let entry = (key.clone(), b);
            let ghost ge = entry;
            self.buckets.push(entry);
            proof {
                assert forall|k2: Seq<char>| (#[trigger] lookup(self.buckets@, k2)) == (if k2
                    == key@ {
                    Some(b)
                } else {
                    lookup(s0, k2)
                }) by {
                    lemma_lookup_push(s0, ge, k2);
                }
                assert forall|x: int, y: int|
                    0 <= x < y < self.buckets@.len() implies (#[trigger] self.buckets@[x]).0@ != (
                #[trigger] self.buckets@[y]).0@ by {
                    if y < s0.len() {
                        lemma_distinct_keys(*old(self), x, y);
                    } else {
                        assert(self.buckets@[y] == ge);
                        assert(self.buckets@[x] == s0[x]);
                    }
                }
                assert forall|x: int|
                    0 <= x < self.buckets@.len() implies (#[trigger] self.buckets@[x]).1.wf(
                    cfg,
                ) by {
                    if x < s0.len() {
                        lemma_entry_wf(*old(self), x);
                    }
                }
            }
            r
        }
    }

    /// Removes every bucket that has gone unrefilled for at least two
    /// windows and leaves every fresher bucket untouched.
    pub fn cleanup(&mut self, now: u64)
        requires
            old(self).wf(),
        ensures
            final(self).wf(),
            final(self).config == old(self).config,
            forall|k: Seq<char>|
                (#[trigger] final(self).spec_lookup(k)) == sweep_result(
                    old(self).config,
                    old(self).spec_lookup(k),
                    now,
                ),
    {
        let cfg = self.config;
        let n = self.buckets.len();
        let mut kept: Vec<(String, TokenBucket)> = Vec::new();
        let mut i: usize = 0;
        while i < n
            invariant
                self.buckets@ == old(self).buckets@,
                self.config == old(self).config,
                old(self).wf(),
                cfg == self.config,
                n == self.buckets@.len(),
                i <= n,
                forall|k: Seq<char>|
                    (#[trigger] lookup(kept@, k)) == sweep_result(
                        cfg,
                        lookup(self.buckets@.subrange(0, i as int), k),
                        now,
                    ),
                forall|a: int|
                    0 <= a < kept@.len() ==> exists|l: int|
                        0 <= l < i && (#[trigger] kept@[a]) == self.buckets@[l],
                forall|a: int, b: int|
                    0 <= a < b < kept@.len() ==> (#[trigger] kept@[a]).0@ != (
                    #[trigger] kept@[b]).0@,
                forall|a: int| 0 <= a < kept@.len() ==> (#[trigger] kept@[a]).1.wf(cfg),
            decreases n - i,
        {
            let ghost prefix = self.buckets@.subrange(0, i as int);
            let ghost kept0 = kept@;
            let ghost cur = self.buckets@[i as int];
            let e = &self.buckets[i];
            let stale_elapsed: u64 = if now >= e.1.last_refill {
                now - e.1.last_refill
            } else {
                0
            };
            let threshold_hit: bool = (stale_elapsed as u128) >= (cfg.window_ms as u128) * 2;
            assert(threshold_hit == stale(cfg, cur.1, now));
            if !threshold_hit {
                let entry = (e.0.clone(), e.1);
                kept.push(entry);
            }
            proof {
                assert(self.buckets@.subrange(0, i + 1) =~= prefix.push(cur));
                assert forall|k: Seq<char>| (#[trigger] lookup(kept@, k)) == sweep_result(
                    cfg,
                    lookup(self.buckets@.subrange(0, i + 1), k),
                    now,
                ) by {
                    lemma_lookup_push(prefix, cur, k);
                    if !stale(cfg, cur.1, now) {
                        lemma_lookup_push(kept0, cur, k);
                    }
                    if lookup(prefix, k) is Some && cur.0@ == k {
                        // impossible: the key at index i would duplicate an
                        // earlier one
                        let b0 = lookup(prefix, k)->Some_0;
                        lemma_lookup_some_entry(prefix, k, b0);
                        let j = choose|j: int|
                            0 <= j < prefix.len() && (#[trigger] prefix[j]).0@ == k && prefix[j].1
                                == b0;
                        assert(prefix[j] == self.buckets@[j]);
                        lemma_distinct_keys(*old(self), j, i as int);
                        assert(false);
                    }
                }
                assert forall|a: int| 0 <= a < kept@.len() implies exists|l: int|
                    0 <= l < i + 1 && (#[trigger] kept@[a]) == self.buckets@[l] by {
                    if a < kept0.len() {
                        assert(kept@[a] == kept0[a]);
                        let l = choose|l: int|
                            0 <= l < i && (#[trigger] kept0[a]) == self.buckets@[l];
                        assert(0 <= l < i + 1 && kept@[a] == self.buckets@[l]);
                    } else {
                        assert(kept@[a] == cur);
                        assert(0 <= i < i + 1 && kept@[a] == self.buckets@[i as int]);
                    }
                }
                assert forall|a: int, b: int|
                    0 <= a < b < kept@.len() implies (#[trigger] kept@[a]).0@ != (
                #[trigger] kept@[b]).0@ by {
                    if b < kept0.len() {
                        assert(kept0[a].0@ != kept0[b].0@);
                    } else if b == kept0.len() && kept@.len() == kept0.len() + 1 {
                        let l = choose|l: int|
                            0 <= l < i && (#[trigger] kept0[a]) == self.buckets@[l];
                        assert(kept@[a] == self.buckets@[l]);
                        assert(kept@[b] == cur);
                        lemma_distinct_keys(*old(self), l, i as int);
                    }
                }
                assert forall|a: int| 0 <= a < kept@.len() implies (#[trigger] kept@[a]).1.wf(
                    cfg,
                ) by {
                    if a < kept0.len() {
                        assert(kept@[a] == kept0[a]);
                    } else {
                        assert(kept@[a] == cur);
                        lemma_entry_wf(*old(self), i as int);
                    }
                }
            }
            i += 1;
        }
        proof {
            assert(self.buckets@.subrange(0, n as int) =~= self.buckets@);
        }
        self.buckets = kept;
    }
}

} // verus!
