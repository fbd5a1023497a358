use vstd::prelude::*;

use crate::error::ServiceError;
use crate::text::{str_chars, string_of_chars};

verus! {

/// Tokens are counted in millionths: a millisecond at a rate of one
/// thousandth of a token per second adds exactly one unit, so no refill is
/// ever rounded away.
pub const TOKEN_UNIT: u64 = 1000000;

/// Burst size (whole tokens) and refill rate (thousandths of a token per second).
#[derive(Clone, Copy, Debug, PartialEq, Eq)]
pub struct RateConfig {
    pub capacity: u64,
    pub refill_milli_per_sec: u64,
}

impl RateConfig {
    pub open spec fn wf(&self) -> bool {
        self.capacity <= u64::MAX / TOKEN_UNIT
    }

    pub open spec fn cap_units(&self) -> nat {
        (self.capacity * TOKEN_UNIT) as nat
    }
}

/// The state of one client's bucket.
#[derive(Clone, Copy, Debug, PartialEq, Eq)]
pub struct RateBucket {
    /// Millionths of a token that are available.
    pub tokens_micro: u64,
    /// Time of the last refill, in milliseconds.
    pub last_ms: u64,
}

/// Millionths of a token that `elapsed_ms` milliseconds add at the configured
/// rate: exactly `elapsed_ms * refill_milli_per_sec`.
pub open spec fn refill_amount(cfg: RateConfig, elapsed_ms: nat) -> nat {
    elapsed_ms * cfg.refill_milli_per_sec as nat
}

/// A bucket refilled up to `now`, clamped to the capacity.
pub open spec fn refilled(cfg: RateConfig, b: RateBucket, now: u64) -> nat {
    let elapsed: nat = if now >= b.last_ms { (now - b.last_ms) as nat } else { 0 };
    let t = b.tokens_micro as nat + refill_amount(cfg, elapsed);
    if t > cfg.cap_units() { cfg.cap_units() } else { t }
}

/// One check at time `now`: refill, then spend one token if a whole one is there.
pub open spec fn step(cfg: RateConfig, b: RateBucket, now: u64) -> (RateBucket, bool) {
    let t = refilled(cfg, b, now);
    if t >= TOKEN_UNIT {
        (RateBucket { tokens_micro: (t - TOKEN_UNIT) as u64, last_ms: now }, true)
    } else {
        (RateBucket { tokens_micro: t as u64, last_ms: now }, false)
    }
}

/// A bucket as it is created for a client seen for the first time.
pub open spec fn fresh_bucket(cfg: RateConfig, now: u64) -> RateBucket {
    RateBucket { tokens_micro: (cfg.capacity * TOKEN_UNIT) as u64, last_ms: now }
}

/// `n` checks in a row, all at time `now`.
pub open spec fn steps_at(cfg: RateConfig, b: RateBucket, now: u64, n: nat) -> RateBucket
    decreases n,
{
    if n == 0 {
        b
    } else {
        step(cfg, steps_at(cfg, b, now, (n - 1) as nat), now).0
    }
}

/// The bucket a check of `key` at `now` starts from, in a map of buckets.
pub open spec fn current_in(m: Map<Seq<char>, RateBucket>, cfg: RateConfig, key: Seq<char>, now: u64) -> RateBucket {
    if m.contains_key(key) {
        m[key]
    } else {
        fresh_bucket(cfg, now)
    }
}

/// One check of `key` at `now` on a map of buckets: the new map, and whether
/// the request is allowed.
pub open spec fn check_spec(m: Map<Seq<char>, RateBucket>, cfg: RateConfig, key: Seq<char>, now: u64) -> (
    Map<Seq<char>, RateBucket>,
    bool,
) {
    let r = step(cfg, current_in(m, cfg, key, now), now);
    (m.insert(key, r.0), r.1)
}

/// `n` checks of `key` in a row, all at time `now`.
pub open spec fn checks_spec(
    m: Map<Seq<char>, RateBucket>,
    cfg: RateConfig,
    key: Seq<char>,
    now: u64,
    n: nat,
) -> Map<Seq<char>, RateBucket>
    decreases n,
{
    if n == 0 {
        m
    } else {
        check_spec(checks_spec(m, cfg, key, now, (n - 1) as nat), cfg, key, now).0
    }
}

/// After `k` checks of a client at one instant, its bucket is the one that
/// `k` steps from a fresh bucket give.
pub proof fn lemma_checks_follow_steps(
    m: Map<Seq<char>, RateBucket>,
    cfg: RateConfig,
    key: Seq<char>,
    now: u64,
    k: nat,
)
    requires
        !m.contains_key(key),
    ensures
        current_in(checks_spec(m, cfg, key, now, k), cfg, key, now) == steps_at(
            cfg,
            fresh_bucket(cfg, now),
            now,
            k,
        ),
        k > 0 ==> checks_spec(m, cfg, key, now, k).contains_key(key),
    decreases k,
{
    if k > 0 {
        lemma_checks_follow_steps(m, cfg, key, now, (k - 1) as nat);
    }
}

/// A client seen for the first time, with capacity `C`: `n <= C` checks at
/// one instant are all allowed and leave `C - n` tokens; the next check at
/// that instant is refused, and one after `elapsed_ms` is allowed exactly
/// when the refill over that time adds up to a whole token.
pub proof fn lemma_limiter_burst(
    m: Map<Seq<char>, RateBucket>,
    cfg: RateConfig,
    key: Seq<char>,
    now: u64,
    n: nat,
    elapsed_ms: u64,
)
    requires
        cfg.wf(),
        !m.contains_key(key),
        1 <= n <= cfg.capacity,
        now as nat + elapsed_ms as nat <= u64::MAX,
    ensures
        forall|k: nat| k < n ==> #[trigger] check_spec(checks_spec(m, cfg, key, now, k), cfg, key, now).1,
        checks_spec(m, cfg, key, now, n)[key].tokens_micro == (cfg.capacity - n) * TOKEN_UNIT,
        !check_spec(checks_spec(m, cfg, key, now, cfg.capacity as nat), cfg, key, now).1,
        check_spec(
            checks_spec(m, cfg, key, now, cfg.capacity as nat),
            cfg,
            key,
            (now + elapsed_ms) as u64,
        ).1 == (refill_amount(cfg, elapsed_ms as nat) >= TOKEN_UNIT),
{
    assert forall|k: nat| k < n implies #[trigger] check_spec(
        checks_spec(m, cfg, key, now, k),
        cfg,
        key,
        now,
    ).1 by {
        lemma_checks_follow_steps(m, cfg, key, now, k);
        lemma_burst(cfg, now, k);
    }
    lemma_checks_follow_steps(m, cfg, key, now, n);
    lemma_burst(cfg, now, n);
    lemma_checks_follow_steps(m, cfg, key, now, cfg.capacity as nat);
    lemma_exhausted(cfg, now, elapsed_ms);
}

/// Per-client token buckets, keyed by client identifier.
pub struct RateLimiter {
    config: RateConfig,
    keys: Vec<String>,
    buckets: Vec<RateBucket>,
}

impl RateLimiter {
    pub closed spec fn wf(&self) -> bool {
        &&& self.config.wf()
        &&& self.keys.len() == self.buckets.len()
        &&& forall|i: int, j: int|
            0 <= i < self.keys.len() && 0 <= j < self.keys.len() && i != j ==> self.keys[i]@
                != self.keys[j]@
    }

    pub closed spec fn spec_config(&self) -> RateConfig {
        self.config
    }

    pub closed spec fn has_key(&self, k: Seq<char>) -> bool {
        exists|i: int| 0 <= i < self.keys.len() && self.keys[i]@ == k
    }

    /// The buckets, by client identifier.
    pub closed spec fn view(&self) -> Map<Seq<char>, RateBucket> {
        Map::new(
            |k: Seq<char>| self.has_key(k),
            |k: Seq<char>|
                self.buckets[choose|i: int| 0 <= i < self.keys.len() && self.keys[i]@ == k],
        )
    }

    /// The bucket that a check of `key` at `now` starts from.
    pub open spec fn current(&self, key: Seq<char>, now: u64) -> RateBucket {
        if self@.contains_key(key) {
            self@[key]
        } else {
            fresh_bucket(self.spec_config(), now)
        }
    }

    pub fn new(config: RateConfig) -> (r: Self)
        requires
            config.wf(),
        ensures
            r.wf(),
            r.spec_config() == config,
            r@ == Map::<Seq<char>, RateBucket>::empty(),
    {
        let r = RateLimiter { config, keys: Vec::new(), buckets: Vec::new() };
        assert(r@ =~= Map::<Seq<char>, RateBucket>::empty());
        r
    }

    fn find(&self, key: &str) -> (r: Option<usize>)
        requires
            self.wf(),
        ensures
            r matches Some(i) ==> i < self.keys.len() && self.keys[i as int]@ == key@,
            r is None ==> !self.has_key(key@),
    {
        let k = string_of_chars(str_chars(key).as_slice());
        let mut i: usize = 0;
        while i < self.keys.len()
            invariant
                i <= self.keys.len(),
                k@ == key@,
                forall|j: int| 0 <= j < i ==> self.keys[j]@ != key@,
            decreases self.keys.len() - i,
        {
            if self.keys[i] == k {
                return Some(i);
            }
            i = i + 1;
        }
        None
    }

    /// One request by client `key` at time `now_ms`: `true` when it is allowed.
    pub fn check(&mut self, key: &str, now_ms: u64) -> (r: bool)
        requires
            old(self).wf(),
        ensures
            final(self).wf(),
            final(self).spec_config() == old(self).spec_config(),
            r == step(old(self).spec_config(), old(self).current(key@, now_ms), now_ms).1,
            final(self)@ == old(self)@.insert(
                key@,
                step(old(self).spec_config(), old(self).current(key@, now_ms), now_ms).0,
            ),
            (final(self)@, r) == check_spec(old(self)@, old(self).spec_config(), key@, now_ms),
    {
        let cfg = self.config;
        let found = self.find(key);
        let start = match found {
            Some(i) => {
                proof {
                    let j = choose|j: int| 0 <= j < self.keys.len() && self.keys[j]@ == key@;
                    assert(j == i);
                }
                self.buckets[i]
            },
            None => RateBucket { tokens_micro: cfg.capacity * TOKEN_UNIT, last_ms: now_ms },
        };
        let (next, allowed) = step_exec(cfg, start, now_ms);
        let ghost old_self = *self;
        match found {
            Some(i) => {
                self.buckets.set(i, next);
                proof {
                    assert forall|k: Seq<char>| #[trigger] self@.contains_key(k) <==> old_self@.insert(
                        key@,
                        next,
                    ).contains_key(k) by {
                        if k == key@ {
                            assert(self.keys[i as int]@ == k);
                        }
                    }
                    assert forall|k: Seq<char>| #[trigger] self@.contains_key(k) implies self@[k]
                        == old_self@.insert(key@, next)[k] by {
                        let j = choose|j: int| 0 <= j < self.keys.len() && self.keys[j]@ == k;
                        if k == key@ {
                            assert(j == i);
                        } else {
                            assert(j != i);
                        }
                    }
                    assert(self@ =~= old_self@.insert(key@, next));
                }
            },
            None => {
                let k = string_of_chars(str_chars(key).as_slice());
                self.keys.push(k);
                self.buckets.push(next);
                proof {
                    let n = old_self.keys.len() as int;
                    assert(self.keys[n]@ == key@);
                    assert forall|k2: Seq<char>| #[trigger] self@.contains_key(k2) <==> old_self@.insert(
                        key@,
                        next,
                    ).contains_key(k2) by {
                        if self.has_key(k2) && k2 != key@ {
                            let j = choose|j: int| 0 <= j < self.keys.len() && self.keys[j]@ == k2;
                            assert(j != n);
                            assert(old_self.keys[j]@ == k2);
                        }
                        if old_self.has_key(k2) {
                            let j = choose|j: int|
                                0 <= j < old_self.keys.len() && old_self.keys[j]@ == k2;
                            assert(self.keys[j]@ == k2);
                        }
                    }
                    assert forall|k2: Seq<char>| #[trigger] self@.contains_key(k2) implies self@[k2]
                        == old_self@.insert(key@, next)[k2] by {
                        let j = choose|j: int| 0 <= j < self.keys.len() && self.keys[j]@ == k2;
                        if k2 == key@ {
                            assert(j == n);
                        } else {
                            let j0 = choose|j0: int|
                                0 <= j0 < old_self.keys.len() && old_self.keys[j0]@ == k2;
                            assert(self.keys[j0]@ == k2);
                            assert(j == j0);
                        }
                    }
                    assert(self@ =~= old_self@.insert(key@, next));
                }
            },
        }
        allowed
    }
}

impl RateLimiter {
    /// One request by client `key` at time `now_ms`, as a result: refused
    /// requests fail with `RateLimited`.
    pub fn try_acquire(&mut self, key: &str, now_ms: u64) -> (r: Result<(), ServiceError>)
        requires
            old(self).wf(),
        ensures
            final(self).wf(),
            final(self).spec_config() == old(self).spec_config(),
            r is Ok <==> step(old(self).spec_config(), old(self).current(key@, now_ms), now_ms).1,
            r is Err ==> r == Err::<(), ServiceError>(ServiceError::RateLimited),
            (final(self)@, r is Ok) == check_spec(old(self)@, old(self).spec_config(), key@, now_ms),
            final(self)@ == old(self)@.insert(
                key@,
                step(old(self).spec_config(), old(self).current(key@, now_ms), now_ms).0,
            ),
    {
        if self.check(key, now_ms) {
            Ok(())
        } else {
            Err(ServiceError::RateLimited)
        }
    }
}

/// One check of a single bucket at time `now`.
pub fn step_exec(cfg: RateConfig, b: RateBucket, now: u64) -> (r: (RateBucket, bool))
    requires
        cfg.wf(),
    ensures
        r == step(cfg, b, now),
{
    let elapsed: u64 = if now >= b.last_ms { now - b.last_ms } else { 0 };
    proof {
        let e = elapsed as int;
        let f = cfg.refill_milli_per_sec as int;
        assert(e * f <= u64::MAX * u64::MAX) by (nonlinear_arith)
            requires
                0 <= e <= u64::MAX,
                0 <= f <= u64::MAX,
        ;
    }
    let added: u128 = (elapsed as u128) * (cfg.refill_milli_per_sec as u128);
    let cap: u64 = cfg.capacity * TOKEN_UNIT;
    let sum: u128 = b.tokens_micro as u128 + added;
    let t: u64 = if sum > cap as u128 { cap } else { sum as u64 };
    if t >= TOKEN_UNIT {
        (RateBucket { tokens_micro: t - TOKEN_UNIT, last_ms: now }, true)
    } else {
        (RateBucket { tokens_micro: t, last_ms: now }, false)
    }
}

/// The client identifier of a request: the forwarded address when one came,
/// else one shared identifier for all unknown clients.
pub fn client_key(forwarded: Option<&str>) -> (r: String)
    ensures
        forwarded matches Some(f) ==> r@ == f@,
        forwarded is None ==> r@ == seq!['u', 'n', 'k', 'n', 'o', 'w', 'n'],
{
    match forwarded {
        Some(f) => string_of_chars(str_chars(f).as_slice()),
        None => {
            let v: Vec<char> = vec!['u', 'n', 'k', 'n', 'o', 'w', 'n'];
            string_of_chars(v.as_slice())
        },
    }
}

/// Starting full, `n` requests at one instant are all allowed while `n` is at
/// most the capacity, and leave exactly `capacity - n` tokens.
pub proof fn lemma_burst(cfg: RateConfig, now: u64, n: nat)
    requires
        cfg.wf(),
        n <= cfg.capacity,
    ensures
        steps_at(cfg, fresh_bucket(cfg, now), now, n) == (RateBucket {
            tokens_micro: ((cfg.capacity - n) * TOKEN_UNIT) as u64,
            last_ms: now,
        }),
        n < cfg.capacity ==> step(cfg, steps_at(cfg, fresh_bucket(cfg, now), now, n), now).1,
    decreases n,
{
    if n > 0 {
        lemma_burst(cfg, now, (n - 1) as nat);
        let prev = steps_at(cfg, fresh_bucket(cfg, now), now, (n - 1) as nat);
        assert(refilled(cfg, prev, now) == prev.tokens_micro) by {
            assert(refill_amount(cfg, 0) == 0);
        }
        assert((cfg.capacity - (n - 1)) * TOKEN_UNIT == (cfg.capacity - n) * TOKEN_UNIT + TOKEN_UNIT) by (nonlinear_arith)
            requires n >= 1;
        assert((cfg.capacity - (n - 1)) * TOKEN_UNIT <= cfg.capacity * TOKEN_UNIT) by (nonlinear_arith)
            requires n >= 1, n <= cfg.capacity;
    }
    if n < cfg.capacity {
        let cur = steps_at(cfg, fresh_bucket(cfg, now), now, n);
        assert(refill_amount(cfg, 0) == 0);
        assert((cfg.capacity - n) * TOKEN_UNIT >= TOKEN_UNIT) by (nonlinear_arith)
            requires n < cfg.capacity;
    }
}

/// Once the burst is spent, the next request at the same instant is refused,
/// and a request after `elapsed_ms` is allowed exactly when the refill over
/// that time adds up to a whole token.
pub proof fn lemma_exhausted(cfg: RateConfig, now: u64, elapsed_ms: u64)
    requires
        cfg.wf(),
        cfg.capacity >= 1,
        now as nat + elapsed_ms as nat <= u64::MAX,
    ensures
        !step(cfg, steps_at(cfg, fresh_bucket(cfg, now), now, cfg.capacity as nat), now).1,
        step(
            cfg,
            steps_at(cfg, fresh_bucket(cfg, now), now, cfg.capacity as nat),
            (now + elapsed_ms) as u64,
        ).1 == (refill_amount(cfg, elapsed_ms as nat) >= TOKEN_UNIT),
{
    lemma_burst(cfg, now, cfg.capacity as nat);
    assert(refill_amount(cfg, 0) == 0);
    assert(cfg.capacity * TOKEN_UNIT >= TOKEN_UNIT) by (nonlinear_arith)
        requires cfg.capacity >= 1;
}

} // verus!
