use adedge::error::ServiceError;
use adedge::rate::{client_key, step_exec, RateBucket, RateConfig, RateLimiter};

fn cfg(capacity: u64, refill_milli_per_sec: u64) -> RateConfig {
    RateConfig { capacity, refill_milli_per_sec }
}

#[test]
fn burst_spends_exactly_capacity() {
    let mut rl = RateLimiter::new(cfg(5, 1000));
    for _ in 0..5 {
        assert!(rl.check("1.2.3.4", 1000));
    }
    assert!(!rl.check("1.2.3.4", 1000));
    assert!(!rl.check("1.2.3.4", 1000));
}

#[test]
fn tokens_left_after_n_requests() {
    let c = cfg(5, 1000);
    let mut b = RateBucket { tokens_micro: 5_000_000, last_ms: 0 };
    for n in 1..=3u64 {
        let (next, ok) = step_exec(c, b, 0);
        assert!(ok);
        assert_eq!(next.tokens_micro, (5 - n) * 1_000_000);
        b = next;
    }
}

#[test]
fn refill_after_one_over_rate() {
    // Half a token per second: a token comes back after two seconds.
    let mut rl = RateLimiter::new(cfg(1, 500));
    assert!(rl.check("k", 10_000));
    assert!(!rl.check("k", 10_000));
    assert!(!rl.check("k", 11_000));
    // 1 s added 0.5 token; 1 s more completes it.
    assert!(rl.check("k", 12_000));
}

#[test]
fn refill_exact_boundary() {
    let c = cfg(2, 1000);
    let empty = RateBucket { tokens_micro: 0, last_ms: 0 };
    assert!(!step_exec(c, empty, 999).1);
    assert!(step_exec(c, empty, 1000).1);
}

#[test]
fn refill_is_capped() {
    let c = cfg(3, 1000);
    let b = RateBucket { tokens_micro: 0, last_ms: 0 };
    let (next, ok) = step_exec(c, b, 1_000_000);
    assert!(ok);
    assert_eq!(next.tokens_micro, 2_000_000);
    assert_eq!(next.last_ms, 1_000_000);
}

#[test]
fn clients_have_separate_buckets() {
    let mut rl = RateLimiter::new(cfg(1, 0));
    assert!(rl.check("a", 0));
    assert!(!rl.check("a", 0));
    assert!(rl.check("b", 0));
}

#[test]
fn unknown_clients_share_a_key() {
    assert_eq!(client_key(None), "unknown");
    assert_eq!(client_key(Some("10.0.0.1")), "10.0.0.1");
    let mut rl = RateLimiter::new(cfg(1, 0));
    assert!(rl.check(&client_key(None), 0));
    assert!(!rl.check(&client_key(None), 0));
}

#[test]
fn try_acquire_reports_rate_limited() {
    let mut rl = RateLimiter::new(cfg(1, 0));
    assert_eq!(rl.try_acquire("x", 0), Ok(()));
    assert_eq!(rl.try_acquire("x", 0), Err(ServiceError::RateLimited));
    assert_eq!(ServiceError::RateLimited.status_code(), 429);
}

#[test]
fn slow_refill_is_not_lost_between_frequent_requests() {
    // One thousandth of a token per second, a request every 500 ms: each
    // adds 500 millionths of a token, and a whole token after 1000 s.
    let c = cfg(1, 1);
    let mut b = RateBucket { tokens_micro: 0, last_ms: 0 };
    let mut allowed_at = None;
    for k in 1..=2000u64 {
        let (next, ok) = step_exec(c, b, k * 500);
        b = next;
        if ok {
            allowed_at = Some(k * 500);
            break;
        }
    }
    assert_eq!(allowed_at, Some(1_000_000));
}
