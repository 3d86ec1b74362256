use road47::config::RateLimitingConfig;
use road47::rate_limiter::fixed_window::FixedWindowRateLimiter;
use road47::rate_limiter::leaky_bucket::LeakyBucketRateLimiter;
use road47::rate_limiter::sliding_window_counter::SlidingWindowCounterRateLimiter;
use road47::rate_limiter::sliding_window_log::SlidingWindowLogRateLimiter;
use road47::rate_limiter::token_bucket::TokenBucketRateLimiter;
use road47::rate_limiter::{create_rate_limiter, ConfiguredRateLimiter, NoOpRateLimiter, RateLimiter};

#[test]
fn fixed_window_scenario() {
    let mut l = FixedWindowRateLimiter::new(2, 1000);
    assert!(l.allow("1.2.3.4", 0));
    assert!(l.allow("1.2.3.4", 100));
    assert!(!l.allow("1.2.3.4", 200));
    assert!(l.allow("1.2.3.4", 1100));
}

#[test]
fn fixed_window_keys_are_independent() {
    let mut l = FixedWindowRateLimiter::new(1, 1000);
    assert!(l.allow("a", 0));
    assert!(!l.allow("a", 1));
    assert!(l.allow("b", 2));
}

#[test]
fn token_bucket_scenario() {
    let mut l = TokenBucketRateLimiter::new(2, 1000, 1);
    assert!(l.allow("ip", 0));
    assert!(l.allow("ip", 0));
    assert!(!l.allow("ip", 500));
    assert!(l.allow("ip", 1000));
    assert!(!l.allow("ip", 1000));
}

#[test]
fn token_bucket_empty_and_no_time_rejects() {
    let mut l = TokenBucketRateLimiter::new(1, 1000, 1);
    assert!(l.allow("ip", 0));
    assert!(!l.allow("ip", 0));
}

#[test]
fn token_bucket_refill_is_capped() {
    let mut l = TokenBucketRateLimiter::new(2, 10, 5);
    assert!(l.allow("ip", 0));
    assert!(l.allow("ip", 0));
    assert!(!l.allow("ip", 0));
    assert!(l.allow("ip", 1_000_000));
    assert!(l.allow("ip", 1_000_000));
    assert!(!l.allow("ip", 1_000_000));
}

#[test]
fn sliding_window_log_scenario() {
    let mut l = SlidingWindowLogRateLimiter::new(2, 1000);
    assert!(l.allow("ip", 0));
    assert!(l.allow("ip", 100));
    assert!(!l.allow("ip", 200));
    assert!(l.allow("ip", 1101));
}

#[test]
fn leaky_bucket_scenario() {
    let mut l = LeakyBucketRateLimiter::new(2, 1000);
    assert!(l.allow("ip", 0));
    assert!(l.allow("ip", 100));
    assert!(!l.allow("ip", 200));
    assert!(l.allow("ip", 1101));
}

#[test]
fn sliding_window_counter_rejects_bad_granularity() {
    assert!(SlidingWindowCounterRateLimiter::new(10, 1000, 1000).is_none());
    assert!(SlidingWindowCounterRateLimiter::new(10, 500, 1000).is_none());
    assert!(SlidingWindowCounterRateLimiter::new(10, 2000, 500).is_some());
}

#[test]
fn sliding_window_counter_counts_within_window() {
    let mut l = SlidingWindowCounterRateLimiter::new(2, 2000, 500).unwrap();
    assert!(l.allow("ip", 0));
    assert!(l.allow("ip", 100));
    assert!(!l.allow("ip", 200));
    assert!(l.allow("ip", 2600));
}

#[test]
fn noop_admits_everything() {
    let mut l = NoOpRateLimiter;
    for t in 0..50u64 {
        assert!(l.allow("any", t));
    }
}

fn base_config(strategy: &str) -> RateLimitingConfig {
    RateLimitingConfig {
        strategy: strategy.to_string(),
        limit: 5,
        window_size_seconds: 60,
        refill_amount: Some(10),
        refill_interval_seconds: None,
        capacity: Some(100),
        leak_rate_seconds: Some(1),
        granularity_seconds: Some(5),
    }
}

#[test]
fn create_rate_limiter_selects_the_named_algorithm() {
    assert!(matches!(
        create_rate_limiter(Some(base_config("FixedWindow"))),
        ConfiguredRateLimiter::FixedWindow(_)
    ));
    assert!(matches!(
        create_rate_limiter(Some(base_config("SlidingWindow"))),
        ConfiguredRateLimiter::SlidingLog(_)
    ));
    assert!(matches!(
        create_rate_limiter(Some(base_config("TokenBucket"))),
        ConfiguredRateLimiter::TokenBucket(_)
    ));
    assert!(matches!(
        create_rate_limiter(Some(base_config("LeakyBucket"))),
        ConfiguredRateLimiter::LeakyBucket(_)
    ));
    assert!(matches!(
        create_rate_limiter(Some(base_config("SlidingWindowCounter"))),
        ConfiguredRateLimiter::SlidingCounter(_)
    ));
}

#[test]
fn create_rate_limiter_falls_back_to_noop() {
    assert!(matches!(
        create_rate_limiter(Some(base_config("SomethingElse"))),
        ConfiguredRateLimiter::NoOp(_)
    ));
    assert!(matches!(create_rate_limiter(None), ConfiguredRateLimiter::NoOp(_)));
}

#[test]
fn configured_limiter_dispatches() {
    let mut l = create_rate_limiter(Some(RateLimitingConfig {
        strategy: "FixedWindow".to_string(),
        limit: 1,
        window_size_seconds: 1,
        refill_amount: None,
        refill_interval_seconds: None,
        capacity: None,
        leak_rate_seconds: None,
        granularity_seconds: None,
    }));
    assert!(l.allow("ip", 0));
    assert!(!l.allow("ip", 1));
    assert!(l.allow("ip", 1000));
}
