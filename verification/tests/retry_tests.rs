use road47::config::{RetryStrategyConfig, StrategyType};
use road47::retry::{create_strategy, RetryStrategyChoice};
use road47::retry_strategy::{
    fibonacci, ExponentialBackoffStrategy, FibonacciBackoffStrategy, FixedDelayStrategy,
    GeometricBackoffStrategy, HarmonicBackoffStrategy, IncrementalBackoffStrategy,
    JitterBackoffStrategy, LinearBackoffStrategy, RandomDelayStrategy, RetryStrategy,
};

#[test]
fn exponential_backoff_scenario() {
    let s = ExponentialBackoffStrategy { initial_delay_millis: 100, max_delay_millis: 1000 };
    let delays: Vec<u64> = (0..6).map(|a| s.delay(a)).collect();
    assert_eq!(delays, vec![100, 200, 400, 800, 1000, 1000]);
}

#[test]
fn exponential_backoff_zero_initial_stays_zero() {
    let s = ExponentialBackoffStrategy { initial_delay_millis: 0, max_delay_millis: 1000 };
    assert_eq!(s.delay(0), 0);
    assert_eq!(s.delay(40), 0);
}

#[test]
fn fixed_delay_is_constant() {
    let s = FixedDelayStrategy { delay_duration_millis: 250 };
    assert_eq!(s.delay(0), 250);
    assert_eq!(s.delay(17), 250);
}

#[test]
fn linear_backoff_grows_by_increment() {
    let s = LinearBackoffStrategy {
        initial_delay_millis: 100,
        increment_millis: 50,
        max_delay_millis: 1000,
    };
    assert_eq!(s.delay(0), 100);
    assert_eq!(s.delay(2), 200);
    assert_eq!(s.delay(100), 1000);
}

#[test]
fn incremental_backoff_formula() {
    let s = IncrementalBackoffStrategy {
        initial_delay_millis: 100,
        increment_step_millis: 100,
        step_increment_millis: 50,
        max_delay_millis: 100_000,
    };
    assert_eq!(s.delay(0), 100);
    assert_eq!(s.delay(1), 200);
    assert_eq!(s.delay(2), 400);
    assert_eq!(s.delay(3), 700);
}

#[test]
fn incremental_backoff_caps_every_attempt() {
    let s = IncrementalBackoffStrategy {
        initial_delay_millis: 500,
        increment_step_millis: 100,
        step_increment_millis: 50,
        max_delay_millis: 100,
    };
    assert_eq!(s.delay(0), 100);
    assert_eq!(s.delay(1), 100);
    assert_eq!(s.delay(7), 100);
}

#[test]
fn fibonacci_backoff_scales_by_fibonacci() {
    let s = FibonacciBackoffStrategy { base_delay_millis: 100, max_delay_millis: 10_000 };
    assert_eq!(s.delay(0), 0);
    assert_eq!(s.delay(1), 100);
    assert_eq!(s.delay(2), 100);
    assert_eq!(s.delay(5), 500);
    assert_eq!(s.delay(7), 1300);
    assert_eq!(s.delay(30), 10_000);
}

#[test]
fn fibonacci_numbers() {
    assert_eq!(fibonacci(0), 0);
    assert_eq!(fibonacci(1), 1);
    assert_eq!(fibonacci(2), 1);
    assert_eq!(fibonacci(10), 55);
    assert_eq!(fibonacci(20), 6765);
}

#[test]
fn geometric_backoff_doubles_with_factor_two() {
    let s = GeometricBackoffStrategy {
        initial_delay_millis: 100,
        multiplier_milli: 2000,
        max_delay_millis: 1000,
    };
    assert_eq!(s.delay(0), 100);
    assert_eq!(s.delay(1), 200);
    assert_eq!(s.delay(2), 400);
    assert_eq!(s.delay(4), 1000);
}

#[test]
fn geometric_backoff_shrinks_with_factor_below_one() {
    let s = GeometricBackoffStrategy {
        initial_delay_millis: 100,
        multiplier_milli: 500,
        max_delay_millis: 1000,
    };
    assert_eq!(s.delay(0), 100);
    assert_eq!(s.delay(1), 50);
    assert_eq!(s.delay(2), 25);
}

#[test]
fn harmonic_backoff_partial_sums() {
    let s = HarmonicBackoffStrategy { initial_delay_millis: 100, max_delay_millis: 1000 };
    assert_eq!(s.delay(0), 0);
    assert_eq!(s.delay(1), 100);
    assert_eq!(s.delay(2), 150);
    assert_eq!(s.delay(3), 183);
}

#[test]
fn random_delay_stays_in_range() {
    let s = RandomDelayStrategy { min_delay_millis: 50, max_delay_millis: 150 };
    for a in 0..20 {
        let d = s.delay(a);
        assert!((50..=150).contains(&d));
    }
}

#[test]
fn jitter_backoff_stays_bounded() {
    let s = JitterBackoffStrategy {
        initial_delay_millis: 100,
        multiplier_milli: 2000,
        max_delay_millis: 10_000,
    };
    for a in 0..8 {
        let d = s.delay(a);
        assert!(d <= 10_000);
        if d < 10_000 {
            let exp = 100u64 << a;
            assert!(d >= exp && d < 2 * exp);
        }
    }
}

#[test]
fn should_retry_is_attempt_below_max() {
    let s = FixedDelayStrategy { delay_duration_millis: 1 };
    assert!(s.should_retry(0, 3));
    assert!(s.should_retry(2, 3));
    assert!(!s.should_retry(3, 3));
    assert!(!s.should_retry(7, 3));
}

fn base_config(t: StrategyType) -> RetryStrategyConfig {
    RetryStrategyConfig {
        strategy_type: t,
        max_delay_secs: 30,
        max_attempts: 5,
        initial_delay_millis: 100,
        timeout_secs: 2,
        increment_millis: None,
        min_delay_millis: None,
        multiplier_milli: None,
        increment_step_millis: None,
        step_increment_millis: None,
    }
}

#[test]
fn create_strategy_selects_the_named_family() {
    assert!(matches!(
        create_strategy(&base_config(StrategyType::FixedDelay)),
        RetryStrategyChoice::Fixed(_)
    ));
    assert!(matches!(
        create_strategy(&base_config(StrategyType::ExponentialBackoff)),
        RetryStrategyChoice::Exponential(_)
    ));
    assert!(matches!(
        create_strategy(&base_config(StrategyType::LinearBackoff)),
        RetryStrategyChoice::Linear(_)
    ));
    assert!(matches!(
        create_strategy(&base_config(StrategyType::RandomDelay)),
        RetryStrategyChoice::Random(_)
    ));
    assert!(matches!(
        create_strategy(&base_config(StrategyType::IncrementalBackoff)),
        RetryStrategyChoice::Incremental(_)
    ));
    assert!(matches!(
        create_strategy(&base_config(StrategyType::FibonacciBackoff)),
        RetryStrategyChoice::Fibonacci(_)
    ));
    assert!(matches!(
        create_strategy(&base_config(StrategyType::GeometricBackoff)),
        RetryStrategyChoice::Geometric(_)
    ));
    assert!(matches!(
        create_strategy(&base_config(StrategyType::HarmonicBackoff)),
        RetryStrategyChoice::Harmonic(_)
    ));
    assert!(matches!(
        create_strategy(&base_config(StrategyType::JitterBackoff)),
        RetryStrategyChoice::Jitter(_)
    ));
}

#[test]
fn create_strategy_applies_defaults_and_caps() {
    let s = create_strategy(&base_config(StrategyType::ExponentialBackoff));
    assert_eq!(s.delay(0), 100);
    assert_eq!(s.delay(20), 30_000);
    let g = create_strategy(&base_config(StrategyType::GeometricBackoff));
    assert_eq!(g.delay(1), 200);
}

#[test]
fn create_strategy_clamps_the_fixed_delay() {
    let mut config = base_config(StrategyType::FixedDelay);
    config.initial_delay_millis = 60_000;
    let s = create_strategy(&config);
    assert_eq!(s.delay(0), 30_000);
    assert_eq!(s.delay(9), 30_000);
}
