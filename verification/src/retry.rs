//! Builds the retry strategy a configuration names. The connection loop
//! that sleeps between attempts lives with the caller; the strategy values
//! built here decide its schedule.

use vstd::prelude::*;

use crate::config::{RetryStrategyConfig, StrategyType};
use crate::retry_strategy::{
    ExponentialBackoffStrategy, FibonacciBackoffStrategy, FixedDelayStrategy,
    GeometricBackoffStrategy, HarmonicBackoffStrategy, IncrementalBackoffStrategy,
    JitterBackoffStrategy, LinearBackoffStrategy, RandomDelayStrategy, RetryStrategy,
};

verus! {

/// The strategy a retry configuration selects.
pub enum RetryStrategyChoice {
    Fixed(FixedDelayStrategy),
    Exponential(ExponentialBackoffStrategy),
    Linear(LinearBackoffStrategy),
    Random(RandomDelayStrategy),
    Incremental(IncrementalBackoffStrategy),
    Fibonacci(FibonacciBackoffStrategy),
    Geometric(GeometricBackoffStrategy),
    Harmonic(HarmonicBackoffStrategy),
    Jitter(JitterBackoffStrategy),
}

impl RetryStrategy for RetryStrategyChoice {
    open spec fn wf(&self) -> bool {
        match self {
            RetryStrategyChoice::Fixed(s) => s.wf(),
            RetryStrategyChoice::Exponential(s) => s.wf(),
            RetryStrategyChoice::Linear(s) => s.wf(),
            RetryStrategyChoice::Random(s) => s.wf(),
            RetryStrategyChoice::Incremental(s) => s.wf(),
            RetryStrategyChoice::Fibonacci(s) => s.wf(),
            RetryStrategyChoice::Geometric(s) => s.wf(),
            RetryStrategyChoice::Harmonic(s) => s.wf(),
            RetryStrategyChoice::Jitter(s) => s.wf(),
        }
    }

    open spec fn delay_ok(&self, attempt: usize, delay_millis: u64) -> bool {
        match self {
            RetryStrategyChoice::Fixed(s) => s.delay_ok(attempt, delay_millis),
            RetryStrategyChoice::Exponential(s) => s.delay_ok(attempt, delay_millis),
            RetryStrategyChoice::Linear(s) => s.delay_ok(attempt, delay_millis),
            RetryStrategyChoice::Random(s) => s.delay_ok(attempt, delay_millis),
            RetryStrategyChoice::Incremental(s) => s.delay_ok(attempt, delay_millis),
            RetryStrategyChoice::Fibonacci(s) => s.delay_ok(attempt, delay_millis),
            RetryStrategyChoice::Geometric(s) => s.delay_ok(attempt, delay_millis),
            RetryStrategyChoice::Harmonic(s) => s.delay_ok(attempt, delay_millis),
            RetryStrategyChoice::Jitter(s) => s.delay_ok(attempt, delay_millis),
        }
    }

    fn delay(&self, attempt: usize) -> (delay_millis: u64) {
        match self {
            RetryStrategyChoice::Fixed(s) => s.delay(attempt),
            RetryStrategyChoice::Exponential(s) => s.delay(attempt),
            RetryStrategyChoice::Linear(s) => s.delay(attempt),
            RetryStrategyChoice::Random(s) => s.delay(attempt),
            RetryStrategyChoice::Incremental(s) => s.delay(attempt),
            RetryStrategyChoice::Fibonacci(s) => s.delay(attempt),
            RetryStrategyChoice::Geometric(s) => s.delay(attempt),
            RetryStrategyChoice::Harmonic(s) => s.delay(attempt),
            RetryStrategyChoice::Jitter(s) => s.delay(attempt),
        }
    }

    fn should_retry(&self, attempt: usize, max_attempts: usize) -> (r: bool) {
        attempt < max_attempts
    }
}

/// Builds the configured strategy. Absent optional fields get their
/// defaults: an increment of 100 ms, an increment step of 100 ms, a step
/// increment of 50 ms, a multiplier of two, and a minimum random delay
/// equal to the initial delay. The fixed delay, which carries no cap of
/// its own, is clamped to `max_delay_secs` here.
pub fn create_strategy(config: &RetryStrategyConfig) -> (r: RetryStrategyChoice)
    requires
        config.max_delay_secs * 1000 <= u64::MAX,
    ensures
        r == (match config.strategy_type {
            StrategyType::FixedDelay => RetryStrategyChoice::Fixed(
                (FixedDelayStrategy {
                    delay_duration_millis: (if config.initial_delay_millis
                        >= config.max_delay_secs * 1000 {
                        (config.max_delay_secs * 1000) as u64
                    } else {
                        config.initial_delay_millis
                    }),
                }),
            ),
            StrategyType::ExponentialBackoff => RetryStrategyChoice::Exponential(
                ExponentialBackoffStrategy {
                    initial_delay_millis: config.initial_delay_millis,
                    max_delay_millis: (config.max_delay_secs * 1000) as u64,
                },
            ),
            StrategyType::LinearBackoff => RetryStrategyChoice::Linear(
                LinearBackoffStrategy {
                    initial_delay_millis: config.initial_delay_millis,
                    increment_millis: (match config.increment_millis {
                        Some(v) => v,
                        None => 100,
                    }),
                    max_delay_millis: (config.max_delay_secs * 1000) as u64,
                },
            ),
            StrategyType::RandomDelay => RetryStrategyChoice::Random(
                RandomDelayStrategy {
                    min_delay_millis: (match config.min_delay_millis {
                        Some(v) => v,
                        None => config.initial_delay_millis,
                    }),
                    max_delay_millis: (config.max_delay_secs * 1000) as u64,
                },
            ),
            StrategyType::IncrementalBackoff => RetryStrategyChoice::Incremental(
                IncrementalBackoffStrategy {
                    initial_delay_millis: config.initial_delay_millis,
                    increment_step_millis: (match config.increment_step_millis {
                        Some(v) => v,
                        None => 100,
                    }),
                    step_increment_millis: (match config.step_increment_millis {
                        Some(v) => v,
                        None => 50,
                    }),
                    max_delay_millis: (config.max_delay_secs * 1000) as u64,
                },
            ),
            StrategyType::FibonacciBackoff => RetryStrategyChoice::Fibonacci(
                FibonacciBackoffStrategy {
                    base_delay_millis: config.initial_delay_millis,
                    max_delay_millis: (config.max_delay_secs * 1000) as u64,
                },
            ),
            StrategyType::GeometricBackoff => RetryStrategyChoice::Geometric(
                GeometricBackoffStrategy {
                    initial_delay_millis: config.initial_delay_millis,
                    multiplier_milli: (match config.multiplier_milli {
                        Some(v) => v,
                        None => 2000,
                    }),
                    max_delay_millis: (config.max_delay_secs * 1000) as u64,
                },
            ),
            StrategyType::HarmonicBackoff => RetryStrategyChoice::Harmonic(
                HarmonicBackoffStrategy {
                    initial_delay_millis: config.initial_delay_millis,
                    max_delay_millis: (config.max_delay_secs * 1000) as u64,
                },
            ),
            StrategyType::JitterBackoff => RetryStrategyChoice::Jitter(
                JitterBackoffStrategy {
                    initial_delay_millis: config.initial_delay_millis,
                    multiplier_milli: (match config.multiplier_milli {
                        Some(v) => v,
                        None => 2000,
                    }),
                    max_delay_millis: (config.max_delay_secs * 1000) as u64,
                },
            ),
        }),
{
    let max_delay_millis = config.max_delay_secs * 1000;
    match config.strategy_type {
        StrategyType::FixedDelay => RetryStrategyChoice::Fixed(
            FixedDelayStrategy {
                delay_duration_millis: if config.initial_delay_millis >= max_delay_millis {
                    max_delay_millis
                } else {
                    config.initial_delay_millis
                },
            },
        ),
        StrategyType::ExponentialBackoff => RetryStrategyChoice::Exponential(
            ExponentialBackoffStrategy {
                initial_delay_millis: config.initial_delay_millis,
                max_delay_millis,
            },
        ),
        StrategyType::LinearBackoff => RetryStrategyChoice::Linear(
            LinearBackoffStrategy {
                initial_delay_millis: config.initial_delay_millis,
                increment_millis: match config.increment_millis {
                    Some(v) => v,
                    None => 100,
                },
                max_delay_millis,
            },
        ),
        StrategyType::RandomDelay => RetryStrategyChoice::Random(
            RandomDelayStrategy {
                min_delay_millis: match config.min_delay_millis {
                    Some(v) => v,
                    None => config.initial_delay_millis,
                },
                max_delay_millis,
            },
        ),
        StrategyType::IncrementalBackoff => RetryStrategyChoice::Incremental(
            IncrementalBackoffStrategy {
                initial_delay_millis: config.initial_delay_millis,
                increment_step_millis: match config.increment_step_millis {
                    Some(v) => v,
                    None => 100,
                },
                step_increment_millis: match config.step_increment_millis {
                    Some(v) => v,
                    None => 50,
                },
                max_delay_millis,
            },
        ),
        StrategyType::FibonacciBackoff => RetryStrategyChoice::Fibonacci(
            FibonacciBackoffStrategy {
                base_delay_millis: config.initial_delay_millis,
                max_delay_millis,
            },
        ),
        StrategyType::GeometricBackoff => RetryStrategyChoice::Geometric(
            GeometricBackoffStrategy {
                initial_delay_millis: config.initial_delay_millis,
                multiplier_milli: match config.multiplier_milli {
                    Some(v) => v,
                    None => 2000,
                },
                max_delay_millis,
            },
        ),
        StrategyType::HarmonicBackoff => RetryStrategyChoice::Harmonic(
            HarmonicBackoffStrategy {
                initial_delay_millis: config.initial_delay_millis,
                max_delay_millis,
            },
        ),
        StrategyType::JitterBackoff => RetryStrategyChoice::Jitter(
            JitterBackoffStrategy {
                initial_delay_millis: config.initial_delay_millis,
                multiplier_milli: match config.multiplier_milli {
                    Some(v) => v,
                    None => 2000,
                },
                max_delay_millis,
            },
        ),
    }
}

} // verus!
