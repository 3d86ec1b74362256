//! Configuration data for the proxy: routes, retry strategy and rate
//! limiting. These are plain values; reading the configuration file and
//! turning it into them is the caller's business.
//!
//! Maps keyed by target address are carried as vectors aligned with
//! `target_addrs` (the weight or endpoint at position `i` belongs to the
//! target at position `i`), and durations are carried as plain integers.

use vstd::prelude::*;

verus! {

/// The retry back-off families.
#[derive(Clone, Copy, PartialEq, Eq, Structural)]
pub enum StrategyType {
    FixedDelay,
    ExponentialBackoff,
    LinearBackoff,
    RandomDelay,
    IncrementalBackoff,
    FibonacciBackoff,
    GeometricBackoff,
    HarmonicBackoff,
    JitterBackoff,
}

/// Rate-limiting configuration. `strategy` selects the algorithm by name;
/// an unknown name selects the pass-through limiter.
#[derive(Clone)]
pub struct RateLimitingConfig {
    pub strategy: String,
    pub limit: u32,
    pub window_size_seconds: u64,
    pub refill_amount: Option<u32>,
    pub refill_interval_seconds: Option<u64>,
    pub capacity: Option<usize>,
    pub leak_rate_seconds: Option<u64>,
    pub granularity_seconds: Option<u64>,
}

/// Retry configuration. The geometric and jitter multiplier is carried in
/// thousandths (`multiplier_milli` of 2500 means a factor of 2.5).
#[derive(Clone)]
pub struct RetryStrategyConfig {
    pub strategy_type: StrategyType,
    pub max_delay_secs: u64,
    pub max_attempts: usize,
    pub initial_delay_millis: u64,
    pub timeout_secs: u64,
    pub increment_millis: Option<u64>,
    pub min_delay_millis: Option<u64>,
    pub multiplier_milli: Option<u64>,
    pub increment_step_millis: Option<u64>,
    pub step_increment_millis: Option<u64>,
}

/// One request-rewrite rule: when the request path contains
/// `path_contains`, the path may be replaced; the named headers are removed
/// and the given headers added.
#[derive(Clone)]
pub struct RequestModificationRule {
    pub path_contains: Option<String>,
    pub rewrite_url: Option<String>,
    pub remove_headers: Vec<String>,
    pub add_headers: Vec<(String, String)>,
}

/// One listener and its policy bundle.
#[derive(Clone)]
pub struct Route {
    pub listen_addr: String,
    pub target_addrs: Vec<String>,
    pub target_weights: Option<Vec<u64>>,
    pub resource_usage_api: Option<Vec<String>>,
    pub timeout_seconds: u64,
    pub balance_strategy: String,
    pub max_requests_per_target: Option<u64>,
    pub resource_endpoints: Option<Vec<String>>,
    pub cache_enabled_endpoints: Option<Vec<String>>,
    pub cache_ttl_seconds: Option<u64>,
    pub cache_capacity: Option<usize>,
    pub health_check_endpoints: Option<Vec<(String, String)>>,
    pub request_modification_rules: Option<Vec<RequestModificationRule>>,
}

/// The whole configuration: the routes, the retry strategy, and the
/// optional rate limiting.
#[derive(Clone)]
pub struct Config {
    pub route: Vec<Route>,
    pub retry_strategy: RetryStrategyConfig,
    pub rate_limiting: Option<RateLimitingConfig>,
}

} // verus!
