//! A verified core for a TCP reverse proxy and load balancer: target
//! selection, per-client rate limiting, retry back-off schedules, a TTL+LRU
//! response cache, per-target connection statistics, and the decision logic
//! of the per-connection proxy engine.

pub mod balance;
pub mod cache;
pub mod config;
pub mod health;
pub mod http;
pub mod key_table;
pub mod proxy;
pub mod random;
pub mod rate_limiter;
pub mod retry;
pub mod retry_strategy;
pub mod stats;
