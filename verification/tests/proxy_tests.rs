use road47::balance::BalanceStrategy;
use road47::config::RateLimitingConfig;
use road47::health::resolve_health_statuses;
use road47::http::rate_limit_response;
use road47::proxy::ProxyEngine;
use road47::rate_limiter::create_rate_limiter;
use road47::stats::TargetStats;

fn targets(names: &[&str]) -> Vec<String> {
    names.iter().map(|s| s.to_string()).collect()
}

fn engine_with_limiter(limit: u32) -> ProxyEngine {
    let limiter = create_rate_limiter(Some(RateLimitingConfig {
        strategy: "FixedWindow".to_string(),
        limit,
        window_size_seconds: 1,
        refill_amount: None,
        refill_interval_seconds: None,
        capacity: None,
        leak_rate_seconds: None,
        granularity_seconds: None,
    }));
    ProxyEngine::new(
        BalanceStrategy::RoundRobin,
        targets(&["A", "B"]),
        None,
        None,
        10_000,
        4,
        vec!["/cached".to_string()],
        Some(limiter),
        vec![],
    )
}

#[test]
fn admission_rejects_over_the_limit_with_the_fixed_response() {
    let mut e = engine_with_limiter(1);
    assert_eq!(e.check_admission("9.9.9.9", 0), None);
    let rejection = e.check_admission("9.9.9.9", 10);
    assert_eq!(rejection, Some(rate_limit_response()));
    assert_eq!(e.check_admission("9.9.9.9", 1000), None);
}

#[test]
fn admission_without_limiter_admits_everything() {
    let mut e = ProxyEngine::new(
        BalanceStrategy::RoundRobin,
        targets(&["A"]),
        None,
        None,
        0,
        0,
        vec![],
        None,
        vec![],
    );
    for t in 0..20u64 {
        assert_eq!(e.check_admission("ip", t), None);
    }
}

#[test]
fn select_returns_a_target_and_respects_health() {
    let mut e = engine_with_limiter(100);
    assert_eq!(e.select(None, None), Some("A".to_string()));
    e.set_health(vec![false, true]);
    assert_eq!(e.select(None, None), Some("B".to_string()));
    e.set_health(vec![false, false]);
    assert_eq!(e.select(None, None), None);
}

#[test]
fn index_of_target_finds_positions() {
    let e = engine_with_limiter(100);
    assert_eq!(e.index_of_target(&"A".to_string()), Some(0));
    assert_eq!(e.index_of_target(&"B".to_string()), Some(1));
    assert_eq!(e.index_of_target(&"C".to_string()), None);
}

#[test]
fn completed_dispatch_fills_the_cache_for_enabled_paths() {
    let mut e = engine_with_limiter(100);
    assert_eq!(e.cache_lookup("/cached", 0), None);
    e.record_dispatch(0);
    e.record_completion(0, &"/cached".to_string(), b"RESP".to_vec(), true, 1);
    assert_eq!(e.cache_lookup("/cached", 2), Some(b"RESP".to_vec()));
    assert_eq!(e.cache_lookup("/cached", 20_000), None);
}

#[test]
fn failed_or_uncached_dispatches_do_not_fill_the_cache() {
    let mut e = engine_with_limiter(100);
    e.record_dispatch(0);
    e.record_completion(0, &"/cached".to_string(), b"RESP".to_vec(), false, 1);
    assert_eq!(e.cache_lookup("/cached", 2), None);
    e.record_dispatch(1);
    e.record_completion(1, &"/other".to_string(), b"RESP".to_vec(), true, 3);
    assert_eq!(e.cache_lookup("/other", 4), None);
}

#[test]
fn cache_enabled_membership() {
    let e = engine_with_limiter(100);
    assert!(e.cache_enabled(&"/cached".to_string()));
    assert!(!e.cache_enabled(&"/elsewhere".to_string()));
}

#[test]
fn in_flight_counters_return_to_zero_when_dispatches_settle() {
    let mut stats = TargetStats::new(3);
    stats.record_dispatch(0);
    stats.record_dispatch(0);
    stats.record_dispatch(2);
    assert_eq!(stats.in_flight_counts(), &vec![2, 0, 1]);
    stats.record_completion(0);
    stats.record_completion(2);
    stats.record_completion(0);
    assert_eq!(stats.in_flight_counts(), &vec![0, 0, 0]);
    let total: u64 = stats.in_flight_counts().iter().sum();
    assert_eq!(total, 0);
}

#[test]
fn completion_saturates_at_zero() {
    let mut stats = TargetStats::new(1);
    stats.record_completion(0);
    stats.record_completion(0);
    assert_eq!(stats.in_flight_counts(), &vec![0]);
}

#[test]
fn engine_rewrites_incoming_requests() {
    let rules = vec![road47::config::RequestModificationRule {
        path_contains: Some("/old".to_string()),
        rewrite_url: Some("/new".to_string()),
        remove_headers: vec![],
        add_headers: vec![],
    }];
    let e = ProxyEngine::new(
        BalanceStrategy::RoundRobin,
        targets(&["A"]),
        None,
        None,
        0,
        0,
        vec![],
        None,
        rules,
    );
    assert!(e.has_rules());
    let out = e.rewrite_incoming("GET /old HTTP/1.1\r\nHost: h\r\n\r\n").unwrap();
    assert_eq!(out, "GET /new HTTP/1.1\r\nHost: h\r\n\r\n\r\n\r\n");
    assert_eq!(e.rewrite_incoming("BAD"), None);
}

#[test]
fn from_route_builds_the_configured_engine() {
    let route = road47::config::Route {
        listen_addr: "0.0.0.0:8080".to_string(),
        target_addrs: targets(&["A", "B"]),
        target_weights: Some(vec![3, 1]),
        resource_usage_api: None,
        timeout_seconds: 5,
        balance_strategy: "leastconnections".to_string(),
        max_requests_per_target: Some(100),
        resource_endpoints: None,
        cache_enabled_endpoints: Some(vec!["/x".to_string()]),
        cache_ttl_seconds: Some(60),
        cache_capacity: Some(8),
        health_check_endpoints: None,
        request_modification_rules: None,
    };
    let engine = ProxyEngine::from_route(route, None).unwrap();
    assert!(engine.cache_enabled(&"/x".to_string()));
    assert_eq!(engine.index_of_target(&"B".to_string()), Some(1));
}

#[test]
fn from_route_rejects_unusable_weights() {
    let mut route = road47::config::Route {
        listen_addr: "0.0.0.0:8080".to_string(),
        target_addrs: targets(&["A", "B"]),
        target_weights: Some(vec![3, 0]),
        resource_usage_api: None,
        timeout_seconds: 5,
        balance_strategy: "roundrobin".to_string(),
        max_requests_per_target: None,
        resource_endpoints: None,
        cache_enabled_endpoints: None,
        cache_ttl_seconds: None,
        cache_capacity: None,
        health_check_endpoints: None,
        request_modification_rules: None,
    };
    assert!(ProxyEngine::from_route(route.clone(), None).is_none());
    route.target_weights = Some(vec![3]);
    assert!(ProxyEngine::from_route(route.clone(), None).is_none());
    route.target_weights = None;
    assert!(ProxyEngine::from_route(route.clone(), None).is_some());
    route.cache_ttl_seconds = Some(u64::MAX / 1000 + 1);
    assert!(ProxyEngine::from_route(route, None).is_none());
}

#[test]
fn health_resolution_is_fail_open() {
    let r = resolve_health_statuses(&vec![None, Some(false), Some(true)]);
    assert_eq!(r, vec![true, false, true]);
    let all_failed = resolve_health_statuses(&vec![None, None]);
    assert_eq!(all_failed, vec![true, true]);
    assert_eq!(resolve_health_statuses(&vec![]), Vec::<bool>::new());
}
