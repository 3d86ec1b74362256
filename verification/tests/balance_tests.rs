use road47::balance::{calculate_dynamic_limit, BalanceStrategy};

fn targets(names: &[&str]) -> Vec<String> {
    names.iter().map(|s| s.to_string()).collect()
}

fn select(
    strategy: BalanceStrategy,
    addrs: &Vec<String>,
    counts: &Vec<u64>,
    requests: &Vec<u64>,
    max_requests: Option<u64>,
    scores: Option<&Vec<Option<u64>>>,
    weights: Option<&Vec<u64>>,
    health: Option<&Vec<bool>>,
    ip: Option<&String>,
) -> Option<String> {
    strategy.select_target(addrs, counts, requests, max_requests, scores, weights, health, ip)
}

#[test]
fn from_str_maps_every_name() {
    assert!(matches!(BalanceStrategy::from_str("roundrobin"), BalanceStrategy::RoundRobin));
    assert!(matches!(BalanceStrategy::from_str("random"), BalanceStrategy::Random));
    assert!(matches!(
        BalanceStrategy::from_str("leastconnections"),
        BalanceStrategy::LeastConnections
    ));
    assert!(matches!(BalanceStrategy::from_str("ratelimiting"), BalanceStrategy::RateLimiting));
    assert!(matches!(BalanceStrategy::from_str("resourcebased"), BalanceStrategy::ResourceBased));
    assert!(matches!(
        BalanceStrategy::from_str("weightedroundrobin"),
        BalanceStrategy::WeightedRoundRobin
    ));
    assert!(matches!(
        BalanceStrategy::from_str("dynamicratelimiting"),
        BalanceStrategy::DynamicRateLimiting
    ));
    assert!(matches!(BalanceStrategy::from_str("iphash"), BalanceStrategy::IPHash));
    assert!(matches!(BalanceStrategy::from_str("anything-else"), BalanceStrategy::RoundRobin));
}

#[test]
fn dynamic_limit_thresholds() {
    assert_eq!(calculate_dynamic_limit(0), 100);
    assert_eq!(calculate_dynamic_limit(100), 100);
    assert_eq!(calculate_dynamic_limit(101), 50);
}

#[test]
fn empty_target_list_selects_nothing() {
    let addrs = targets(&[]);
    let empty: Vec<u64> = vec![];
    let ip = "1.2.3.4".to_string();
    for strategy in [
        BalanceStrategy::RoundRobin,
        BalanceStrategy::Random,
        BalanceStrategy::LeastConnections,
        BalanceStrategy::RateLimiting,
        BalanceStrategy::ResourceBased,
        BalanceStrategy::WeightedRoundRobin,
        BalanceStrategy::DynamicRateLimiting,
        BalanceStrategy::IPHash,
    ] {
        let r = select(strategy, &addrs, &empty, &empty, None, None, None, None, Some(&ip));
        assert_eq!(r, None);
    }
}

#[test]
fn round_robin_with_external_rotation() {
    let counts = vec![0, 0, 0];
    let requests = vec![0, 0, 0];
    let s = BalanceStrategy::RoundRobin;
    let mut addrs = targets(&["A", "B", "C"]);
    let mut picked = Vec::new();
    for _ in 0..3 {
        let t = select(s, &addrs, &counts, &requests, None, None, None, None, None).unwrap();
        picked.push(t.clone());
        let front = addrs.remove(0);
        addrs.push(front);
    }
    assert_eq!(picked, targets(&["A", "B", "C"]));
}

#[test]
fn round_robin_skips_unhealthy_targets() {
    let addrs = targets(&["A", "B", "C"]);
    let counts = vec![0, 0, 0];
    let requests = vec![0, 0, 0];
    let health = vec![false, true, true];
    let r = select(
        BalanceStrategy::RoundRobin,
        &addrs,
        &counts,
        &requests,
        None,
        None,
        None,
        Some(&health),
        None,
    );
    assert_eq!(r, Some("B".to_string()));
}

#[test]
fn all_unhealthy_selects_nothing() {
    let addrs = targets(&["A", "B"]);
    let counts = vec![0, 0];
    let requests = vec![0, 0];
    let health = vec![false, false];
    let r = select(
        BalanceStrategy::RoundRobin,
        &addrs,
        &counts,
        &requests,
        None,
        None,
        None,
        Some(&health),
        None,
    );
    assert_eq!(r, None);
}

#[test]
fn random_picks_a_member() {
    let addrs = targets(&["A", "B", "C"]);
    let counts = vec![0, 0, 0];
    let requests = vec![0, 0, 0];
    for _ in 0..50 {
        let r = select(BalanceStrategy::Random, &addrs, &counts, &requests, None, None, None, None, None)
            .unwrap();
        assert!(addrs.contains(&r));
    }
}

#[test]
fn least_connections_picks_smallest_with_first_tie() {
    let addrs = targets(&["A", "B", "C"]);
    let requests = vec![0, 0, 0];
    let counts = vec![5, 2, 7];
    let r = select(
        BalanceStrategy::LeastConnections,
        &addrs,
        &counts,
        &requests,
        None,
        None,
        None,
        None,
        None,
    );
    assert_eq!(r, Some("B".to_string()));
    let tied = vec![3, 3, 4];
    let r = select(
        BalanceStrategy::LeastConnections,
        &addrs,
        &tied,
        &requests,
        None,
        None,
        None,
        None,
        None,
    );
    assert_eq!(r, Some("A".to_string()));
}

#[test]
fn rate_limiting_skips_saturated_targets() {
    let addrs = targets(&["A", "B"]);
    let counts = vec![0, 0];
    let requests = vec![10, 3];
    let r = select(
        BalanceStrategy::RateLimiting,
        &addrs,
        &counts,
        &requests,
        Some(10),
        None,
        None,
        None,
        None,
    );
    assert_eq!(r, Some("B".to_string()));
    let r = select(
        BalanceStrategy::RateLimiting,
        &addrs,
        &counts,
        &requests,
        None,
        None,
        None,
        None,
        None,
    );
    assert_eq!(r, Some("A".to_string()));
    let all_full = vec![10, 10];
    let r = select(
        BalanceStrategy::RateLimiting,
        &addrs,
        &counts,
        &all_full,
        Some(10),
        None,
        None,
        None,
        None,
    );
    assert_eq!(r, None);
}

#[test]
fn dynamic_rate_limiting_uses_load_dependent_caps() {
    let addrs = targets(&["A", "B"]);
    let requests = vec![0, 0];
    let counts = vec![150, 20];
    let r = select(
        BalanceStrategy::DynamicRateLimiting,
        &addrs,
        &counts,
        &requests,
        None,
        None,
        None,
        None,
        None,
    );
    assert_eq!(r, Some("B".to_string()));
}

#[test]
fn resource_based_picks_lowest_score() {
    let addrs = targets(&["A", "B", "C"]);
    let counts = vec![0, 0, 0];
    let requests = vec![0, 0, 0];
    let scores = vec![None, Some(30), Some(10)];
    let r = select(
        BalanceStrategy::ResourceBased,
        &addrs,
        &counts,
        &requests,
        None,
        Some(&scores),
        None,
        None,
        None,
    );
    assert_eq!(r, Some("C".to_string()));
    let none_scores: Vec<Option<u64>> = vec![None, None, None];
    let r = select(
        BalanceStrategy::ResourceBased,
        &addrs,
        &counts,
        &requests,
        None,
        Some(&none_scores),
        None,
        None,
        None,
    );
    assert_eq!(r, None);
    let r = select(
        BalanceStrategy::ResourceBased,
        &addrs,
        &counts,
        &requests,
        None,
        None,
        None,
        None,
        None,
    );
    assert_eq!(r, None);
}

#[test]
fn weighted_round_robin_single_target_always_selected() {
    let addrs = targets(&["only"]);
    let counts = vec![0];
    let requests = vec![0];
    let weights = vec![7];
    for _ in 0..100 {
        let r = select(
            BalanceStrategy::WeightedRoundRobin,
            &addrs,
            &counts,
            &requests,
            None,
            None,
            Some(&weights),
            None,
            None,
        );
        assert_eq!(r, Some("only".to_string()));
    }
}

#[test]
fn weighted_round_robin_picks_members() {
    let addrs = targets(&["A", "B"]);
    let counts = vec![0, 0];
    let requests = vec![0, 0];
    let weights = vec![3, 1];
    for _ in 0..50 {
        if let Some(r) = select(
            BalanceStrategy::WeightedRoundRobin,
            &addrs,
            &counts,
            &requests,
            None,
            None,
            Some(&weights),
            None,
            None,
        ) {
            assert!(addrs.contains(&r));
        }
    }
}

#[test]
fn weighted_walk_is_the_deterministic_walk() {
    let addrs = targets(&["A", "B"]);
    let filtered = vec![0usize, 1usize];
    let weights = vec![3u64, 1u64];
    for point in 0..3u64 {
        let r = BalanceStrategy::weighted_walk(&addrs, &filtered, Some(&weights), point);
        assert_eq!(r, Some("A".to_string()));
    }
    let r = BalanceStrategy::weighted_walk(&addrs, &filtered, Some(&weights), 3);
    assert_eq!(r, Some("B".to_string()));
    let r = BalanceStrategy::weighted_walk(&addrs, &filtered, Some(&weights), 4);
    assert_eq!(r, None);
    let r = BalanceStrategy::weighted_walk(&addrs, &filtered, None, 1);
    assert_eq!(r, Some("B".to_string()));
}

#[test]
fn weighted_round_robin_always_selects_when_all_healthy() {
    let addrs = targets(&["A", "B", "C"]);
    let counts = vec![0, 0, 0];
    let requests = vec![0, 0, 0];
    let weights = vec![2, 5, 1];
    let health = vec![true, true, true];
    for _ in 0..100 {
        let r = select(
            BalanceStrategy::WeightedRoundRobin,
            &addrs,
            &counts,
            &requests,
            None,
            None,
            Some(&weights),
            Some(&health),
            None,
        )
        .unwrap();
        assert!(addrs.contains(&r));
    }
}

#[test]
fn ip_hash_is_stable_across_invocations() {
    let addrs = targets(&["A", "B", "C"]);
    let counts = vec![0, 0, 0];
    let requests = vec![0, 0, 0];
    let ip = "1.2.3.4".to_string();
    let first = select(
        BalanceStrategy::IPHash,
        &addrs,
        &counts,
        &requests,
        None,
        None,
        None,
        None,
        Some(&ip),
    )
    .unwrap();
    assert!(addrs.contains(&first));
    for _ in 0..100 {
        let again = select(
            BalanceStrategy::IPHash,
            &addrs,
            &counts,
            &requests,
            None,
            None,
            None,
            None,
            Some(&ip),
        )
        .unwrap();
        assert_eq!(again, first);
    }
}

#[test]
fn ip_hash_agrees_with_the_digest() {
    let addrs = targets(&["A", "B", "C"]);
    let counts = vec![0, 0, 0];
    let requests = vec![0, 0, 0];
    let ip = "1.2.3.4".to_string();
    let digest = twox_hash::XxHash64::oneshot(0, ip.as_bytes());
    let expected = addrs[(digest % 3) as usize].clone();
    let r = select(
        BalanceStrategy::IPHash,
        &addrs,
        &counts,
        &requests,
        None,
        None,
        None,
        None,
        Some(&ip),
    );
    assert_eq!(r, Some(expected));
}

#[test]
fn ip_hash_without_client_ip_selects_nothing() {
    let addrs = targets(&["A", "B"]);
    let counts = vec![0, 0];
    let requests = vec![0, 0];
    let r = select(BalanceStrategy::IPHash, &addrs, &counts, &requests, None, None, None, None, None);
    assert_eq!(r, None);
}
