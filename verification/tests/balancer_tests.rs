use proxylb::balancer::LoadBalancer;
use proxylb::config::{BackendConfig, BackendEntry, LoadBalancingStrategy, RateLimitConfig};

fn entry(id: &str, url: &str, weight: u32, rate_limit: Option<RateLimitConfig>) -> BackendEntry {
    BackendEntry {
        id: id.to_string(),
        config: BackendConfig { url: url.to_string(), weight, rate_limit },
    }
}

fn three_backend_fleet() -> Vec<BackendEntry> {
    // deliberately out of order: the update must sort by id ascending
    vec![
        entry("b2", "http://two/", 1, None),
        entry("b3", "http://three/", 1, None),
        entry("b1", "http://one/", 1, None),
    ]
}

#[test]
fn select_on_empty_fleet_returns_none() {
    let mut lb = LoadBalancer::new();
    assert!(lb.select_backend().is_none());
}

#[test]
fn update_sorts_fleet_by_id_and_resets_counters() {
    let mut lb = LoadBalancer::new();
    lb.update_backends(&three_backend_fleet());
    assert_eq!(lb.backend_count(), 3);
    assert_eq!(lb.backend_id(0), "b1");
    assert_eq!(lb.backend_id(1), "b2");
    assert_eq!(lb.backend_id(2), "b3");
    assert_eq!(lb.backend_url(0), "http://one/");
    assert_eq!(lb.backend_connections(0), 0);
    assert_eq!(lb.backend_connections(1), 0);
    assert_eq!(lb.backend_connections(2), 0);
}

#[test]
fn round_robin_cycles_through_the_sorted_fleet() {
    let mut lb = LoadBalancer::new();
    lb.set_strategy(LoadBalancingStrategy::RoundRobin);
    lb.update_backends(&three_backend_fleet());
    let mut ids = Vec::new();
    for _ in 0..6 {
        let i = lb.select_backend().unwrap();
        ids.push(lb.backend_id(i));
    }
    assert_eq!(ids, vec!["b1", "b2", "b3", "b1", "b2", "b3"]);
}

#[test]
fn round_robin_counts_differ_by_at_most_one() {
    let mut lb = LoadBalancer::new();
    lb.set_strategy(LoadBalancingStrategy::RoundRobin);
    lb.update_backends(&three_backend_fleet());
    let mut counts = [0u32; 3];
    for _ in 0..7 {
        let i = lb.select_backend().unwrap();
        counts[i] += 1;
    }
    // 7 requests over 3 backends: each serves floor(7/3) or ceil(7/3)
    for &c in counts.iter() {
        assert!(c == 2 || c == 3);
    }
    assert_eq!(counts.iter().sum::<u32>(), 7);
}

#[test]
fn weighted_round_robin_matches_weights_over_a_cycle() {
    let mut lb = LoadBalancer::new();
    lb.set_strategy(LoadBalancingStrategy::WeightedRoundRobin);
    lb.update_backends(&vec![
        entry("a", "http://a/", 2, None),
        entry("b", "http://b/", 1, None),
    ]);
    let mut ids = Vec::new();
    for _ in 0..6 {
        let i = lb.select_backend().unwrap();
        ids.push(lb.backend_id(i));
    }
    // weights 2:1 give each backend its share in every cycle of three
    assert_eq!(ids, vec!["a", "a", "b", "a", "a", "b"]);
}

#[test]
fn weighted_round_robin_never_starves_positive_weights() {
    let mut lb = LoadBalancer::new();
    lb.set_strategy(LoadBalancingStrategy::WeightedRoundRobin);
    lb.update_backends(&vec![
        entry("a", "http://a/", 5, None),
        entry("b", "http://b/", 1, None),
    ]);
    let mut saw_b = false;
    for _ in 0..6 {
        let i = lb.select_backend().unwrap();
        if lb.backend_id(i) == "b" {
            saw_b = true;
        }
    }
    assert!(saw_b);
}

#[test]
fn least_connections_breaks_ties_in_fleet_order() {
    let mut lb = LoadBalancer::new();
    lb.set_strategy(LoadBalancingStrategy::LeastConnections);
    lb.update_backends(&vec![
        entry("b1", "http://one/", 1, None),
        entry("b2", "http://two/", 1, None),
    ]);
    let first = lb.select_backend().unwrap();
    assert_eq!(lb.backend_id(first), "b1");
    lb.increment_connections("b1");
    let second = lb.select_backend().unwrap();
    assert_eq!(lb.backend_id(second), "b2");
}

#[test]
fn least_connections_returns_the_minimum() {
    let mut lb = LoadBalancer::new();
    lb.set_strategy(LoadBalancingStrategy::LeastConnections);
    lb.update_backends(&three_backend_fleet());
    lb.increment_connections("b1");
    lb.increment_connections("b1");
    lb.increment_connections("b2");
    let i = lb.select_backend().unwrap();
    assert_eq!(lb.backend_id(i), "b3");
    let min = (0..lb.backend_count())
        .map(|j| lb.backend_connections(j))
        .min()
        .unwrap();
    assert_eq!(lb.backend_connections(i), min);
}

#[test]
fn connection_accounting_nets_to_zero() {
    let mut lb = LoadBalancer::new();
    lb.update_backends(&three_backend_fleet());
    lb.increment_connections("b2");
    assert_eq!(lb.backend_connections(1), 1);
    lb.decrement_connections("b2");
    assert_eq!(lb.backend_connections(1), 0);
}

#[test]
fn decrement_saturates_at_zero_and_unknown_id_is_a_no_op() {
    let mut lb = LoadBalancer::new();
    lb.update_backends(&three_backend_fleet());
    lb.decrement_connections("b1");
    assert_eq!(lb.backend_connections(0), 0);
    lb.increment_connections("nope");
    for j in 0..3 {
        assert_eq!(lb.backend_connections(j), 0);
    }
}

#[test]
fn repeating_a_fleet_update_is_idempotent() {
    let entries = three_backend_fleet();
    let mut lb = LoadBalancer::new();
    lb.set_strategy(LoadBalancingStrategy::RoundRobin);
    lb.update_backends(&entries);
    // advance the cursor, then re-apply the same update
    lb.select_backend();
    lb.select_backend();
    lb.update_backends(&entries);
    let mut ids = Vec::new();
    for _ in 0..3 {
        let i = lb.select_backend().unwrap();
        ids.push(lb.backend_id(i));
    }
    // cursor is back at zero and the fleet reads the same as after the
    // first update
    assert_eq!(ids, vec!["b1", "b2", "b3"]);
    for j in 0..3 {
        assert_eq!(lb.backend_connections(j), 0);
    }
}

#[test]
fn backends_with_rate_limits_carry_a_limiter() {
    let mut lb = LoadBalancer::new();
    lb.update_backends(&vec![
        entry("a", "http://a/", 1, Some(RateLimitConfig { requests_per_second: 1, burst_size: Some(1) })),
        entry("b", "http://b/", 1, None),
    ]);
    assert!(lb.backend_has_limiter(0));
    assert!(!lb.backend_has_limiter(1));
}

#[test]
fn weighted_round_robin_on_a_single_backend_repeats_it() {
    let mut lb = LoadBalancer::new();
    lb.set_strategy(LoadBalancingStrategy::WeightedRoundRobin);
    lb.update_backends(&vec![entry("only", "http://only/", 3, None)]);
    for _ in 0..5 {
        let i = lb.select_backend().unwrap();
        assert_eq!(lb.backend_id(i), "only");
    }
}
