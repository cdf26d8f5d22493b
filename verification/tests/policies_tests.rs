use rust_load_balancer::algorithms::{
    Algorithm, IpHash, LeastConnections, LoadBalancingAlgorithm, RoundRobin, WeightedRoundRobin,
};
use std::collections::hash_map::DefaultHasher;
use std::hash::{Hash, Hasher};

fn pool(names: &[&str]) -> Vec<String> {
    names.iter().map(|s| s.to_string()).collect()
}

fn metric_of(metrics: &[(String, String)], name: &str) -> Option<String> {
    metrics.iter().find(|(n, _)| n == name).map(|(_, m)| m.clone())
}

fn count_of(picks: &[String], name: &str) -> usize {
    picks.iter().filter(|p| p.as_str() == name).count()
}

fn std_hash(key: &str) -> u64 {
    let mut hasher = DefaultHasher::new();
    key.hash(&mut hasher);
    hasher.finish()
}

#[test]
fn test_round_robin_empty_server_list() {
    let servers: Vec<String> = vec![];
    let mut round_robin = RoundRobin::new();

    let next_server = round_robin.next_server(&servers);

    // No server should be next
    assert!(next_server.is_none());
}

#[test]
fn empty_pool_yields_none_for_every_policy() {
    let servers: Vec<String> = vec![];
    for tag in ["round-robin", "least-connections", "weighted-round-robin", "ip-hash"] {
        let mut policy = Algorithm::new(tag, None);
        assert!(policy.next_server(&servers).is_none());
        assert!(policy.get_metrics().is_empty());
    }
    let mut ip_hash = IpHash::new();
    assert!(ip_hash.next_server_for("10.0.0.1", &servers).is_none());
    assert!(ip_hash.get_metrics().is_empty());
}

#[test]
fn every_policy_returns_a_member_of_the_pool() {
    let servers = pool(&["a:1", "b:2", "c:3"]);
    for tag in ["round-robin", "least-connections", "weighted-round-robin", "ip-hash"] {
        let mut policy = Algorithm::new(tag, None);
        for _ in 0..50 {
            let chosen = policy.next_server(&servers).unwrap();
            assert!(servers.contains(&chosen));
        }
    }
}

#[test]
fn round_robin_starts_at_the_second_backend() {
    let servers = pool(&["a:1", "b:2", "c:3"]);
    let mut policy = RoundRobin::new();
    assert_eq!(policy.next_server(&servers), Some("b:2".to_string()));
    assert_eq!(policy.next_server(&servers), Some("c:3".to_string()));
    assert_eq!(policy.next_server(&servers), Some("a:1".to_string()));
    assert_eq!(policy.next_server(&servers), Some("b:2".to_string()));
}

#[test]
fn round_robin_with_one_backend_returns_it() {
    let servers = pool(&["only:1"]);
    let mut policy = RoundRobin::new();
    for _ in 0..5 {
        assert_eq!(policy.next_server(&servers), Some("only:1".to_string()));
    }
}

#[test]
fn round_robin_is_fair_over_full_rounds() {
    let servers = pool(&["a:1", "b:2", "c:3", "d:4"]);
    let mut policy = RoundRobin::new();
    let k = 25;
    let mut picks = Vec::new();
    for _ in 0..k * servers.len() {
        picks.push(policy.next_server(&servers).unwrap());
    }
    for name in &servers {
        assert_eq!(count_of(&picks, name), k);
    }
}

#[test]
fn round_robin_counts_a_backend_once_for_each_listing() {
    let servers = pool(&["a:1", "a:1", "b:2"]);
    let mut policy = RoundRobin::new();
    let mut picks = Vec::new();
    for _ in 0..30 {
        picks.push(policy.next_server(&servers).unwrap());
    }
    assert_eq!(count_of(&picks, "a:1"), 20);
    assert_eq!(count_of(&picks, "b:2"), 10);
}

#[test]
fn round_robin_metrics_report_count_and_share() {
    let servers = pool(&["a:1", "b:2", "c:3"]);
    let mut policy = RoundRobin::new();
    for _ in 0..4 {
        policy.next_server(&servers);
    }
    let metrics = policy.get_metrics();
    assert_eq!(
        metrics,
        vec![
            ("b:2".to_string(), "Requests: 2, Distribution: 50.0%".to_string()),
            ("c:3".to_string(), "Requests: 1, Distribution: 25.0%".to_string()),
            ("a:1".to_string(), "Requests: 1, Distribution: 25.0%".to_string()),
        ]
    );
}

#[test]
fn round_robin_ignores_connection_events() {
    let servers = pool(&["a:1", "b:2"]);
    let mut policy = RoundRobin::new();
    policy.next_server(&servers);
    let before = policy.get_metrics();
    policy.connection_started("a:1");
    policy.connection_ended("a:1");
    assert_eq!(policy.get_metrics(), before);
}

#[test]
fn metrics_are_the_same_when_read_twice() {
    let servers = pool(&["a:1", "b:2", "c:3"]);
    for tag in ["round-robin", "least-connections", "weighted-round-robin", "ip-hash"] {
        let mut policy = Algorithm::new(tag, None);
        for _ in 0..7 {
            let chosen = policy.next_server(&servers).unwrap();
            policy.connection_started(&chosen);
        }
        let first = policy.get_metrics();
        let second = policy.get_metrics();
        assert_eq!(first, second);
        assert!(!first.is_empty());
    }
}

#[test]
fn least_connections_prefers_the_first_idle_backend() {
    let servers = pool(&["a:1", "b:2", "c:3"]);
    let mut policy = LeastConnections::new();
    assert_eq!(policy.next_server(&servers), Some("a:1".to_string()));
    policy.connection_started("a:1");
    assert_eq!(policy.next_server(&servers), Some("b:2".to_string()));
    policy.connection_started("b:2");
    assert_eq!(policy.next_server(&servers), Some("c:3".to_string()));
    policy.connection_started("c:3");
    assert_eq!(policy.next_server(&servers), Some("a:1".to_string()));
    policy.connection_ended("b:2");
    assert_eq!(policy.next_server(&servers), Some("b:2".to_string()));
}

#[test]
fn least_connections_avoids_the_busy_backend() {
    for busy in ["a:1", "b:2", "c:3"] {
        let servers = pool(&["a:1", "b:2", "c:3"]);
        let mut policy = LeastConnections::new();
        policy.connection_started(busy);
        let chosen = policy.next_server(&servers).unwrap();
        assert_ne!(chosen, busy);
    }
}

#[test]
fn least_connections_sends_short_connections_to_the_fast_backend() {
    let servers = pool(&["127.0.0.1:8001", "127.0.0.1:8002"]);
    let mut policy = LeastConnections::new();
    // One long-lived connection on the slow backend.
    let slow = policy.next_server(&servers).unwrap();
    assert_eq!(slow, "127.0.0.1:8001");
    policy.connection_started(&slow);
    for _ in 0..10 {
        let chosen = policy.next_server(&servers).unwrap();
        assert_eq!(chosen, "127.0.0.1:8002");
        policy.connection_started(&chosen);
        policy.connection_ended(&chosen);
    }
}

#[test]
fn least_connections_conserves_its_counters() {
    let mut policy = LeastConnections::new();
    policy.connection_started("a:1");
    policy.connection_started("a:1");
    policy.connection_started("a:1");
    policy.connection_ended("a:1");
    policy.connection_started("b:2");
    let metrics = policy.get_metrics();
    assert_eq!(
        metrics,
        vec![
            ("a:1".to_string(), "Active: 2, Total: 3, Success: 1, Rate: 33.3%".to_string()),
            ("b:2".to_string(), "Active: 1, Total: 1, Success: 0, Rate: 0.0%".to_string()),
        ]
    );
    policy.connection_ended("a:1");
    policy.connection_ended("a:1");
    policy.connection_ended("b:2");
    assert_eq!(
        policy.get_metrics(),
        vec![
            ("a:1".to_string(), "Active: 0, Total: 3, Success: 3, Rate: 100.0%".to_string()),
            ("b:2".to_string(), "Active: 0, Total: 1, Success: 1, Rate: 100.0%".to_string()),
        ]
    );
}

#[test]
fn least_connections_does_not_underflow() {
    let mut policy = LeastConnections::new();
    policy.connection_ended("a:1");
    assert!(policy.get_metrics().is_empty());
    policy.connection_started("a:1");
    policy.connection_ended("a:1");
    policy.connection_ended("a:1");
    assert_eq!(
        policy.get_metrics(),
        vec![("a:1".to_string(), "Active: 0, Total: 1, Success: 1, Rate: 100.0%".to_string())]
    );
}

#[test]
fn least_connections_selection_changes_no_counter() {
    let servers = pool(&["a:1", "b:2"]);
    let mut policy = LeastConnections::new();
    policy.connection_started("a:1");
    let before = policy.get_metrics();
    policy.next_server(&servers);
    assert_eq!(policy.get_metrics(), before);
}

#[test]
fn least_connections_metrics_through_the_trait_are_the_same() {
    let mut policy = LeastConnections::new();
    policy.connection_started("a:1");
    let inherent = policy.get_metrics();
    let through_trait = LoadBalancingAlgorithm::get_metrics(&policy);
    assert_eq!(inherent, through_trait);
}

#[test]
fn weighted_round_robin_follows_the_weights() {
    let servers = pool(&["A", "B"]);
    let weights = vec![("A".to_string(), 1u32), ("B".to_string(), 3u32)];
    let mut policy = WeightedRoundRobin::new(Some(weights));
    let mut picks = Vec::new();
    for _ in 0..400 {
        picks.push(policy.next_server(&servers).unwrap());
    }
    assert_eq!(count_of(&picks, "A"), 100);
    assert_eq!(count_of(&picks, "B"), 300);
}

#[test]
fn weighted_round_robin_walks_the_round_in_pool_order() {
    let servers = pool(&["A", "B", "C"]);
    let weights =
        vec![("A".to_string(), 2u32), ("B".to_string(), 1u32), ("C".to_string(), 3u32)];
    let mut policy = WeightedRoundRobin::new(Some(weights));
    // The cursor starts at 0 and is advanced before use: tickets 1, 2, .., 5, 0.
    let expected = ["A", "B", "C", "C", "C", "A", "A", "B"];
    for name in expected {
        assert_eq!(policy.next_server(&servers), Some(name.to_string()));
    }
}

#[test]
fn weighted_round_robin_metrics_report_weight_count_and_share() {
    let servers = pool(&["A", "B"]);
    let weights = vec![("A".to_string(), 1u32), ("B".to_string(), 3u32)];
    let mut policy = WeightedRoundRobin::new(Some(weights));
    for _ in 0..8 {
        policy.next_server(&servers);
    }
    assert_eq!(
        policy.get_metrics(),
        vec![
            ("A".to_string(), "Weight: 1, Requests: 2, Distribution: 25.0%".to_string()),
            ("B".to_string(), "Weight: 3, Requests: 6, Distribution: 75.0%".to_string()),
        ]
    );
}

#[test]
fn weighted_round_robin_takes_the_last_weight_of_a_name() {
    let weights = vec![("A".to_string(), 2u32), ("B".to_string(), 5u32), ("A".to_string(), 7u32)];
    let policy = WeightedRoundRobin::new(Some(weights));
    assert_eq!(
        policy.get_metrics(),
        vec![
            ("A".to_string(), "Weight: 7, Requests: 0, Distribution: 0.0%".to_string()),
            ("B".to_string(), "Weight: 5, Requests: 0, Distribution: 0.0%".to_string()),
        ]
    );
}

#[test]
fn weighted_round_robin_draws_missing_weights_between_one_and_ten() {
    let servers = pool(&["a:1", "b:2", "c:3"]);
    for _ in 0..40 {
        let mut policy = WeightedRoundRobin::new(None);
        let chosen = policy.next_server(&servers).unwrap();
        assert!(servers.contains(&chosen));
        let metrics = policy.get_metrics();
        assert_eq!(metrics.len(), 3);
        for (i, (name, line)) in metrics.iter().enumerate() {
            assert_eq!(name, &servers[i]);
            let weight: u32 = line
                .strip_prefix("Weight: ")
                .unwrap()
                .split(',')
                .next()
                .unwrap()
                .parse()
                .unwrap();
            assert!((1..=10).contains(&weight));
        }
    }
}

#[test]
fn weighted_round_robin_keeps_the_weights_it_drew() {
    let servers = pool(&["a:1", "b:2"]);
    let mut policy = WeightedRoundRobin::new(None);
    policy.next_server(&servers);
    let weights_of = |metrics: Vec<(String, String)>| -> Vec<String> {
        metrics.iter().map(|(_, line)| line.split(',').next().unwrap().to_string()).collect()
    };
    let first = weights_of(policy.get_metrics());
    for _ in 0..20 {
        policy.next_server(&servers);
    }
    assert_eq!(weights_of(policy.get_metrics()), first);
}

#[test]
fn weighted_round_robin_is_fair_with_drawn_weights() {
    let servers = pool(&["a:1", "b:2", "c:3"]);
    let mut policy = WeightedRoundRobin::new(None);
    policy.next_server(&servers);
    let weights: Vec<usize> = policy
        .get_metrics()
        .iter()
        .map(|(_, line)| {
            line.strip_prefix("Weight: ").unwrap().split(',').next().unwrap().parse().unwrap()
        })
        .collect();
    let total: usize = weights.iter().sum();
    let k = 3;
    let mut picks = Vec::new();
    for _ in 0..k * total {
        picks.push(policy.next_server(&servers).unwrap());
    }
    for (i, name) in servers.iter().enumerate() {
        assert_eq!(count_of(&picks, name), k * weights[i]);
    }
}

#[test]
fn ip_hash_sends_a_client_to_the_same_backend() {
    let servers = pool(&["a:1", "b:2", "c:3", "d:4", "e:5"]);
    let mut policy = IpHash::new();
    for client in ["192.168.1.1", "10.0.0.1", "172.16.0.1", "8.8.8.8", ""] {
        let first = policy.next_server_for(client, &servers).unwrap();
        for other in ["1.1.1.1", "2.2.2.2"] {
            policy.next_server_for(other, &servers);
            assert_eq!(policy.next_server_for(client, &servers), Some(first.clone()));
        }
    }
}

#[test]
fn ip_hash_uses_the_default_hasher() {
    let servers = pool(&["a:1", "b:2", "c:3", "d:4", "e:5", "f:6", "g:7"]);
    let mut policy = IpHash::new();
    for client in ["192.168.1.1", "10.0.0.1", "172.16.0.1", "8.8.8.8", "client", ""] {
        let index = (std_hash(client) % servers.len() as u64) as usize;
        assert_eq!(policy.next_server_for(client, &servers), Some(servers[index].clone()));
    }
}

#[test]
fn ip_hash_without_a_client_uses_a_stand_in_address() {
    let servers = pool(&["a:1", "b:2", "c:3", "d:4", "e:5", "f:6", "g:7"]);
    let stand_ins = ["192.168.1.1", "10.0.0.1", "172.16.0.1"];
    let allowed: Vec<String> = stand_ins
        .iter()
        .map(|ip| servers[(std_hash(ip) % servers.len() as u64) as usize].clone())
        .collect();
    let mut policy = IpHash::new();
    for _ in 0..60 {
        let chosen = policy.next_server(&servers).unwrap();
        assert!(allowed.contains(&chosen));
    }
}

#[test]
fn ip_hash_metrics_list_the_clients_of_each_backend() {
    let servers = pool(&["only:1"]);
    let mut policy = IpHash::new();
    policy.next_server_for("10.0.0.1", &servers);
    policy.next_server_for("10.0.0.2", &servers);
    policy.next_server_for("10.0.0.1", &servers);
    assert_eq!(
        policy.get_metrics(),
        vec![(
            "only:1".to_string(),
            "Requests: 3, Distribution: 100.0%, IPs: 10.0.0.1, 10.0.0.2".to_string()
        )]
    );
}

#[test]
fn ip_hash_remembers_the_last_backend_of_a_client() {
    let mut policy = IpHash::new();
    let wide = pool(&["a:1", "b:2", "c:3", "d:4", "e:5", "f:6", "g:7"]);
    let first = policy.next_server_for("10.0.0.1", &wide).unwrap();
    let narrow = pool(&["z:9"]);
    policy.next_server_for("10.0.0.1", &narrow);
    let metrics = policy.get_metrics();
    let old_line = metric_of(&metrics, &first).unwrap();
    assert_eq!(old_line, "Requests: 1, Distribution: 50.0%, IPs: ");
    let new_line = metric_of(&metrics, "z:9").unwrap();
    assert_eq!(new_line, "Requests: 1, Distribution: 50.0%, IPs: 10.0.0.1");
}

#[test]
fn unknown_tag_falls_back_to_round_robin() {
    let servers = pool(&["a:1", "b:2", "c:3"]);
    for tag in ["", "random", "Round-Robin", "round-robin "] {
        let mut policy = Algorithm::new(tag, None);
        assert!(matches!(policy, Algorithm::RoundRobin(_)));
        assert_eq!(policy.next_server(&servers), Some("b:2".to_string()));
    }
}

#[test]
fn tags_name_their_policies() {
    assert!(matches!(Algorithm::new("round-robin", None), Algorithm::RoundRobin(_)));
    assert!(matches!(Algorithm::new("least-connections", None), Algorithm::LeastConnections(_)));
    assert!(matches!(
        Algorithm::new("weighted-round-robin", None),
        Algorithm::WeightedRoundRobin(_)
    ));
    assert!(matches!(Algorithm::new("ip-hash", None), Algorithm::IpHash(_)));
}

#[test]
fn registry_hands_the_weights_to_weighted_round_robin() {
    let servers = pool(&["A", "B"]);
    let weights = vec![("A".to_string(), 1u32), ("B".to_string(), 3u32)];
    let mut policy = Algorithm::new("weighted-round-robin", Some(weights));
    let mut picks = Vec::new();
    for _ in 0..40 {
        picks.push(policy.next_server(&servers).unwrap());
    }
    assert_eq!(count_of(&picks, "A"), 10);
    assert_eq!(count_of(&picks, "B"), 30);
}

#[test]
fn algorithm_records_connections_for_least_connections_only() {
    let servers = pool(&["a:1", "b:2"]);
    let mut policy = Algorithm::new("least-connections", None);
    let chosen = policy.next_server(&servers).unwrap();
    policy.connection_started(&chosen);
    assert_eq!(
        policy.get_metrics(),
        vec![("a:1".to_string(), "Active: 1, Total: 1, Success: 0, Rate: 0.0%".to_string())]
    );
    policy.connection_ended(&chosen);
    assert_eq!(
        policy.get_metrics(),
        vec![("a:1".to_string(), "Active: 0, Total: 1, Success: 1, Rate: 100.0%".to_string())]
    );

    let mut policy = Algorithm::new("round-robin", None);
    let chosen = policy.next_server(&servers).unwrap();
    let before = policy.get_metrics();
    policy.connection_started(&chosen);
    policy.connection_ended(&chosen);
    assert_eq!(policy.get_metrics(), before);
}

#[test]
fn fresh_policies_have_headroom() {
    for tag in ["round-robin", "least-connections", "weighted-round-robin", "ip-hash"] {
        let policy = Algorithm::new(tag, None);
        assert!(policy.has_headroom());
    }
}

#[test]
fn weighted_round_robin_draws_different_weights() {
    let servers = pool(&["a:1", "b:2", "c:3", "d:4", "e:5"]);
    let mut seen = Vec::new();
    for _ in 0..40 {
        let mut policy = WeightedRoundRobin::new(None);
        policy.next_server(&servers);
        for (_, line) in policy.get_metrics() {
            let weight = line.split(',').next().unwrap().to_string();
            if !seen.contains(&weight) {
                seen.push(weight);
            }
        }
    }
    assert!(seen.len() >= 2);
    assert!(seen.len() <= 10);
}

#[test]
fn ip_hash_uses_every_stand_in_address() {
    let servers = pool(&["only:1"]);
    let mut policy = IpHash::new();
    for _ in 0..300 {
        assert_eq!(policy.next_server(&servers), Some("only:1".to_string()));
    }
    let metrics = policy.get_metrics();
    assert_eq!(metrics.len(), 1);
    let line = &metrics[0].1;
    let listed = line.split("IPs: ").nth(1).unwrap();
    let mut clients: Vec<&str> = listed.split(", ").collect();
    clients.sort();
    assert_eq!(clients, vec!["10.0.0.1", "172.16.0.1", "192.168.1.1"]);
    assert!(line.starts_with("Requests: 300, Distribution: 100.0%, IPs: "));
}
