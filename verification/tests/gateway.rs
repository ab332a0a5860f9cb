use primusdb::cluster::domain::{DataDomainManager, DomainReplicationMode};
use primusdb::cluster::gateway::{
    select_best_node, ClusterGateway, GatewayConfig, NodeHealth, NodeSelectorStrategy, RequestOutcome,
    INITIAL_LATENCY_KEY,
};

fn gateway(strategy: NodeSelectorStrategy) -> ClusterGateway {
    let mut config = GatewayConfig::default();
    config.strategy = strategy;
    ClusterGateway::new("local".to_string(), config)
}

fn healthy(g: &mut ClusterGateway, id: &str, shards: &[&str]) {
    g.register_node(id, &format!("{}.host", id), 9000, shards.iter().map(|s| s.to_string()).collect(), 1);
    g.register_node(id, &format!("{}.host", id), 9000, shards.iter().map(|s| s.to_string()).collect(), 2);
}

#[test]
fn registration_and_removal() {
    let mut g = gateway(NodeSelectorStrategy::LeastLoaded);
    g.register_node("a", "h1", 1, vec![], 10);
    assert_eq!(g.nodes.len(), 1);
    assert_eq!(g.nodes[0].health, NodeHealth::Unknown);
    assert_eq!(g.nodes[0].latency_key, INITIAL_LATENCY_KEY);
    assert_eq!(f64::from_bits(INITIAL_LATENCY_KEY), 50.0);
    g.register_node("a", "h2", 2, vec!["s".to_string()], 20);
    assert_eq!(g.nodes.len(), 1);
    assert_eq!(g.nodes[0].host, "h2");
    assert_eq!(g.nodes[0].health, NodeHealth::Healthy);
    assert_eq!(g.nodes[0].last_seen, 20);
    g.register_node("b", "h3", 3, vec![], 30);
    g.remove_node("a");
    assert_eq!(g.get_nodes().len(), 1);
    assert_eq!(g.nodes[0].node_id, "b");
}

#[test]
fn failures_open_the_circuit() {
    let mut g = gateway(NodeSelectorStrategy::LeastLoaded);
    healthy(&mut g, "a", &[]);
    for i in 0..4 {
        g.record_failure("a", 100);
        assert_eq!(g.nodes[0].health, NodeHealth::Degraded);
        assert_eq!(g.nodes[0].consecutive_failures, i + 1);
    }
    g.record_failure("a", 100);
    assert!(g.nodes[0].circuit_open);
    assert_eq!(g.nodes[0].circuit_open_until, 100 + 30000);
    assert_eq!(g.nodes[0].health, NodeHealth::Unhealthy);
    assert_eq!(g.counters.circuit_breaks_triggered, 1);
    assert_eq!(g.counters.failed_requests, 5);
    assert!(g.get_healthy_nodes().is_empty());
    assert_eq!(g.get_route(None, None, None, 200, 0).unwrap_err(), "No healthy nodes available");
    g.record_success("a", 7, 300);
    assert_eq!(g.nodes[0].consecutive_failures, 0);
    assert_eq!(g.nodes[0].latency_key, 7);
    assert_eq!(g.nodes[0].health, NodeHealth::Healthy);
    g.refresh_node_counts();
    assert_eq!(g.counters.active_nodes, 1);
    assert_eq!(g.counters.healthy_nodes, 1);
}

#[test]
fn strategies_pick_as_described() {
    let mut g = gateway(NodeSelectorStrategy::RoundRobin);
    healthy(&mut g, "a", &[]);
    healthy(&mut g, "b", &[]);
    healthy(&mut g, "c", &[]);
    let picks: Vec<String> = (0..4).map(|_| g.get_route(None, None, None, 0, 0).unwrap().node_id).collect();
    assert_eq!(picks, vec!["a", "b", "c", "a"]);
    assert_eq!(g.counters.total_requests, 4);
    assert_eq!(g.counters.routed_requests, 4);

    let mut g = gateway(NodeSelectorStrategy::LeastLoaded);
    healthy(&mut g, "a", &[]);
    healthy(&mut g, "b", &[]);
    healthy(&mut g, "c", &[]);
    g.nodes[0].active_connections = 5;
    g.nodes[1].active_connections = 2;
    g.nodes[2].active_connections = 2;
    assert_eq!(g.get_route(None, None, None, 0, 0).unwrap().node_id, "b");

    let mut g = gateway(NodeSelectorStrategy::LowestLatency);
    healthy(&mut g, "a", &[]);
    healthy(&mut g, "b", &[]);
    g.record_success("a", 20.0f64.to_bits(), 3);
    g.record_success("b", 10.0f64.to_bits(), 3);
    let r = g.get_route(None, None, None, 0, 0).unwrap();
    assert_eq!(r.node_id, "b");
    assert_eq!(f64::from_bits(r.latency_key), 10.0);

    let mut g = gateway(NodeSelectorStrategy::Random);
    healthy(&mut g, "a", &[]);
    healthy(&mut g, "b", &[]);
    assert_eq!(g.get_route(None, None, None, 0, 7).unwrap().node_id, "b");
    assert_eq!(g.get_route(None, None, None, 0, 8).unwrap().node_id, "a");
}

#[test]
fn preferred_and_shard_nodes_come_first() {
    let mut g = gateway(NodeSelectorStrategy::RoundRobin);
    healthy(&mut g, "a", &["users"]);
    healthy(&mut g, "b", &["orders"]);
    let pref = vec!["zzz".to_string(), "b".to_string()];
    let r = g.get_route(None, Some(&pref), None, 0, 0).unwrap();
    assert_eq!(r.node_id, "b");
    assert_eq!(r.strategy_used, NodeSelectorStrategy::ShardAware);
    assert_eq!(g.round_robin_index, 0);
    let r = g.get_route(Some("orders:42"), None, None, 0, 0).unwrap();
    assert_eq!(r.node_id, "b");
    assert_eq!(r.strategy_used, NodeSelectorStrategy::RoundRobin);
    let r = g.get_route(Some("nothing"), None, None, 0, 0).unwrap();
    assert_eq!(r.node_id, "b");
}

#[test]
fn domain_routing() {
    let mut dm = DataDomainManager::new("local".to_string());
    dm.create_domain(
        "sales",
        "",
        DomainReplicationMode::Sync,
        vec![],
        vec!["orders".to_string()],
        vec![],
        vec!["local".to_string(), "remote".to_string()],
        0,
    );
    let mut g = gateway(NodeSelectorStrategy::DomainAware);
    healthy(&mut g, "remote", &[]);
    let r = g.get_domain_route("sales", "document", "orders", Some(&dm), 0, 0).unwrap();
    assert_eq!(r.node_id, "remote");
    assert_eq!(r.strategy_used, NodeSelectorStrategy::DomainAware);
    g.register_node("local", "me", 1, vec![], 0);
    let r = g.get_domain_route("sales", "document", "orders", Some(&dm), 0, 0).unwrap();
    assert_eq!(r.node_id, "local");
    let r = g.get_route(Some("orders/1"), None, Some(&dm), 0, 0).unwrap();
    assert_eq!(r.node_id, "local");
    let r = g.get_domain_route("unknown", "document", "x", Some(&dm), 0, 0).unwrap();
    assert_eq!(r.node_id, "remote");
}

#[test]
fn request_outcomes_are_recorded() {
    let mut g = gateway(NodeSelectorStrategy::LeastLoaded);
    healthy(&mut g, "a", &[]);
    assert!(g.complete_request("a", RequestOutcome::Success { latency_key: 3 }, 5).is_ok());
    assert_eq!(g.nodes[0].latency_key, 3);
    assert_eq!(
        g.complete_request("a", RequestOutcome::Status(503), 6).unwrap_err(),
        "Request to a failed with status 503"
    );
    assert_eq!(
        g.complete_request("a", RequestOutcome::Failed("timeout".to_string()), 7).unwrap_err(),
        "Request to a failed: timeout"
    );
    assert_eq!(g.nodes[0].consecutive_failures, 2);
    assert_eq!(g.counters.failed_requests, 2);
}

#[test]
fn selection_without_candidates() {
    let mut rr = 3usize;
    let r = select_best_node(&Vec::new(), NodeSelectorStrategy::RoundRobin, &mut rr, 0);
    assert_eq!(r.node_id, "none");
    assert_eq!(r.host, "0.0.0.0");
    assert_eq!(r.node_health, NodeHealth::Unknown);
    assert_eq!(rr, 3);
    assert_eq!(NodeSelectorStrategy::default(), NodeSelectorStrategy::LeastLoaded);
}
