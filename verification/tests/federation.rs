use primusdb::cluster::federation::{
    namespace_cache_key, ClusterStatus, FedClusterInfo, FederationConfig, FederationManager,
};
use primusdb::cluster::rpc::{FedDomainJoin, FedDomainJoinAck, FedNamespaceResolveAck};

fn info(id: &str, domains: &[&str]) -> FedClusterInfo {
    FedClusterInfo {
        cluster_id: id.to_string(),
        leader_node_id: None,
        address: format!("{id}.example"),
        port: 9000,
        cluster_size: 3,
        alive_count: 3,
        domains: domains.iter().map(|d| d.to_string()).collect(),
        incarnation: 7,
        status: "Online".to_string(),
        region: None,
    }
}

fn manager() -> FederationManager {
    let mut c = FederationConfig::default();
    c.cluster_id = "local".to_string();
    FederationManager::new(c)
}

fn status_of(m: &FederationManager, id: &str) -> Option<ClusterStatus> {
    m.members.get(&id.to_string()).map(|x| x.status)
}

#[test]
fn federation_default_config() {
    let c = FederationConfig::default();
    assert_eq!(c.federation_id, "default");
    assert_eq!(c.announce_interval_ms, 10_000);
    assert_eq!(c.suspect_timeout_ms, 30_000);
    assert_eq!(c.max_clusters, 64);
    assert!(c.enable_federated_namespaces);
}

#[test]
fn announcements_raise_the_incarnation() {
    let mut m = manager();
    m.local_domains.push("users".to_string());
    let a = m.next_announcement("10.0.0.1", 7000, "n1", 5);
    assert_eq!(a.incarnation, 2);
    assert_eq!(a.domains, vec!["users".to_string()]);
    assert_eq!(a.capabilities.len(), 5);
    assert_eq!(a.capabilities[0], "raft");
    assert_eq!(m.next_announcement("10.0.0.1", 7000, "n1", 5).incarnation, 3);
}

#[test]
fn registering_answers_with_other_clusters() {
    let mut m = manager();
    let ack = m.register_remote_cluster(info("a", &[]), 10);
    assert!(ack.accepted);
    assert!(ack.known_clusters.is_empty());
    let ack = m.register_remote_cluster(info("b", &[]), 11);
    assert_eq!(ack.known_clusters.len(), 1);
    assert_eq!(ack.known_clusters[0].cluster_id, "a");
    assert_eq!(m.get_cluster_count(), 2);
    assert_eq!(m.online_targets().len(), 2);
}

#[test]
fn announce_answers_spread_knowledge() {
    let mut m = manager();
    m.register_remote_cluster(info("a", &[]), 10);
    m.on_announce_ack("a", &vec![info("local", &[]), info("c", &[]), info("a", &[])], 50);
    assert_eq!(status_of(&m, "c"), Some(ClusterStatus::Online));
    assert!(status_of(&m, "local").is_none());
    assert_eq!(m.members.get(&"a".to_string()).unwrap().last_seen, 50);
}

#[test]
fn silence_leads_to_suspicion() {
    let mut m = manager();
    m.register_remote_cluster(info("a", &[]), 10);
    for _ in 0..3 {
        m.on_announce_failure("a");
    }
    assert_eq!(status_of(&m, "a"), Some(ClusterStatus::Online));
    m.on_announce_failure("a");
    assert_eq!(status_of(&m, "a"), Some(ClusterStatus::Suspect));
    m.on_heartbeat_reply("a", true, 99);
    assert_eq!(status_of(&m, "a"), Some(ClusterStatus::Online));
    for _ in 0..5 {
        m.on_heartbeat_reply("a", false, 100);
    }
    assert_eq!(status_of(&m, "a"), Some(ClusterStatus::Online));
    m.on_heartbeat_reply("a", false, 100);
    assert_eq!(status_of(&m, "a"), Some(ClusterStatus::Suspect));
}

#[test]
fn suspect_check_uses_the_timeout() {
    let mut m = manager();
    m.register_remote_cluster(info("fresh", &[]), 90_000);
    m.register_remote_cluster(info("stale", &[]), 50_000);
    m.register_remote_cluster(info("gone", &[]), 0);
    m.check_suspects(100_000);
    assert_eq!(status_of(&m, "fresh"), Some(ClusterStatus::Online));
    assert_eq!(status_of(&m, "stale"), Some(ClusterStatus::Suspect));
    assert_eq!(status_of(&m, "gone"), Some(ClusterStatus::Offline));
}

#[test]
fn heartbeat_refreshes_a_member() {
    let mut m = manager();
    m.register_remote_cluster(info("a", &[]), 1);
    m.on_announce_failure("a");
    m.handle_heartbeat("a", 9, 42, 500);
    let a = m.members.get(&"a".to_string()).unwrap();
    assert_eq!(a.info.alive_count, 9);
    assert_eq!(a.info.incarnation, 42);
    assert_eq!(a.consecutive_failures, 0);
    assert_eq!(a.last_seen, 500);
}

#[test]
fn domain_join_is_settled_from_answers() {
    let mut m = manager();
    let req = m.domain_join_request("users", vec![], vec!["Document".to_string()], "sync");
    assert_eq!(req.node_id, "local:gateway");
    let answers = vec![
        None,
        Some(FedDomainJoinAck { accepted: false, domain_name: "users".to_string(), members: vec!["x".to_string()], leader_hint: None, error: None }),
        Some(FedDomainJoinAck { accepted: true, domain_name: "users".to_string(), members: vec!["b".to_string()], leader_hint: Some("b".to_string()), error: None }),
    ];
    let ack = m.finish_domain_join("users", &answers);
    assert!(ack.accepted);
    assert_eq!(ack.members, vec!["local".to_string(), "b".to_string()]);
    assert_eq!(ack.leader_hint, Some("b".to_string()));
    assert_eq!(m.local_domains, vec!["users".to_string()]);
    let alone = m.finish_domain_join("users", &vec![None]);
    assert!(!alone.accepted);
    assert_eq!(m.local_domains.len(), 1);
    let leave = m.leave_domain("users");
    assert_eq!(leave.domain_name, "users");
    assert!(m.local_domains.is_empty());
}

#[test]
fn domain_join_requests_are_answered_with_hosts() {
    let mut m = manager();
    m.register_remote_cluster(info("a", &["users"]), 1);
    m.register_remote_cluster(info("b", &["orders"]), 1);
    let req = FedDomainJoin {
        cluster_id: "c".to_string(),
        domain_name: "users".to_string(),
        node_id: "c:gateway".to_string(),
        collections: vec![],
        storage_types: vec![],
        replication_mode: "sync".to_string(),
    };
    let ack = m.handle_domain_join(&req);
    assert!(ack.accepted);
    assert_eq!(ack.members, vec!["a".to_string()]);
    assert_eq!(m.local_domains, vec!["users".to_string()]);
    m.handle_domain_leave("users");
    assert!(m.local_domains.is_empty());
}

#[test]
fn namespace_answers_are_cached() {
    let mut m = manager();
    assert_eq!(namespace_cache_key("ns", "t", "Document"), "ns:t:Document");
    assert!(m.cached_namespace("ns", "t", "Document").is_none());
    let req = m.namespace_request("ns", "t", "Document", 77);
    assert_eq!(req.request_id, "ns_77");
    let miss = FedNamespaceResolveAck { request_id: "ns_77".to_string(), found: false, cluster_id: "a".to_string(), physical_name: None, error: None };
    assert!(m.accept_namespace_answer("ns", "t", "Document", &miss).is_none());
    let hit = FedNamespaceResolveAck { request_id: "ns_77".to_string(), found: true, cluster_id: "a".to_string(), physical_name: Some("t_a".to_string()), error: None };
    assert_eq!(m.accept_namespace_answer("ns", "t", "Document", &hit), Some("t_a".to_string()));
    assert_eq!(m.cached_namespace("ns", "t", "Document"), Some("t_a".to_string()));
}

#[test]
fn remote_targets_skip_the_local_cluster() {
    let mut m = manager();
    m.register_remote_cluster(info("a", &[]), 1);
    m.register_remote_cluster(info("local", &[]), 1);
    let t = m.remote_targets();
    assert_eq!(t.len(), 1);
    assert_eq!(t[0].0, "a");
    assert_eq!(t[0].1, "a.example");
    assert_eq!(m.get_online_clusters().len(), 2);
}
