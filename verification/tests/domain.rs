use primusdb::cluster::domain::{replication_verdict, DataDomainManager, DomainReplicationMode};
use primusdb::cluster::rpc::FedDataReplicaRequest;

fn strings(v: &[&str]) -> Vec<String> {
    v.iter().map(|s| s.to_string()).collect()
}

fn manager_with_domain() -> DataDomainManager {
    let mut m = DataDomainManager::new("local".to_string());
    m.create_domain(
        "users",
        "user data",
        DomainReplicationMode::Quorum,
        strings(&["Document"]),
        strings(&["profiles"]),
        strings(&[]),
        strings(&["local", "east", "west"]),
        42,
    );
    m
}

#[test]
fn mode_names_ignore_case() {
    assert_eq!(DomainReplicationMode::from_str("ASYNC"), DomainReplicationMode::Async);
    assert_eq!(DomainReplicationMode::from_str("Quorum"), DomainReplicationMode::Quorum);
    assert_eq!(DomainReplicationMode::from_str("sync"), DomainReplicationMode::Sync);
    assert_eq!(DomainReplicationMode::from_str("whatever"), DomainReplicationMode::Sync);
    assert_eq!(DomainReplicationMode::default(), DomainReplicationMode::Sync);
}

#[test]
fn created_domain_is_led_by_local_cluster() {
    let m = manager_with_domain();
    let d = m.get_domain("users").unwrap();
    assert_eq!(d.leader_cluster, Some("local".to_string()));
    assert_eq!(d.version, 1);
    assert_eq!(d.created_at, 42);
    assert!(m.get_domain("orders").is_none());
    assert_eq!(m.list_domains().len(), 1);
}

#[test]
fn membership_changes_bump_version() {
    let mut m = manager_with_domain();
    m.add_cluster_to_domain("users", "south");
    let d = m.get_domain("users").unwrap();
    assert_eq!(d.member_clusters, strings(&["local", "east", "west", "south"]));
    assert_eq!(d.version, 2);
    m.add_cluster_to_domain("users", "south");
    assert_eq!(m.get_domain("users").unwrap().member_clusters.len(), 4);
    m.remove_cluster_from_domain("users", "east");
    let d = m.get_domain("users").unwrap();
    assert_eq!(d.member_clusters, strings(&["local", "west", "south"]));
    m.delete_domain("users");
    assert!(m.get_domain("users").is_none());
}

#[test]
fn replication_targets_skip_source_and_local() {
    let m = manager_with_domain();
    assert_eq!(m.replication_targets("users", "east").unwrap(), strings(&["west"]));
    assert!(m.replication_targets("nope", "east").is_err());
}

#[test]
fn verdict_follows_mode() {
    assert!(replication_verdict("d", DomainReplicationMode::Sync, 3, 3).is_ok());
    let e = replication_verdict("d", DomainReplicationMode::Sync, 3, 2).unwrap_err();
    assert_eq!(e, "Cross-cluster replication for domain 'd' failed: 3 acks needed, got 2");
    assert!(replication_verdict("d", DomainReplicationMode::Quorum, 4, 3).is_ok());
    assert!(replication_verdict("d", DomainReplicationMode::Quorum, 4, 2).is_err());
    assert!(replication_verdict("d", DomainReplicationMode::Async, 4, 1).is_ok());
    assert!(replication_verdict("d", DomainReplicationMode::Async, 4, 0).is_ok());
}

#[test]
fn storage_ownership_uses_collections() {
    let m = manager_with_domain();
    assert_eq!(m.storage_belongs_to_domain("Document", "profiles"), Some("users".to_string()));
    assert_eq!(m.storage_belongs_to_domain("Document", "other"), None);
    assert_eq!(m.storage_belongs_to_domain("Vector", "profiles"), None);
}

#[test]
fn replica_request_is_acknowledged_and_tracked() {
    let mut m = manager_with_domain();
    let req = FedDataReplicaRequest {
        operation_id: "op1".to_string(),
        domain_name: "users".to_string(),
        source_cluster: "east".to_string(),
        target_cluster: "local".to_string(),
        storage_type: "Document".to_string(),
        table: "profiles".to_string(),
        key: "k".to_string(),
        data: vec![1, 2],
        timestamp: 5,
        vector_clock: String::new(),
    };
    let ack = m.handle_replica_request(req, 900);
    assert!(ack.success);
    assert_eq!(ack.operation_id, "op1");
    assert_eq!(ack.cluster_id, "local");
    assert!(ack.error.is_none());
    let health = m.get_replica_health(1000);
    assert_eq!(health.len(), 2);
    assert!(health.iter().all(|h| h.healthy));
}
