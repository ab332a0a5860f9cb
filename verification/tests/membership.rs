use primusdb::cluster::membership::{ClusterMember, MemberStatus, MembershipManager};
use primusdb::cluster::rpc::{ClusterNodeInfo, JoinRequest, JoinResponse};

fn manager() -> MembershipManager {
    MembershipManager::new("self".to_string(), "127.0.0.1".to_string(), 7000, vec!["10.0.0.1:7000".to_string()])
}

fn member(id: &str, status: MemberStatus, inc: u64, seen: u64) -> ClusterMember {
    ClusterMember {
        node_id: id.to_string(),
        address: "10.0.0.2".to_string(),
        port: 7001,
        status,
        incarnation: inc,
        last_seen: seen,
        roles: vec!["Worker".to_string()],
    }
}

fn node_info(id: &str) -> ClusterNodeInfo {
    ClusterNodeInfo {
        node_id: id.to_string(),
        address: "10.0.0.9".to_string(),
        port: 7009,
        roles: vec!["Storage".to_string()],
        status: "Alive".to_string(),
    }
}

#[test]
fn new_manager_is_empty_and_running() {
    let m = manager();
    assert!(m.running);
    assert_eq!(m.local_seq, 0);
    assert!(m.get_member("self").is_none());
    assert_eq!(m.config.ping_req_count, 3);
}

#[test]
fn add_member_keeps_newer_incarnation() {
    let mut m = manager();
    m.add_member(member("a", MemberStatus::Alive, 5, 10));
    m.add_member(member("a", MemberStatus::Suspect, 3, 20));
    let a = m.get_member("a").unwrap();
    assert_eq!(a.incarnation, 5);
    assert_eq!(a.status, MemberStatus::Alive);
    m.add_member(member("a", MemberStatus::Suspect, 6, 20));
    assert_eq!(m.get_member("a").unwrap().incarnation, 6);
}

#[test]
fn dead_member_is_replaced_by_any_report() {
    let mut m = manager();
    m.add_member(member("a", MemberStatus::Alive, 5, 10));
    m.mark_dead("a");
    assert_eq!(m.get_member("a").unwrap().status, MemberStatus::Dead);
    m.add_member(member("a", MemberStatus::Alive, 1, 50));
    let a = m.get_member("a").unwrap();
    assert_eq!(a.status, MemberStatus::Alive);
    assert_eq!(a.incarnation, 1);
}

#[test]
fn stale_suspicion_is_ignored() {
    let mut m = manager();
    m.add_member(member("a", MemberStatus::Alive, 4, 10));
    m.mark_suspect("a", 3);
    assert_eq!(m.get_member("a").unwrap().status, MemberStatus::Alive);
    m.mark_suspect("a", 4);
    assert_eq!(m.get_member("a").unwrap().status, MemberStatus::Suspect);
    m.mark_alive("a", 5, 99);
    let a = m.get_member("a").unwrap();
    assert_eq!(a.status, MemberStatus::Alive);
    assert_eq!(a.incarnation, 5);
    assert_eq!(a.last_seen, 99);
    m.mark_suspect("unknown", 9);
    assert!(m.get_member("unknown").is_none());
}

#[test]
fn register_self_uses_bind_address_and_roles() {
    let mut m = manager();
    m.register_self(1234);
    let me = m.get_member("self").unwrap();
    assert_eq!(me.address, "127.0.0.1");
    assert_eq!(me.port, 7000);
    assert_eq!(me.last_seen, 1234);
    assert_eq!(me.roles, vec!["Coordinator".to_string(), "Worker".to_string(), "Storage".to_string()]);
}

#[test]
fn join_is_accepted_and_recorded() {
    let mut m = manager();
    let req = JoinRequest {
        node_id: "n2".to_string(),
        address: "10.0.0.2".to_string(),
        port: 7002,
        cpu_cores: 4,
        memory_gb: 8,
        storage_gb: 100,
        roles: vec!["Worker".to_string()],
    };
    let resp = m.handle_join(&req, vec![node_info("n3")], 77);
    assert!(resp.accepted);
    assert_eq!(resp.leader_id, Some("self".to_string()));
    assert_eq!(resp.cluster_nodes.len(), 1);
    assert!(resp.error.is_none());
    let n2 = m.get_member("n2").unwrap();
    assert_eq!(n2.status, MemberStatus::Alive);
    assert_eq!(n2.incarnation, 1);
    assert_eq!(n2.last_seen, 77);
}

#[test]
fn accepted_join_answer_records_cluster_nodes() {
    let mut m = manager();
    let resp = JoinResponse {
        accepted: true,
        leader_id: Some("seed".to_string()),
        cluster_nodes: vec![node_info("x"), node_info("y")],
        error: None,
    };
    m.join_accepted(&resp, 500);
    assert_eq!(m.get_member("x").unwrap().last_seen, 500);
    assert_eq!(m.get_member("y").unwrap().roles, vec!["Storage".to_string()]);
    let refused = JoinResponse { accepted: false, leader_id: None, cluster_nodes: vec![node_info("z")], error: Some("no".to_string()) };
    m.join_accepted(&refused, 600);
    assert!(m.get_member("z").is_none());
}

#[test]
fn members_are_listed_by_status_in_arrival_order() {
    let mut m = manager();
    m.add_member(member("a", MemberStatus::Alive, 1, 1));
    m.add_member(member("b", MemberStatus::Suspect, 1, 1));
    m.add_member(member("c", MemberStatus::Alive, 1, 1));
    let alive: Vec<String> = m.alive_members().into_iter().map(|c| c.node_id).collect();
    assert_eq!(alive, vec!["a".to_string(), "c".to_string()]);
    let suspect: Vec<String> = m.suspect_members().into_iter().map(|c| c.node_id).collect();
    assert_eq!(suspect, vec!["b".to_string()]);
    assert_eq!(m.gossip_snapshot(), vec!["a".to_string(), "b".to_string(), "c".to_string()]);
}

#[test]
fn probe_target_prefers_most_recently_seen() {
    let mut m = manager();
    assert_eq!(m.probe_target(), None);
    m.register_self(1000);
    assert_eq!(m.probe_target(), None);
    m.add_member(member("a", MemberStatus::Alive, 1, 10));
    m.add_member(member("b", MemberStatus::Alive, 1, 30));
    m.add_member(member("c", MemberStatus::Suspect, 1, 90));
    assert_eq!(m.probe_target(), Some("b".to_string()));
}

#[test]
fn ping_req_helpers_exclude_self_and_target() {
    let mut m = manager();
    m.register_self(1);
    for id in ["a", "b", "c", "d", "e"] {
        m.add_member(member(id, MemberStatus::Alive, 1, 1));
    }
    assert_eq!(m.ping_req_helpers("b"), vec!["a".to_string(), "c".to_string(), "d".to_string()]);
}

#[test]
fn suspects_time_out_to_dead() {
    let mut m = manager();
    m.add_member(member("old", MemberStatus::Suspect, 1, 100));
    m.add_member(member("fresh", MemberStatus::Suspect, 1, 900));
    m.add_member(member("ok", MemberStatus::Alive, 1, 0));
    m.check_suspects(1000, 500);
    assert_eq!(m.get_member("old").unwrap().status, MemberStatus::Dead);
    assert_eq!(m.get_member("fresh").unwrap().status, MemberStatus::Suspect);
    assert_eq!(m.get_member("ok").unwrap().status, MemberStatus::Alive);
}

#[test]
fn cleanup_removes_dead_and_departed_once_per_interval() {
    let mut m = manager();
    m.add_member(member("a", MemberStatus::Dead, 1, 1));
    m.add_member(member("b", MemberStatus::Alive, 1, 1));
    m.add_member(member("c", MemberStatus::Left, 1, 1));
    let early = m.cleanup_dead_members(10, 100);
    assert!(early.is_empty());
    assert!(m.get_member("a").is_some());
    let removed = m.cleanup_dead_members(200, 100);
    assert_eq!(removed, vec!["a".to_string(), "c".to_string()]);
    assert!(m.get_member("a").is_none());
    assert!(m.get_member("c").is_none());
    assert!(m.get_member("b").is_some());
    assert_eq!(m.last_cleanup, 200);
}

#[test]
fn sequence_numbers_increase() {
    let mut m = manager();
    assert_eq!(m.next_sequence(), 1);
    assert_eq!(m.next_sequence(), 2);
}
