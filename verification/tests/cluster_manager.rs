use primusdb::cluster::membership::MemberStatus;
use primusdb::cluster::rpc::{
    RaftLogEntry,
    ClusterNodeInfo, JoinRequest, PingMessage, PingReqMessage, RaftAppendRequest, RaftVoteRequest,
    ShardTransferRequest,
};
use primusdb::cluster::{ClusterManager, NodeRole, RpcCall, RpcReply};

fn manager() -> ClusterManager {
    ClusterManager::new("n1".to_string(), "127.0.0.1".to_string(), 7000, true, Vec::new())
}

fn join(id: &str) -> RpcCall {
    RpcCall::JoinRequest(JoinRequest {
        node_id: id.to_string(),
        address: "10.0.0.2".to_string(),
        port: 7001,
        cpu_cores: 4,
        memory_gb: 8,
        storage_gb: 100,
        roles: vec!["Worker".to_string()],
    })
}

#[test]
fn join_records_member_and_ring_node() {
    let mut m = manager();
    m.start_local(10);
    let r = m.handle_rpc(join("n2"), 20).unwrap();
    match r {
        RpcReply::JoinResponse(resp) => {
            assert!(resp.accepted);
            assert_eq!(resp.leader_id.as_deref(), Some("n1"));
            assert!(resp.error.is_none());
            assert_eq!(resp.cluster_nodes.len(), 1);
            assert_eq!(resp.cluster_nodes[0].node_id, "n1");
            assert_eq!(resp.cluster_nodes[0].status, "Alive");
            assert_eq!(resp.cluster_nodes[0].port, 7000);
        }
        _ => panic!("expected a join response"),
    }
    let member = m.membership.get_member("n2").unwrap();
    assert_eq!(member.status, MemberStatus::Alive);
    assert_eq!(member.incarnation, 1);
    assert_eq!(member.last_seen, 20);
    assert_eq!(member.address, "10.0.0.2");
    assert_eq!(m.shard_manager.nodes, vec!["n2".to_string()]);
    m.handle_rpc(join("n2"), 30).unwrap();
    assert_eq!(m.shard_manager.nodes, vec!["n2".to_string()]);
}

#[test]
fn pings_refresh_other_members() {
    let mut m = manager();
    m.register_node("n2", "10.0.0.2", 7001, vec![], 5);
    m.membership.mark_suspect("n2", 3);
    let r = m
        .handle_rpc(RpcCall::Ping(PingMessage { sender_id: "n2".to_string(), sequence: 9, incarnation: 3 }), 50)
        .unwrap();
    match r {
        RpcReply::Ack(a) => {
            assert_eq!(a.sender_id, "n1");
            assert_eq!(a.sequence, 9);
            assert!(a.ok);
        }
        _ => panic!("expected an ack"),
    }
    let member = m.membership.get_member("n2").unwrap();
    assert_eq!(member.status, MemberStatus::Alive);
    assert_eq!(member.last_seen, 50);
    assert_eq!(member.incarnation, 3);
}

#[test]
fn ping_req_reports_whether_the_target_is_known() {
    let mut m = manager();
    m.register_node("n2", "10.0.0.2", 7001, vec![], 5);
    let ask = |t: &str| RpcCall::PingReq(PingReqMessage {
        sender_id: "n3".to_string(),
        target_id: t.to_string(),
        sequence: 4,
        incarnation: 1,
    });
    match m.handle_rpc(ask("n2"), 6).unwrap() {
        RpcReply::Ack(a) => assert!(a.ok),
        _ => panic!("expected an ack"),
    }
    match m.handle_rpc(ask("n9"), 6).unwrap() {
        RpcReply::Ack(a) => assert!(!a.ok),
        _ => panic!("expected an ack"),
    }
}

#[test]
fn heartbeat_answers_with_own_id() {
    let mut m = manager();
    m.register_node("n2", "10.0.0.2", 7001, vec![], 5);
    m.membership.mark_suspect("n2", 1);
    match m.handle_rpc(RpcCall::Heartbeat { node_id: "n2".to_string() }, 70).unwrap() {
        RpcReply::Heartbeat { node_id } => assert_eq!(node_id, "n1"),
        _ => panic!("expected a heartbeat"),
    }
    assert_eq!(m.membership.get_member("n2").unwrap().status, MemberStatus::Alive);
    assert_eq!(m.membership.get_member("n2").unwrap().last_seen, 70);
}

#[test]
fn raft_requests_without_raft_are_refused() {
    let mut m = manager();
    let vote = RpcCall::RequestVote(RaftVoteRequest {
        term: 3,
        candidate_id: "n2".to_string(),
        last_log_index: 0,
        last_log_term: 0,
    });
    match m.handle_rpc(vote, 1).unwrap() {
        RpcReply::VoteResponse(v) => {
            assert_eq!(v.term, 0);
            assert!(!v.vote_granted);
            assert_eq!(v.node_id, "n1");
        }
        _ => panic!("expected a vote response"),
    }
    let append = RpcCall::AppendEntries(RaftAppendRequest {
        term: 3,
        leader_id: "n2".to_string(),
        prev_log_index: 0,
        prev_log_term: 0,
        entries: vec![],
        leader_commit: 0,
    });
    match m.handle_rpc(append, 1).unwrap() {
        RpcReply::AppendEntriesResponse(a) => {
            assert!(!a.success);
            assert_eq!(a.term, 0);
            assert_eq!(a.node_id, "n1");
        }
        _ => panic!("expected an append response"),
    }
}

#[test]
fn raft_requests_reach_the_raft_node() {
    let mut m = manager();
    m.init_raft();
    assert!(m.peers_initialized);
    let vote = RpcCall::RequestVote(RaftVoteRequest {
        term: 3,
        candidate_id: "n2".to_string(),
        last_log_index: 0,
        last_log_term: 0,
    });
    match m.handle_rpc(vote, 1).unwrap() {
        RpcReply::VoteResponse(v) => {
            assert_eq!(v.term, 3);
            assert!(v.vote_granted);
        }
        _ => panic!("expected a vote response"),
    }
    let append = RpcCall::AppendEntries(RaftAppendRequest {
        term: 3,
        leader_id: "n2".to_string(),
        prev_log_index: 0,
        prev_log_term: 0,
        entries: vec![RaftLogEntry { term: 3, data: vec![1, 2, 3] }],
        leader_commit: 1,
    });
    match m.handle_rpc(append, 1).unwrap() {
        RpcReply::AppendEntriesResponse(a) => {
            assert!(a.success);
            assert_eq!(a.match_index, 1);
        }
        _ => panic!("expected an append response"),
    }
    let raft = m.raft_node.as_ref().unwrap();
    assert_eq!(raft.log.len(), 1);
    assert_eq!(raft.commit_index, 1);
    assert_eq!(raft.leader_id().as_deref(), Some("n2"));
}

#[test]
fn data_messages_are_answered() {
    let mut m = manager();
    match m.handle_rpc(RpcCall::ReplicaWrite { operation_id: "op-7".to_string(), term: 4 }, 1).unwrap() {
        RpcReply::ReplicaWriteAck(a) => {
            assert_eq!(a.operation_id, "op-7");
            assert_eq!(a.node_id, "n1");
            assert!(a.success);
            assert_eq!(a.term, 4);
        }
        _ => panic!("expected a write ack"),
    }
    match m.handle_rpc(RpcCall::ReplicaRead, 1).unwrap() {
        RpcReply::ReplicaReadResponse { found, node_id } => {
            assert!(!found);
            assert_eq!(node_id, "n1");
        }
        _ => panic!("expected a read response"),
    }
    match m.handle_rpc(RpcCall::MetadataSync, 1).unwrap() {
        RpcReply::MetadataSync(s) => {
            assert_eq!(s.node_id, "n1");
            assert_eq!(s.term, 0);
            assert_eq!(s.checksum, "");
        }
        _ => panic!("expected metadata"),
    }
    let t = ShardTransferRequest {
        shard_id: "s1".to_string(),
        table: "t".to_string(),
        storage_type: "document".to_string(),
        total_chunks: 3,
    };
    match m.handle_rpc(RpcCall::ShardTransfer(t), 1).unwrap() {
        RpcReply::ShardTransfer(back) => {
            assert_eq!(back.shard_id, "s1");
            assert_eq!(back.total_chunks, 3);
        }
        _ => panic!("expected the transfer back"),
    }
    match m.handle_rpc(RpcCall::Other, 1) {
        Err(e) => assert_eq!(e, "Unhandled RPC type"),
        Ok(_) => panic!("expected an error"),
    }
}

#[test]
fn status_counts_alive_members_plus_self() {
    let mut m = manager();
    let s = m.get_cluster_status();
    assert_eq!(s.alive_count, 1);
    assert_eq!(s.health_status, "Standalone");
    assert!(!s.is_leader);
    assert!(s.leader_id.is_none());
    assert_eq!(s.replication_factor, 3);
    m.register_node("n2", "a", 1, vec![], 1);
    let s = m.get_cluster_status();
    assert_eq!(s.cluster_size, 2);
    assert_eq!(s.health_status, "Degraded");
    m.register_node("n3", "b", 1, vec![], 1);
    assert_eq!(m.get_cluster_status().health_status, "Healthy");
    m.remove_node("n3");
    assert_eq!(m.get_cluster_status().health_status, "Degraded");
    assert_eq!(m.membership.get_member("n3").unwrap().status, MemberStatus::Dead);
    assert_eq!(m.shard_manager.nodes, vec!["n2".to_string()]);
}

#[test]
fn proposals_need_a_leader() {
    let mut m = manager();
    assert_eq!(m.propose(vec![1]).unwrap_err(), "Raft not initialized");
    m.init_raft();
    assert_eq!(m.propose(vec![1]).unwrap_err(), "Not the leader, leader is None");
    m.raft_node.as_mut().unwrap().become_follower(2, Some("n2".to_string()));
    assert_eq!(m.propose(vec![1]).unwrap_err(), "Not the leader, leader is Some(\"n2\")");
    let raft = m.raft_node.as_mut().unwrap();
    raft.become_candidate();
    raft.become_leader();
    assert_eq!(m.propose(vec![7]).unwrap(), (1, 0, 0));
    let log = &m.raft_node.as_ref().unwrap().log;
    assert_eq!(log.len(), 1);
    assert_eq!(log[0].data, vec![7u8]);
    assert_eq!(log[0].term, 3);
}

#[test]
fn operation_node_is_a_member() {
    let mut m = manager();
    assert!(m.get_node_for_operation("query").is_none());
    m.register_node("n2", "a", 1, vec![], 1);
    m.register_node("n3", "b", 1, vec![], 1);
    let picked = m.get_node_for_operation("query").unwrap();
    assert!(picked == "n2" || picked == "n3");
    assert_eq!(m.get_node_for_operation("query").unwrap(), picked);
}

#[test]
fn start_restore_and_snapshot() {
    let mut off = ClusterManager::new("n1".to_string(), "h".to_string(), 1, false, Vec::new());
    assert!(!off.start_local(5));
    assert!(off.membership.get_member("n1").is_none());

    let mut m = manager();
    m.restore_peers(
        vec![ClusterNodeInfo {
            node_id: "n4".to_string(),
            address: "10.0.0.4".to_string(),
            port: 7004,
            roles: vec!["Storage".to_string()],
            status: "Dead".to_string(),
        }],
        3,
    );
    assert_eq!(m.membership.get_member("n4").unwrap().status, MemberStatus::Alive);
    assert!(m.start_local(5));
    let peers = m.raft_peers();
    assert_eq!(peers.len(), 1);
    assert_eq!(peers[0].node_id, "n4");
    m.init_raft();
    m.finish_start();
    assert!(m.initialized);
    assert_eq!(m.shard_manager.nodes, vec!["n4".to_string(), "n1".to_string()]);
    let snap = m.peer_snapshot();
    assert_eq!(snap.len(), 2);
    assert_eq!(snap[0].roles, vec!["Storage".to_string()]);
    assert_eq!(snap[1].roles, vec!["Coordinator".to_string(), "Worker".to_string(), "Storage".to_string()]);
    assert_eq!(NodeRole::Api, NodeRole::Api);
}
