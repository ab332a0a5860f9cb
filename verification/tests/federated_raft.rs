use primusdb::cluster::federated_raft::{FedRaftConfig, FedRaftOpType, FedRaftRole, FederatedRaft};
use primusdb::cluster::rpc::{FedRaftAppendRequest, FedRaftAppendResponse, FedRaftLogEntry, FedRaftVoteRequest, FedRaftVoteResponse};

fn raft(id: &str) -> FederatedRaft {
    let mut c = FedRaftConfig::default();
    c.cluster_id = id.to_string();
    FederatedRaft::new(c)
}

fn entry(index: u64, term: u64) -> FedRaftLogEntry {
    FedRaftLogEntry { index, term, op_type: "DomainCreate".to_string(), data: vec![index as u8], timestamp: 0 }
}

fn append(term: u64, prev: u64, prev_term: u64, entries: Vec<FedRaftLogEntry>, commit: u64) -> FedRaftAppendRequest {
    FedRaftAppendRequest { term, leader_id: "L".to_string(), prev_log_index: prev, prev_log_term: prev_term, entries, leader_commit: commit }
}

#[test]
fn default_config_values() {
    let c = FedRaftConfig::default();
    assert_eq!(c.heartbeat_interval_ms, 1500);
    assert_eq!(c.election_timeout_ms, 5000);
    assert_eq!(c.max_log_entries, 10000);
    assert_eq!(FedRaftOpType::NamespaceRegister.name(), "NamespaceRegister");
}

#[test]
fn candidate_wins_with_majority() {
    let mut r = raft("c1");
    r.become_candidate();
    assert_eq!(r.current_term(), 1);
    assert_eq!(r.state.voted_for, Some("c1".to_string()));
    let req = r.vote_request();
    assert_eq!(req.term, 1);
    assert_eq!(req.candidate_id, "c1");
    assert!(r.conclude_election(1, 2, 3));
    assert!(r.is_leader());
    assert_eq!(r.leader_id(), Some("c1".to_string()));
}

#[test]
fn candidate_loses_without_majority() {
    let mut r = raft("c1");
    r.become_candidate();
    assert!(!r.conclude_election(1, 2, 4));
    assert_eq!(r.state.role, FedRaftRole::Follower);
}

#[test]
fn higher_term_in_vote_reply_steps_down() {
    let mut r = raft("c1");
    r.become_candidate();
    let resp = FedRaftVoteResponse { term: 7, vote_granted: false, cluster_id: "c2".to_string() };
    assert_eq!(r.on_vote_response(1, &resp), None);
    assert_eq!(r.current_term(), 7);
    assert_eq!(r.state.role, FedRaftRole::Follower);
    let ok = FedRaftVoteResponse { term: 7, vote_granted: true, cluster_id: "c2".to_string() };
    assert_eq!(r.on_vote_response(7, &ok), Some(true));
}

#[test]
fn only_leader_proposes() {
    let mut r = raft("c1");
    let err = r.propose_entry(FedRaftOpType::DomainCreate, vec![1]).unwrap_err();
    assert_eq!(err, "FedRaft: not the leader");
    r.become_candidate();
    r.become_leader();
    let (e, prev_index, prev_term) = r.propose_entry(FedRaftOpType::ClusterJoin, vec![9, 9]).unwrap();
    assert_eq!(e.index, 1);
    assert_eq!(e.term, 1);
    assert_eq!(e.op_type, "ClusterJoin");
    assert_eq!(prev_index, 0);
    assert_eq!(prev_term, 0);
    assert_eq!(r.log.len(), 1);
    assert!(!r.commit_proposal(1, 4, 1));
    assert!(r.commit_proposal(3, 4, 1));
    assert_eq!(r.state.commit_index, 1);
    assert_eq!(r.get_committed_entries().len(), 1);
}

#[test]
fn append_reply_with_higher_term_steps_down() {
    let mut r = raft("c1");
    r.become_candidate();
    r.become_leader();
    let resp = FedRaftAppendResponse { term: 5, success: false, match_index: 0, cluster_id: "c2".to_string() };
    assert_eq!(r.on_append_response(1, &resp), None);
    assert!(!r.is_leader());
}

#[test]
fn grants_one_vote_per_term() {
    let mut r = raft("c1");
    let a = FedRaftVoteRequest { term: 2, candidate_id: "a".to_string(), last_log_index: 0, last_log_term: 0 };
    let b = FedRaftVoteRequest { term: 2, candidate_id: "b".to_string(), last_log_index: 0, last_log_term: 0 };
    assert!(r.handle_vote_request(&a).vote_granted);
    assert!(!r.handle_vote_request(&b).vote_granted);
    assert!(r.handle_vote_request(&a).vote_granted);
    let stale = FedRaftVoteRequest { term: 1, candidate_id: "c".to_string(), last_log_index: 9, last_log_term: 9 };
    let resp = r.handle_vote_request(&stale);
    assert!(!resp.vote_granted);
    assert_eq!(resp.term, 2);
}

#[test]
fn refuses_candidate_with_older_log() {
    let mut r = raft("c1");
    r.handle_append_entries(&append(3, 0, 0, vec![entry(1, 3)], 0));
    let behind = FedRaftVoteRequest { term: 4, candidate_id: "x".to_string(), last_log_index: 5, last_log_term: 2 };
    assert!(!r.handle_vote_request(&behind).vote_granted);
}

#[test]
fn append_entries_appends_and_commits() {
    let mut r = raft("c1");
    let resp = r.handle_append_entries(&append(1, 0, 0, vec![entry(1, 1), entry(2, 1)], 1));
    assert!(resp.success);
    assert_eq!(resp.match_index, 2);
    assert_eq!(resp.cluster_id, "c1");
    assert_eq!(r.state.commit_index, 1);
    assert_eq!(r.leader_id(), Some("L".to_string()));
    assert_eq!(r.get_committed_entries().len(), 1);
    let resp = r.handle_append_entries(&append(1, 2, 1, vec![], 10));
    assert!(resp.success);
    assert_eq!(r.state.commit_index, 2);
}

#[test]
fn append_entries_rejects_stale_term_and_gaps() {
    let mut r = raft("c1");
    r.handle_append_entries(&append(5, 0, 0, vec![entry(1, 5)], 0));
    let stale = r.handle_append_entries(&append(4, 0, 0, vec![entry(2, 4)], 0));
    assert!(!stale.success);
    assert_eq!(stale.term, 5);
    let gap = r.handle_append_entries(&append(5, 9, 5, vec![], 0));
    assert!(!gap.success);
    assert_eq!(r.log.len(), 1);
}

#[test]
fn federated_append_with_another_term_at_the_previous_index_is_refused() {
    let mut r = raft("c1");
    r.handle_append_entries(&append(1, 0, 0, vec![entry(1, 1), entry(2, 1), entry(3, 1)], 0));
    let resp = r.handle_append_entries(&append(2, 2, 2, vec![entry(3, 2)], 0));
    assert!(!resp.success);
    assert_eq!(r.log.len(), 3);
    assert_eq!(r.log[1].term, 1);
    let resp = r.handle_append_entries(&append(2, 3, 1, vec![entry(4, 2)], 0));
    assert!(resp.success);
    assert_eq!(r.log.len(), 4);
}
