use primusdb::cluster::raft::{election_quorum, RaftNode};
use primusdb::cluster::rpc::{InstallSnapshotRequest, RaftAppendRequest, RaftLogEntry, RaftAppendResponse, RaftVoteRequest, RaftVoteResponse};
use primusdb::cluster::sync::consensus::{ConsensusConfig, ConsensusRole};

fn node(id: &str) -> RaftNode {
    RaftNode::new(id.to_string(), ConsensusConfig::default())
}

fn vote_req(term: u64, candidate: &str, idx: u64, lterm: u64) -> RaftVoteRequest {
    RaftVoteRequest { term, candidate_id: candidate.to_string(), last_log_index: idx, last_log_term: lterm }
}

fn append_req(term: u64, prev: u64, entries: Vec<Vec<u8>>, commit: u64) -> RaftAppendRequest {
    RaftAppendRequest {
        term,
        leader_id: "leader".to_string(),
        prev_log_index: prev,
        prev_log_term: if prev == 0 { 0 } else { 1 },
        entries: entries.into_iter().map(|data| RaftLogEntry { term, data }).collect(),
        leader_commit: commit,
    }
}

#[test]
fn quorum_is_a_strict_majority() {
    assert_eq!(election_quorum(0), 1);
    assert_eq!(election_quorum(1), 2);
    assert_eq!(election_quorum(2), 2);
    assert_eq!(election_quorum(3), 3);
    assert_eq!(election_quorum(4), 3);
}

#[test]
fn votes_once_per_term() {
    let mut n = node("n1");
    let r = n.handle_request_vote(&vote_req(1, "a", 0, 0));
    assert!(r.vote_granted);
    assert_eq!(r.term, 1);
    let r = n.handle_request_vote(&vote_req(1, "b", 0, 0));
    assert!(!r.vote_granted);
    let r = n.handle_request_vote(&vote_req(1, "a", 0, 0));
    assert!(r.vote_granted);
    let r = n.handle_request_vote(&vote_req(2, "b", 0, 0));
    assert!(r.vote_granted);
    assert_eq!(n.current_term(), 2);
    let r = n.handle_request_vote(&vote_req(1, "c", 0, 0));
    assert!(!r.vote_granted);
    assert_eq!(r.term, 2);
}

#[test]
fn refuses_vote_to_staler_log() {
    let mut n = node("n1");
    n.append_entry(vec![1, 2, 3]);
    let r = n.handle_request_vote(&vote_req(1, "a", 0, 0));
    assert!(!r.vote_granted);
    assert_eq!(n.current_term(), 1);
}

#[test]
fn append_entries_flow() {
    let mut n = node("n1");
    let resp = n.handle_append_entries(&append_req(1, 0, vec![vec![7], vec![8]], 1));
    assert!(resp.success);
    assert_eq!(resp.match_index, 2);
    assert_eq!(n.commit_index, 1);
    assert_eq!(n.leader_id(), Some("leader".to_string()));
    assert_eq!(n.next_to_apply(), Some(vec![7]));
    n.mark_applied();
    assert_eq!(n.next_to_apply(), None);
    let stale = n.handle_append_entries(&append_req(0, 0, vec![vec![9]], 5));
    assert!(!stale.success);
    assert_eq!(stale.term, 1);
    assert_eq!(n.last_log_index(), 2);
    let gap = n.handle_append_entries(&append_req(1, 5, vec![vec![9]], 5));
    assert!(!gap.success);
    assert_eq!(gap.last_log_index, 2);
    let capped = n.handle_append_entries(&append_req(1, 2, vec![vec![9]], 10));
    assert!(capped.success);
    assert_eq!(n.commit_index, 3);
}

#[test]
fn election_decisions() {
    let mut n = node("n1");
    n.become_candidate();
    assert_eq!(n.current_term(), 1);
    assert_eq!(n.state.role, ConsensusRole::Candidate);
    let req = n.vote_request();
    assert_eq!(req.candidate_id, "n1");
    let granted = RaftVoteResponse { term: 1, vote_granted: true, node_id: "n2".to_string() };
    assert_eq!(n.on_vote_response(1, &granted), Some(true));
    assert!(n.conclude_election(1, 2, 2));
    assert!(n.is_leader());
    assert_eq!(n.leader_id(), Some("n1".to_string()));
    let newer = RaftVoteResponse { term: 5, vote_granted: false, node_id: "n3".to_string() };
    assert_eq!(n.on_vote_response(1, &newer), None);
    assert_eq!(n.current_term(), 5);
    assert!(!n.is_leader());
}

#[test]
fn lost_election_keeps_candidate_term() {
    let mut n = node("n1");
    n.become_candidate();
    assert!(!n.conclude_election(1, 1, 4));
    assert_eq!(n.current_term(), 1);
    assert_eq!(n.state.role, ConsensusRole::Candidate);
}

#[test]
fn replication_commits_on_quorum() {
    let mut n = node("n1");
    n.become_candidate();
    n.become_leader();
    let (index, prev, prev_term) = n.prepare_replication(vec![1]);
    assert_eq!((index, prev, prev_term), (1, 0, 0));
    let ok = RaftAppendResponse { term: 1, success: true, match_index: 1, node_id: "n2".to_string(), last_log_index: 1 };
    assert_eq!(n.on_append_response(1, &ok), Some(true));
    assert!(!n.commit_replicated(1, 2, index));
    assert_eq!(n.commit_index, 0);
    assert!(n.commit_replicated(2, 2, index));
    assert_eq!(n.commit_index, 1);
    let hb = n.heartbeat_request();
    assert_eq!(hb.prev_log_index, 1);
    assert_eq!(hb.leader_commit, 1);
    assert!(hb.entries.is_empty());
}

#[test]
fn install_snapshot_chunks() {
    let mut n = node("n1");
    n.append_entry(vec![1]);
    let first = InstallSnapshotRequest {
        term: 3,
        leader_id: "leader".to_string(),
        last_included_index: 10,
        last_included_term: 2,
        offset: 0,
        data: vec![1, 2],
        done: false,
    };
    n.handle_install_snapshot(&first);
    assert_eq!(n.current_term(), 3);
    assert_eq!(n.last_log_index(), 1);
    let last = InstallSnapshotRequest { offset: 2, data: vec![3], done: true, ..first };
    n.handle_install_snapshot(&last);
    let snap = n.snapshot.as_ref().unwrap();
    assert_eq!(snap.data, vec![1, 2, 3]);
    assert_eq!(snap.last_included_index, 10);
    assert_eq!(n.last_log_index(), 0);
    assert_eq!(n.commit_index, 10);
    assert_eq!(n.last_applied, 10);
}

#[test]
fn append_with_another_term_at_the_previous_index_is_refused() {
    let mut n = node("n1");
    assert!(n.handle_append_entries(&append_req(1, 0, vec![vec![7], vec![8]], 0)).success);
    let mut req = append_req(1, 2, vec![vec![9]], 0);
    req.prev_log_term = 3;
    let resp = n.handle_append_entries(&req);
    assert!(!resp.success);
    assert_eq!(resp.last_log_index, 2);
    assert_eq!(n.last_log_index(), 2);
    let resp = n.handle_append_entries(&append_req(1, 1, vec![vec![5]], 0));
    assert!(resp.success);
    assert_eq!(resp.match_index, 2);
}

#[test]
fn the_previous_entry_is_checked_by_its_recorded_term() {
    let mut n = node("n1");
    let mut first = append_req(5, 0, vec![vec![1]], 0);
    first.entries[0].term = 5;
    assert!(n.handle_append_entries(&first).success);
    assert_eq!(n.last_log_term(), 5);
    let mut wrong = append_req(5, 1, vec![vec![2]], 0);
    wrong.prev_log_term = 0;
    assert!(!n.handle_append_entries(&wrong).success);
    assert_eq!(n.last_log_index(), 1);
    let mut right = append_req(5, 1, vec![vec![2]], 0);
    right.prev_log_term = 5;
    assert!(n.handle_append_entries(&right).success);
    assert_eq!(n.last_log_index(), 2);
}

#[test]
fn leader_entries_record_the_current_term() {
    let mut n = node("n1");
    n.become_candidate();
    n.become_leader();
    let (index, prev_index, prev_term) = n.prepare_replication(vec![4]);
    assert_eq!((index, prev_index, prev_term), (1, 0, 0));
    assert_eq!(n.last_log_term(), n.current_term());
}
