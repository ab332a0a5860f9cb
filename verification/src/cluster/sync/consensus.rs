//! Raft-style consensus state types.

use vstd::prelude::*;

verus! {

/// Consensus role in the cluster.
#[derive(Debug, Clone, Copy, PartialEq, Eq, Structural)]
pub enum ConsensusRole {
    /// Follower node.
    Follower,
    /// Candidate for leadership.
    Candidate,
    /// Current leader.
    Leader,
}

/// Consensus state for a node.
pub struct ConsensusState {
    /// Current role.
    pub role: ConsensusRole,
    /// Current term.
    pub term: u64,
    /// Voted for in the current term.
    pub voted_for: Option<String>,
    /// Leader ID, if known.
    pub leader_id: Option<String>,
    /// Last log index.
    pub last_log_index: u64,
    /// Last log term.
    pub last_log_term: u64,
    /// Commit index.
    pub commit_index: u64,
    /// Applied index.
    pub applied_index: u64,
}

impl Default for ConsensusState {
    /// A follower in term zero that has voted for nobody and knows no
    /// leader, with an empty log.
    fn default() -> (s: Self)
        ensures
            s.role == ConsensusRole::Follower,
            s.term == 0,
            s.voted_for is None,
            s.leader_id is None,
            s.last_log_index == 0,
            s.last_log_term == 0,
            s.commit_index == 0,
            s.applied_index == 0,
    {
        ConsensusState {
            role: ConsensusRole::Follower,
            term: 0,
            voted_for: None,
            leader_id: None,
            last_log_index: 0,
            last_log_term: 0,
            commit_index: 0,
            applied_index: 0,
        }
    }
}

/// Vote request for leader election.
pub struct VoteRequest {
    /// Candidate's term.
    pub term: u64,
    /// Candidate requesting the vote.
    pub candidate_id: String,
    /// Last log index.
    pub last_log_index: u64,
    /// Last log term.
    pub last_log_term: u64,
}

/// Vote response from a peer.
pub struct VoteResponse {
    /// Responder's term.
    pub term: u64,
    /// Whether the vote was granted.
    pub vote_granted: String,
    /// Node that responded.
    pub node_id: String,
}

/// Response to an append-entries request.
pub struct AppendEntriesResponse {
    /// Follower's term.
    pub term: u64,
    /// Whether the append succeeded.
    pub success: bool,
    /// Match index for the leader.
    pub match_index: u64,
    /// Node that responded.
    pub node_id: String,
}

/// Consensus configuration.
#[derive(Debug, Clone, Copy, PartialEq, Eq, Structural)]
pub struct ConsensusConfig {
    /// Lower end of the election timeout range (ms).
    pub election_timeout_min_ms: u64,
    /// Upper end of the election timeout range (ms).
    pub election_timeout_max_ms: u64,
    /// Heartbeat interval (ms).
    pub heartbeat_interval_ms: u64,
    /// Maximum entries per append.
    pub max_entries_per_append: usize,
    /// Snapshot interval, in entries.
    pub snapshot_interval_entries: usize,
}

impl Default for ConsensusConfig {
    fn default() -> (c: Self)
        ensures
            c == (ConsensusConfig {
                election_timeout_min_ms: 150,
                election_timeout_max_ms: 300,
                heartbeat_interval_ms: 50,
                max_entries_per_append: 100,
                snapshot_interval_entries: 10000,
            }),
    {
        ConsensusConfig {
            election_timeout_min_ms: 150,
            election_timeout_max_ms: 300,
            heartbeat_interval_ms: 50,
            max_entries_per_append: 100,
            snapshot_interval_entries: 10000,
        }
    }
}

} // verus!
