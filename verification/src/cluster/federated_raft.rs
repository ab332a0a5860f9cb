//! Raft between clusters: the decisions of one cluster in the federation's
//! consensus group.
//!
//! The federated log orders domain and membership changes across clusters.
//! A cluster here holds its role, term, vote and log and decides how to
//! answer requests and when a proposal is committed; sending the requests is
//! left to the caller, which feeds the replies back in.

use vstd::prelude::*;
use crate::cluster::rpc::{
    FedLogEntryView, FedRaftAppendRequest, FedRaftAppendResponse, FedRaftLogEntry, FedRaftVoteRequest,
    FedRaftVoteResponse,
};
use crate::cluster::sync::now_ms;
use crate::text::owned;

verus! {

/// Role of a cluster in the federated consensus group.
#[derive(Debug, Clone, Copy, PartialEq, Eq, Structural)]
pub enum FedRaftRole {
    Follower,
    Candidate,
    Leader,
}

/// Consensus state of a cluster.
pub struct FedRaftState {
    pub role: FedRaftRole,
    pub current_term: u64,
    pub voted_for: Option<String>,
    pub leader_id: Option<String>,
    pub commit_index: u64,
    pub last_applied: u64,
}

/// Federated consensus parameters.
pub struct FedRaftConfig {
    pub cluster_id: String,
    pub heartbeat_interval_ms: u64,
    pub election_timeout_ms: u64,
    pub max_log_entries: usize,
}

impl Default for FedRaftConfig {
    fn default() -> (c: Self)
        ensures
            c.cluster_id@ == Seq::<char>::empty(),
            c.heartbeat_interval_ms == 1500,
            c.election_timeout_ms == 5000,
            c.max_log_entries == 10000,
    {
        FedRaftConfig {
            cluster_id: String::new(),
            heartbeat_interval_ms: 1500,
            election_timeout_ms: 5000,
            max_log_entries: 10000,
        }
    }
}

/// Kinds of operations ordered by the federated log.
#[derive(Debug, Clone, Copy, PartialEq, Eq, Structural)]
pub enum FedRaftOpType {
    DomainCreate,
    DomainUpdate,
    DomainDelete,
    ClusterJoin,
    ClusterLeave,
    NamespaceRegister,
    MetadataUpdate,
}

/// The name an operation type is logged under.
pub open spec fn op_type_name(op: FedRaftOpType) -> Seq<char> {
    match op {
        FedRaftOpType::DomainCreate => "DomainCreate"@,
        FedRaftOpType::DomainUpdate => "DomainUpdate"@,
        FedRaftOpType::DomainDelete => "DomainDelete"@,
        FedRaftOpType::ClusterJoin => "ClusterJoin"@,
        FedRaftOpType::ClusterLeave => "ClusterLeave"@,
        FedRaftOpType::NamespaceRegister => "NamespaceRegister"@,
        FedRaftOpType::MetadataUpdate => "MetadataUpdate"@,
    }
}

impl FedRaftOpType {
    /// The name an operation type is logged under.
    pub fn name(&self) -> (s: &'static str)
        ensures
            s@ == op_type_name(*self),
    {
        match self {
            FedRaftOpType::DomainCreate => "DomainCreate",
            FedRaftOpType::DomainUpdate => "DomainUpdate",
            FedRaftOpType::DomainDelete => "DomainDelete",
            FedRaftOpType::ClusterJoin => "ClusterJoin",
            FedRaftOpType::ClusterLeave => "ClusterLeave",
            FedRaftOpType::NamespaceRegister => "NamespaceRegister",
            FedRaftOpType::MetadataUpdate => "MetadataUpdate",
        }
    }
}

/// A peer cluster of the consensus group.
pub struct FedRaftPeer {
    pub cluster_id: String,
    pub address: String,
    pub port: u16,
}

/// The characters of an optional string.
pub open spec fn opt_chars(o: Option<String>) -> Option<Seq<char>> {
    match o {
        Some(s) => Some(s@),
        None => None,
    }
}

/// The term of the last entry of a federated log, zero when it is empty.
pub open spec fn last_fed_term(log: Seq<FedRaftLogEntry>) -> u64 {
    if log.len() == 0 {
        0
    } else {
        log.last().term
    }
}

/// Votes needed among `peer_count` peers: half of them, plus one.
pub open spec fn fed_quorum(peer_count: nat) -> nat {
    peer_count / 2 + 1
}

/// The entries of a federated log as plain values.
pub open spec fn fed_entry_views(log: Seq<FedRaftLogEntry>) -> Seq<FedLogEntryView> {
    log.map_values(|e: FedRaftLogEntry| e@)
}

/// Whether the log is consistent with the leader's at the previous index:
/// the index is zero, or the log reaches it and the entry there has the
/// leader's term.
pub open spec fn fed_prev_matches(log: Seq<FedRaftLogEntry>, prev_index: u64, prev_term: u64) -> bool {
    prev_index == 0 || (prev_index <= log.len() && log[prev_index - 1].term == prev_term)
}

/// The log after appending, in order, each entry whose index lies beyond
/// the log's current length.
pub open spec fn fed_appended(log: Seq<FedLogEntryView>, entries: Seq<FedLogEntryView>) -> Seq<FedLogEntryView>
    decreases entries.len(),
{
    if entries.len() == 0 {
        log
    } else {
        let prev = fed_appended(log, entries.drop_last());
        if entries.last().index > prev.len() {
            prev.push(entries.last())
        } else {
            prev
        }
    }
}

/// A copy of an optional string.
fn copy_opt_str(o: &Option<String>) -> (r: Option<String>)
    ensures
        opt_chars(r) == opt_chars(*o),
{
    match o {
        Some(s) => Some(s.clone()),
        None => None,
    }
}

/// One cluster's federated consensus state.
pub struct FederatedRaft {
    pub config: FedRaftConfig,
    pub state: FedRaftState,
    pub log: Vec<FedRaftLogEntry>,
    pub cluster_peers: Vec<String>,
    /// When the election timer was last reset (ms).
    pub election_reset: u64,
}

impl FederatedRaft {
    /// A follower in term zero with an empty log.
    pub fn new(config: FedRaftConfig) -> (r: Self)
        ensures
            r.config == config,
            r.state.role == FedRaftRole::Follower,
            r.state.current_term == 0,
            r.state.voted_for is None,
            r.state.leader_id is None,
            r.state.commit_index == 0,
            r.state.last_applied == 0,
            r.log@.len() == 0,
            r.cluster_peers@.len() == 0,
    {
        FederatedRaft {
            state: FedRaftState {
                role: FedRaftRole::Follower,
                current_term: 0,
                voted_for: None,
                leader_id: None,
                commit_index: 0,
                last_applied: 0,
            },
            log: Vec::new(),
            cluster_peers: Vec::new(),
            election_reset: 0,
            config,
        }
    }

    /// Becomes a follower of `leader`; a newer term is taken on with no
    /// vote cast in it.
    pub fn become_follower(&mut self, term: u64, leader: Option<&str>)
        ensures
            final(self).state.role == FedRaftRole::Follower,
            final(self).state.current_term == if term > old(self).state.current_term {
                term
            } else {
                old(self).state.current_term
            },
            term > old(self).state.current_term ==> final(self).state.voted_for is None,
            term <= old(self).state.current_term ==> final(self).state.voted_for == old(self).state.voted_for,
            opt_chars(final(self).state.leader_id) == match leader {
                Some(l) => Some(l@),
                None => None::<Seq<char>>,
            },
            final(self).state.commit_index == old(self).state.commit_index,
            final(self).state.last_applied == old(self).state.last_applied,
            final(self).log == old(self).log,
            final(self).config == old(self).config,
    {
        if term > self.state.current_term {
            self.state.current_term = term;
            self.state.voted_for = None;
        }
        self.state.role = FedRaftRole::Follower;
        self.state.leader_id = match leader {
            Some(l) => Some(owned(l)),
            None => None,
        };
        self.election_reset = now_ms();
    }

    /// Starts an election: the next term, as a candidate voting for itself.
    pub fn become_candidate(&mut self)
        requires
            old(self).state.current_term < u64::MAX,
        ensures
            final(self).state.current_term == old(self).state.current_term + 1,
            final(self).state.role == FedRaftRole::Candidate,
            opt_chars(final(self).state.voted_for) == Some(old(self).config.cluster_id@),
            final(self).state.leader_id is None,
            final(self).state.commit_index == old(self).state.commit_index,
            final(self).log == old(self).log,
            final(self).config == old(self).config,
    {
        self.state.current_term = self.state.current_term + 1;
        self.state.role = FedRaftRole::Candidate;
        self.state.voted_for = Some(self.config.cluster_id.clone());
        self.state.leader_id = None;
        self.election_reset = now_ms();
    }

    /// Becomes leader for the current term.
    pub fn become_leader(&mut self)
        ensures
            final(self).state.role == FedRaftRole::Leader,
            final(self).state.current_term == old(self).state.current_term,
            final(self).state.voted_for == old(self).state.voted_for,
            opt_chars(final(self).state.leader_id) == Some(old(self).config.cluster_id@),
            final(self).state.commit_index == old(self).state.commit_index,
            final(self).log == old(self).log,
            final(self).config == old(self).config,
    {
        self.state.role = FedRaftRole::Leader;
        self.state.leader_id = Some(self.config.cluster_id.clone());
    }

    /// The term of the last log entry, zero for an empty log.
    pub fn last_log_term(&self) -> (t: u64)
        ensures
            t == last_fed_term(self.log@),
    {
        if self.log.len() == 0 {
            0
        } else {
            self.log[self.log.len() - 1].term
        }
    }

    /// The vote request this cluster sends as a candidate.
    pub fn vote_request(&self) -> (req: FedRaftVoteRequest)
        ensures
            req.term == self.state.current_term,
            req.candidate_id@ == self.config.cluster_id@,
            req.last_log_index == self.log@.len(),
            req.last_log_term == last_fed_term(self.log@),
    {
        FedRaftVoteRequest {
            term: self.state.current_term,
            candidate_id: self.config.cluster_id.clone(),
            last_log_index: self.log.len() as u64,
            last_log_term: self.last_log_term(),
        }
    }

    /// Takes in a peer's answer in an election for `term`: a newer term in
    /// the answer makes this cluster a follower and ends the election
    /// (`None`); otherwise the answer counts (`Some(true)`) when granted.
    pub fn on_vote_response(&mut self, term: u64, resp: &FedRaftVoteResponse) -> (r: Option<bool>)
        ensures
            resp.term > term ==> r is None && final(self).state.role == FedRaftRole::Follower
                && final(self).state.leader_id is None,
            resp.term <= term ==> r == Some(resp.vote_granted) && *final(self) == *old(self),
            final(self).log == old(self).log,
    {
        if resp.term > term {
            self.become_follower(resp.term, None);
            None
        } else {
            Some(resp.vote_granted)
        }
    }

    /// Ends an election for `term` with `votes` votes (its own included)
    /// among `peer_count` peers: with a quorum it becomes leader, otherwise
    /// a follower with no known leader.
    pub fn conclude_election(&mut self, term: u64, votes: usize, peer_count: usize) -> (won: bool)
        ensures
            won == (votes >= fed_quorum(peer_count as nat)),
            won ==> final(self).state.role == FedRaftRole::Leader && final(self).state.current_term == old(
                self,
            ).state.current_term,
            !won ==> final(self).state.role == FedRaftRole::Follower && final(self).state.leader_id is None,
            final(self).log == old(self).log,
    {
        if votes >= peer_count / 2 + 1 {
            self.become_leader();
            true
        } else {
            self.become_follower(term, None);
            false
        }
    }

    /// Appends a proposed operation as leader and returns the entry with
    /// the index and term of the one before it; an error when this cluster
    /// is not the leader.
    pub fn propose_entry(&mut self, op_type: FedRaftOpType, data: Vec<u8>) -> (r: Result<
        (FedRaftLogEntry, u64, u64),
        String,
    >)
        requires
            old(self).log@.len() < u64::MAX,
        ensures
            old(self).state.role != FedRaftRole::Leader ==> (r matches Err(e) && e@ == "FedRaft: not the leader"@)
                && *final(self) == *old(self),
            old(self).state.role == FedRaftRole::Leader ==> (r matches Ok((entry, prev_index, prev_term)) && {
                &&& entry.index == old(self).log@.len() + 1
                &&& entry.term == old(self).state.current_term
                &&& entry.op_type@ == op_type_name(op_type)
                &&& entry.data@ == data@
                &&& prev_index == old(self).log@.len()
                &&& prev_term == last_fed_term(old(self).log@)
                &&& fed_entry_views(final(self).log@) == fed_entry_views(old(self).log@).push(entry@)
            }),
            final(self).state.role == old(self).state.role,
            final(self).state.current_term == old(self).state.current_term,
            final(self).state.commit_index == old(self).state.commit_index,
    {
        if self.state.role != FedRaftRole::Leader {
            return Err(owned("FedRaft: not the leader"));
        }
        let index = self.log.len() as u64 + 1;
        let prev_term = self.last_log_term();
        let entry = FedRaftLogEntry {
            index,
            term: self.state.current_term,
            op_type: owned(op_type.name()),
            data,
            timestamp: now_ms(),
        };
        let copy = entry.clone();
        let ghost before = fed_entry_views(self.log@);
        self.log.push(entry);
        assert(fed_entry_views(self.log@) =~= before.push(copy@));
        Ok((copy, index - 1, prev_term))
    }

    /// Takes in a peer's answer to a proposal in `term`: a newer term makes
    /// this cluster a follower, as a stale leader (`None`); otherwise the
    /// answer counts (`Some(true)`) when the peer accepted.
    pub fn on_append_response(&mut self, term: u64, resp: &FedRaftAppendResponse) -> (r: Option<bool>)
        ensures
            resp.term > term ==> r is None && final(self).state.role == FedRaftRole::Follower,
            resp.term <= term ==> r == Some(resp.success) && *final(self) == *old(self),
            final(self).log == old(self).log,
    {
        if resp.term > term {
            self.become_follower(resp.term, None);
            None
        } else {
            Some(resp.success)
        }
    }

    /// Ends a proposal of the entry at `index` with `successes`
    /// acknowledgements (its own included) among `peer_count` peers: with a
    /// quorum the entry is committed and applied.
    pub fn commit_proposal(&mut self, successes: usize, peer_count: usize, index: u64) -> (committed: bool)
        ensures
            committed == (successes >= fed_quorum(peer_count as nat)),
            committed ==> final(self).state.commit_index == index && final(self).state.last_applied == index,
            !committed ==> final(self).state == old(self).state,
            final(self).log == old(self).log,
            final(self).state.role == old(self).state.role,
            final(self).state.current_term == old(self).state.current_term,
    {
        if successes >= peer_count / 2 + 1 {
            self.state.commit_index = index;
            self.state.last_applied = index;
            true
        } else {
            false
        }
    }

    /// Answers a candidate's vote request. A newer term first makes this
    /// cluster a follower with no vote; the vote is granted when the term is
    /// current, no other candidate got this cluster's vote, and the
    /// candidate's log is at least as up to date (a later last term, or the
    /// same last term and at least as many entries).
    pub fn handle_vote_request(&mut self, req: &FedRaftVoteRequest) -> (resp: FedRaftVoteResponse)
        ensures
            ({
                let t1 = if req.term > old(self).state.current_term {
                    req.term
                } else {
                    old(self).state.current_term
                };
                let v1 = if req.term > old(self).state.current_term {
                    None
                } else {
                    opt_chars(old(self).state.voted_for)
                };
                let last_term = last_fed_term(old(self).log@);
                let log_ok = req.last_log_term > last_term || (req.last_log_term == last_term
                    && req.last_log_index >= old(self).log@.len());
                let grant = req.term >= t1 && (v1 is None || v1 == Some(req.candidate_id@)) && log_ok;
                &&& resp.vote_granted == grant
                &&& resp.term == t1
                &&& final(self).state.current_term == t1
                &&& grant ==> opt_chars(final(self).state.voted_for) == Some(req.candidate_id@)
                &&& !grant ==> opt_chars(final(self).state.voted_for) == v1
                &&& resp.cluster_id@ == old(self).config.cluster_id@
            }),
            req.term > old(self).state.current_term ==> final(self).state.role == FedRaftRole::Follower,
            req.term <= old(self).state.current_term ==> final(self).state.role == old(self).state.role,
            final(self).log == old(self).log,
            final(self).state.commit_index == old(self).state.commit_index,
    {
        if req.term > self.state.current_term {
            self.state.current_term = req.term;
            self.state.voted_for = None;
            self.state.role = FedRaftRole::Follower;
        }
        let last_log_index = self.log.len() as u64;
        let last_log_term = self.last_log_term();
        let log_ok = req.last_log_term > last_log_term || (req.last_log_term == last_log_term
            && req.last_log_index >= last_log_index);
        let free = match &self.state.voted_for {
            Some(v) => *v == req.candidate_id,
            None => true,
        };
        let grant = req.term >= self.state.current_term && free && log_ok;
        if grant {
            self.state.voted_for = Some(req.candidate_id.clone());
            self.election_reset = now_ms();
        }
        FedRaftVoteResponse {
            term: self.state.current_term,
            vote_granted: grant,
            cluster_id: self.config.cluster_id.clone(),
        }
    }

    /// Answers a leader's append request. A stale term is refused. Otherwise
    /// this cluster follows the leader, and checks its log for consistency
    /// at the previous index: a previous index beyond the log, or an entry
    /// there with another term, is refused with the log as it was. Else the
    /// entries whose index lies beyond the log are appended, and a higher
    /// leader commit is followed, capped by the log.
    pub fn handle_append_entries(&mut self, req: &FedRaftAppendRequest) -> (resp: FedRaftAppendResponse)
        requires
            old(self).log@.len() + req.entries@.len() <= usize::MAX,
        ensures
            resp.cluster_id@ == old(self).config.cluster_id@,
            req.term < old(self).state.current_term ==> {
                &&& !resp.success
                &&& resp.term == old(self).state.current_term
                &&& resp.match_index == old(self).state.commit_index
                &&& final(self).state == old(self).state
                &&& final(self).log == old(self).log
            },
            req.term >= old(self).state.current_term ==> {
                &&& final(self).state.current_term == req.term
                &&& final(self).state.role == FedRaftRole::Follower
                &&& opt_chars(final(self).state.leader_id) == Some(req.leader_id@)
                &&& resp.term == req.term
            },
            req.term >= old(self).state.current_term && !fed_prev_matches(old(self).log@, req.prev_log_index, req.prev_log_term) ==> {
                &&& !resp.success
                &&& resp.match_index == old(self).state.commit_index
                &&& final(self).log == old(self).log
                &&& final(self).state.commit_index == old(self).state.commit_index
            },
            req.term >= old(self).state.current_term && fed_prev_matches(old(self).log@, req.prev_log_index, req.prev_log_term) ==> {
                let new_log = fed_appended(fed_entry_views(old(self).log@), fed_entry_views(req.entries@));
                &&& fed_entry_views(final(self).log@) == new_log
                &&& resp.success
                &&& resp.match_index == new_log.len()
                &&& req.leader_commit > old(self).state.commit_index ==> {
                    let c = if req.leader_commit <= new_log.len() {
                        req.leader_commit
                    } else {
                        new_log.len() as u64
                    };
                    final(self).state.commit_index == c && final(self).state.last_applied == c
                }
                &&& req.leader_commit <= old(self).state.commit_index ==> final(self).state.commit_index == old(
                    self,
                ).state.commit_index && final(self).state.last_applied == old(self).state.last_applied
            },
    {
        if req.term >= self.state.current_term {
            self.state.current_term = req.term;
            self.state.role = FedRaftRole::Follower;
            self.state.leader_id = Some(req.leader_id.clone());
            self.election_reset = now_ms();
        }
        if req.term < self.state.current_term {
            return FedRaftAppendResponse {
                term: self.state.current_term,
                success: false,
                match_index: self.state.commit_index,
                cluster_id: self.config.cluster_id.clone(),
            };
        }
        if req.prev_log_index > 0 {
            if req.prev_log_index > self.log.len() as u64 {
                return FedRaftAppendResponse {
                    term: self.state.current_term,
                    success: false,
                    match_index: self.state.commit_index,
                    cluster_id: self.config.cluster_id.clone(),
                };
            }
            let idx = (req.prev_log_index - 1) as usize;
            if self.log[idx].term != req.prev_log_term {
                return FedRaftAppendResponse {
                    term: self.state.current_term,
                    success: false,
                    match_index: self.state.commit_index,
                    cluster_id: self.config.cluster_id.clone(),
                };
            }
        }
        let ghost kept = fed_entry_views(self.log@);
        let ghost ev = fed_entry_views(req.entries@);
        let ghost st = self.state;
        let ghost cfg = self.config;
        let mut i: usize = 0;
        assert(ev.take(0) =~= Seq::<FedLogEntryView>::empty());
        while i < req.entries.len()
            invariant
                i <= req.entries@.len(),
                ev == fed_entry_views(req.entries@),
                kept.len() <= old(self).log@.len(),
                self.log@.len() <= kept.len() + i,
                old(self).log@.len() + req.entries@.len() <= usize::MAX,
                fed_entry_views(self.log@) == fed_appended(kept, ev.take(i as int)),
                self.state == st,
                self.config == cfg,
            decreases req.entries@.len() - i,
        {
            assert(ev.take(i + 1).drop_last() =~= ev.take(i as int));
            assert(ev.take(i + 1).last() == req.entries@[i as int]@);
            if req.entries[i].index > self.log.len() as u64 {
                let e = req.entries[i].clone();
                let ghost before = fed_entry_views(self.log@);
                self.log.push(e);
                assert(fed_entry_views(self.log@) =~= before.push(req.entries@[i as int]@));
            }
            i = i + 1;
        }
        assert(ev.take(ev.len() as int) =~= ev);
        let len = self.log.len() as u64;
        if req.leader_commit > self.state.commit_index {
            let c = if req.leader_commit <= len {
                req.leader_commit
            } else {
                len
            };
            self.state.commit_index = c;
            self.state.last_applied = c;
        }
        FedRaftAppendResponse {
            term: self.state.current_term,
            success: true,
            match_index: len,
            cluster_id: self.config.cluster_id.clone(),
        }
    }

    /// Whether this cluster is the leader.
    pub fn is_leader(&self) -> (b: bool)
        ensures
            b == (self.state.role == FedRaftRole::Leader),
    {
        self.state.role == FedRaftRole::Leader
    }

    /// The current leader, if known.
    pub fn leader_id(&self) -> (r: Option<String>)
        ensures
            opt_chars(r) == opt_chars(self.state.leader_id),
    {
        copy_opt_str(&self.state.leader_id)
    }

    /// The current term.
    pub fn current_term(&self) -> (t: u64)
        ensures
            t == self.state.current_term,
    {
        self.state.current_term
    }

    /// The leading entries of the log whose index is at most the last
    /// applied one, stopping at the first that is not.
    pub fn get_committed_entries(&self) -> (r: Vec<FedRaftLogEntry>)
        ensures
            fed_entry_views(r@) == fed_entry_views(self.log@.take(r@.len() as int)),
            r@.len() <= self.log@.len(),
            forall|i: int| 0 <= i < r@.len() ==> (#[trigger] self.log@[i]).index <= self.state.last_applied,
            r@.len() < self.log@.len() ==> self.log@[r@.len() as int].index > self.state.last_applied,
    {
        let mut r: Vec<FedRaftLogEntry> = Vec::new();
        let mut i: usize = 0;
        while i < self.log.len() && self.log[i].index <= self.state.last_applied
            invariant
                i <= self.log@.len(),
                r@.len() == i,
                fed_entry_views(r@) == fed_entry_views(self.log@.take(i as int)),
                forall|k: int| 0 <= k < i ==> (#[trigger] self.log@[k]).index <= self.state.last_applied,
            decreases self.log@.len() - i,
        {
            let ghost before = fed_entry_views(r@);
            r.push(self.log[i].clone());
            assert(fed_entry_views(r@) =~= before.push(self.log@[i as int]@));
            assert(fed_entry_views(self.log@.take(i + 1)) =~= fed_entry_views(self.log@.take(i as int)).push(
                self.log@[i as int]@,
            ));
            i = i + 1;
        }
        r
    }
}

} // verus!
