//! Raft consensus: the decisions of a single node.
//!
//! A node tracks its role, a term that never decreases, a log of entries
//! (each with the term it was created in and its serialized operation) and
//! a commit index. The node here holds that state and decides:
//! how to answer a vote or append-entries request, when an election or a
//! replication round has reached a quorum, and which committed entry to
//! hand to storage next. Sending the requests and delivering entries is left
//! to the caller, which feeds the replies back in.

use vstd::prelude::*;
use crate::cluster::rpc::{
    InstallSnapshotRequest, RaftAppendRequest, RaftAppendResponse, RaftLogEntry, RaftVoteRequest, RaftVoteResponse,
};
use crate::cluster::sync::consensus::{ConsensusConfig, ConsensusRole, ConsensusState};
use crate::text::copy_bytes;

verus! {

/// Each log entry as its term and bytes.
pub open spec fn entry_views(log: Seq<RaftLogEntry>) -> Seq<(u64, Seq<u8>)> {
    log.map_values(|e: RaftLogEntry| e@)
}

/// The characters of an optional string.
pub open spec fn opt_view(o: Option<String>) -> Option<Seq<char>> {
    match o {
        Some(s) => Some(s@),
        None => None,
    }
}

/// A copy of an optional string.
fn copy_opt(o: &Option<String>) -> (r: Option<String>)
    ensures
        opt_view(r) == opt_view(*o),
{
    match o {
        Some(s) => Some(s.clone()),
        None => None,
    }
}

/// Votes (or acknowledgements) needed among a node and its `peer_count`
/// peers: half the peers, rounded up, plus one.
pub open spec fn quorum_of(peer_count: nat) -> nat {
    (peer_count + 1) / 2 + 1
}

/// Votes needed to win among this node and `peer_count` peers.
pub fn election_quorum(peer_count: usize) -> (q: usize)
    ensures
        q == quorum_of(peer_count as nat),
{
    peer_count / 2 + peer_count % 2 + 1
}

/// Any two quorums of the same cluster share a member: each is a strict
/// majority of the node and its peers, and never more than all of them.
pub proof fn lemma_quorums_intersect(peer_count: nat)
    ensures
        2 * quorum_of(peer_count) > peer_count + 1,
        quorum_of(peer_count) <= peer_count + 1,
{
}

/// A snapshot of the replicated state installed on a lagging follower.
pub struct RaftSnapshot {
    /// Log index of the last entry included in the snapshot.
    pub last_included_index: u64,
    /// Term of the last entry included in the snapshot.
    pub last_included_term: u64,
    /// Serialized state data of the snapshot.
    pub data: Vec<u8>,
}

/// A single Raft node's replicated state.
pub struct RaftNode {
    /// Unique ID of this node in the cluster.
    pub node_id: String,
    /// Consensus state: role, term, vote and leader.
    pub state: ConsensusState,
    /// Consensus tuning parameters.
    pub config: ConsensusConfig,
    /// Replicated log: each entry's term and serialized operation.
    pub log: Vec<RaftLogEntry>,
    /// Highest log index known to be committed.
    pub commit_index: u64,
    /// Highest committed index already applied to storage.
    pub last_applied: u64,
    /// Latest installed snapshot, if any.
    pub snapshot: Option<RaftSnapshot>,
    /// ID of the most recently observed leader.
    pub leader_hint: Option<String>,
}

/// What a vote request grants, given the node's state after it has caught
/// up with the request's term: the term is current, the node has not voted
/// for another candidate, and the candidate's log is at least as fresh.
pub open spec fn grants_vote(
    state: ConsensusState,
    log: Seq<RaftLogEntry>,
    req: RaftVoteRequest,
) -> bool {
    &&& req.term >= state.term
    &&& (state.voted_for is None || opt_view(state.voted_for) == Some(req.candidate_id@))
    &&& req.last_log_term >= last_term_of(log)
    &&& req.last_log_index >= log.len()
}

/// The term of the last log entry, zero for an empty log.
pub open spec fn last_term_of(log: Seq<RaftLogEntry>) -> u64 {
    if log.len() == 0 {
        0
    } else {
        log.last().term
    }
}

impl RaftNode {
    /// A follower in term zero with an empty log.
    pub fn new(node_id: String, config: ConsensusConfig) -> (n: Self)
        ensures
            n.node_id == node_id,
            n.config == config,
            n.state.role == ConsensusRole::Follower,
            n.state.term == 0,
            n.state.voted_for is None,
            n.state.leader_id is None,
            n.log@.len() == 0,
            n.commit_index == 0,
            n.last_applied == 0,
            n.snapshot is None,
            n.leader_hint is None,
    {
        RaftNode {
            node_id,
            state: ConsensusState::default(),
            config,
            log: Vec::new(),
            commit_index: 0,
            last_applied: 0,
            snapshot: None,
            leader_hint: None,
        }
    }

    /// The current term.
    pub fn current_term(&self) -> (t: u64)
        ensures
            t == self.state.term,
    {
        self.state.term
    }

    /// Whether this node is the leader.
    pub fn is_leader(&self) -> (b: bool)
        ensures
            b == (self.state.role == ConsensusRole::Leader),
    {
        self.state.role == ConsensusRole::Leader
    }

    /// The current leader, if known.
    pub fn leader_id(&self) -> (r: Option<String>)
        ensures
            opt_view(r) == opt_view(self.state.leader_id),
    {
        copy_opt(&self.state.leader_id)
    }

    /// Index of the last log entry: the number of entries.
    pub fn last_log_index(&self) -> (i: u64)
        ensures
            i == self.log@.len(),
    {
        self.log.len() as u64
    }

    /// Term of the last log entry, zero when the log is empty.
    pub fn last_log_term(&self) -> (t: u64)
        ensures
            t == last_term_of(self.log@),
    {
        if self.log.len() == 0 {
            0
        } else {
            self.log[self.log.len() - 1].term
        }
    }

    /// Appends an entry of the current term holding `data`, and returns its
    /// index.
    pub fn append_entry(&mut self, data: Vec<u8>) -> (index: u64)
        requires
            old(self).log@.len() < u64::MAX,
        ensures
            entry_views(final(self).log@) == entry_views(old(self).log@).push((old(self).state.term, data@)),
            index == old(self).log@.len() + 1,
            final(self).state == old(self).state,
            final(self).commit_index == old(self).commit_index,
            final(self).last_applied == old(self).last_applied,
    {
        let index = self.log.len() as u64 + 1;
        let ghost before = entry_views(self.log@);
        self.log.push(RaftLogEntry { term: self.state.term, data });
        assert(entry_views(self.log@) =~= before.push((self.state.term, data@)));
        index
    }

    /// Steps down to follower for a newer `term`, recording the leader; a
    /// term that is not newer changes nothing.
    pub fn become_follower(&mut self, term: u64, leader_id: Option<String>)
        ensures
            term > old(self).state.term ==> {
                &&& final(self).state.term == term
                &&& final(self).state.role == ConsensusRole::Follower
                &&& final(self).state.voted_for is None
                &&& opt_view(final(self).state.leader_id) == opt_view(leader_id)
                &&& opt_view(final(self).leader_hint) == opt_view(leader_id)
            },
            term <= old(self).state.term ==> final(self).state == old(self).state && final(self).leader_hint
                == old(self).leader_hint,
            final(self).state.last_log_index == old(self).state.last_log_index,
            final(self).log == old(self).log,
            final(self).commit_index == old(self).commit_index,
            final(self).last_applied == old(self).last_applied,
            final(self).node_id == old(self).node_id,
    {
        if term > self.state.term {
            self.state.term = term;
            self.state.role = ConsensusRole::Follower;
            self.state.voted_for = None;
            self.state.leader_id = copy_opt(&leader_id);
            self.leader_hint = leader_id;
        }
    }

    /// Starts an election: the next term, as a candidate that votes for
    /// itself.
    pub fn become_candidate(&mut self)
        requires
            old(self).state.term < u64::MAX,
        ensures
            final(self).state.term == old(self).state.term + 1,
            final(self).state.role == ConsensusRole::Candidate,
            opt_view(final(self).state.voted_for) == Some(old(self).node_id@),
            final(self).state.leader_id is None,
            final(self).log == old(self).log,
            final(self).node_id == old(self).node_id,
            final(self).commit_index == old(self).commit_index,
            final(self).last_applied == old(self).last_applied,
    {
        self.state.term = self.state.term + 1;
        self.state.role = ConsensusRole::Candidate;
        self.state.voted_for = Some(self.node_id.clone());
        self.state.leader_id = None;
    }

    /// Becomes leader for the current term.
    pub fn become_leader(&mut self)
        ensures
            final(self).state.role == ConsensusRole::Leader,
            final(self).state.term == old(self).state.term,
            final(self).state.voted_for == old(self).state.voted_for,
            opt_view(final(self).state.leader_id) == Some(old(self).node_id@),
            opt_view(final(self).leader_hint) == Some(old(self).node_id@),
            final(self).log == old(self).log,
            final(self).node_id == old(self).node_id,
            final(self).commit_index == old(self).commit_index,
            final(self).last_applied == old(self).last_applied,
    {
        self.state.role = ConsensusRole::Leader;
        self.state.leader_id = Some(self.node_id.clone());
        self.leader_hint = Some(self.node_id.clone());
    }
}


/// The state after catching up with a request of term `t`: a newer term
/// turns the node into a follower that has voted for nobody and knows no
/// leader.
pub open spec fn caught_up(state: ConsensusState, t: u64) -> ConsensusState {
    if t > state.term {
        ConsensusState { term: t, role: ConsensusRole::Follower, voted_for: None, leader_id: None, ..state }
    } else {
        state
    }
}

/// Whether a follower's log is consistent with the leader's at the
/// previous index: the index is zero, or the log reaches it and the entry
/// there records the leader's term.
pub open spec fn prev_matches(log: Seq<RaftLogEntry>, prev_index: u64, prev_term: u64) -> bool {
    prev_index == 0 || (prev_index <= log.len() && log[prev_index - 1].term == prev_term)
}

/// A consistent follower's log after an append: unchanged by a heartbeat
/// (no entries); otherwise the entries up to the previous index, then the
/// new entries.
pub open spec fn appended_log(log: Seq<RaftLogEntry>, prev_index: u64, entries: Seq<RaftLogEntry>) -> Seq<(u64, Seq<u8>)> {
    if entries.len() == 0 {
        entry_views(log)
    } else {
        entry_views(log.take(prev_index as int)) + entry_views(entries)
    }
}

/// How a node answers a vote request, `old` before and `new` after: a newer
/// term first turns it into a follower; the vote is granted when the
/// request's term is current, it has voted for nobody else in that term,
/// and the candidate's log is at least as fresh. Log, cursors and leader
/// hint stay.
pub open spec fn vote_answered(old: RaftNode, new: RaftNode, req: RaftVoteRequest, resp: RaftVoteResponse) -> bool {
    let s1 = caught_up(old.state, req.term);
    let granted = grants_vote(s1, old.log@, req);
    &&& resp.vote_granted == granted
    &&& granted ==> new.state == (ConsensusState { voted_for: new.state.voted_for, term: req.term, ..s1 })
        && opt_view(new.state.voted_for) == Some(req.candidate_id@)
    &&& !granted ==> new.state == s1
    &&& resp.term == new.state.term
    &&& resp.node_id@ == old.node_id@
    &&& new.log == old.log
    &&& new.node_id == old.node_id
    &&& new.commit_index == old.commit_index
    &&& new.last_applied == old.last_applied
    &&& new.leader_hint == old.leader_hint
}

/// How a node answers an append-entries request, `old` before and `new`
/// after: a stale term is refused with nothing changed; otherwise the node
/// follows the request's leader in its term, refuses a request whose
/// previous index its log does not match (beyond the log, or another term
/// there) leaving its log and commit index as they were, and else appends
/// the entries after the previous index and takes the leader's commit
/// index, capped by its log.
pub open spec fn append_answered(old: RaftNode, new: RaftNode, req: RaftAppendRequest, resp: RaftAppendResponse) -> bool {
    &&& resp.node_id@ == old.node_id@
    &&& new.node_id == old.node_id
    &&& new.last_applied == old.last_applied
    &&& req.term < old.state.term ==> {
        &&& new.state == old.state
        &&& new.log == old.log
        &&& new.commit_index == old.commit_index
        &&& new.leader_hint == old.leader_hint
        &&& !resp.success
        &&& resp.term == old.state.term
        &&& resp.match_index == 0
        &&& resp.last_log_index == old.log@.len()
    }
    &&& req.term >= old.state.term ==> {
        &&& new.state == (ConsensusState {
            term: req.term,
            role: ConsensusRole::Follower,
            leader_id: new.state.leader_id,
            ..old.state
        })
        &&& opt_view(new.state.leader_id) == Some(req.leader_id@)
        &&& opt_view(new.leader_hint) == Some(req.leader_id@)
        &&& resp.term == req.term
    }
    &&& req.term >= old.state.term && !prev_matches(old.log@, req.prev_log_index, req.prev_log_term) ==> {
        &&& new.log == old.log
        &&& new.commit_index == old.commit_index
        &&& !resp.success
        &&& resp.match_index == 0
        &&& resp.last_log_index == old.log@.len()
    }
    &&& req.term >= old.state.term && prev_matches(old.log@, req.prev_log_index, req.prev_log_term) ==> {
        &&& entry_views(new.log@) == appended_log(old.log@, req.prev_log_index, req.entries@)
        &&& new.commit_index == if req.leader_commit <= new.log@.len() {
            req.leader_commit
        } else {
            new.log@.len() as u64
        }
        &&& resp.success
        &&& resp.match_index == new.log@.len()
        &&& resp.last_log_index == new.log@.len()
    }
}

impl RaftNode {
    /// Answers a candidate's vote request. A newer term first turns this
    /// node into a follower; the vote is granted when the request's term is
    /// current, this node has voted for nobody else in it, and the
    /// candidate's log is at least as fresh as this node's.
    pub fn handle_request_vote(&mut self, req: &RaftVoteRequest) -> (resp: RaftVoteResponse)
        ensures
            vote_answered(*old(self), *final(self), *req, resp),
    {
        let last_log_index = self.last_log_index();
        let last_log_term = self.last_log_term();
        if req.term > self.state.term {
            self.state.term = req.term;
            self.state.role = ConsensusRole::Follower;
            self.state.voted_for = None;
            self.state.leader_id = None;
        }
        let free = match &self.state.voted_for {
            Some(v) => *v == req.candidate_id,
            None => true,
        };
        let mut vote_granted = false;
        if req.term >= self.state.term && free && req.last_log_term >= last_log_term && req.last_log_index
            >= last_log_index {
            vote_granted = true;
            self.state.voted_for = Some(req.candidate_id.clone());
            self.state.term = req.term;
        }
        RaftVoteResponse { term: self.state.term, vote_granted, node_id: self.node_id.clone() }
    }

    /// Answers a leader's append-entries request (a heartbeat when it
    /// carries no entries). A request of a stale term is refused. The log
    /// is checked for consistency at the previous index: a request whose
    /// previous index lies beyond the log, or whose entry there records
    /// another term, is refused with the log left as it was. Otherwise the
    /// entries after the previous index give way to the new ones, and the
    /// commit index becomes the leader's, capped by the log length.
    pub fn handle_append_entries(&mut self, req: &RaftAppendRequest) -> (resp: RaftAppendResponse)
        requires
            old(self).log@.len() + req.entries@.len() <= usize::MAX,
        ensures
            append_answered(*old(self), *final(self), *req, resp),
    {
        if req.term >= self.state.term {
            self.state.term = req.term;
            self.state.role = ConsensusRole::Follower;
            self.state.leader_id = Some(req.leader_id.clone());
            self.leader_hint = Some(req.leader_id.clone());
        }
        if req.term < self.state.term {
            return RaftAppendResponse {
                term: self.state.term,
                success: false,
                match_index: 0,
                node_id: self.node_id.clone(),
                last_log_index: self.log.len() as u64,
            };
        }
        if req.prev_log_index > 0 && req.prev_log_index > self.log.len() as u64 {
            return RaftAppendResponse {
                term: self.state.term,
                success: false,
                match_index: 0,
                node_id: self.node_id.clone(),
                last_log_index: self.log.len() as u64,
            };
        }
        let ghost log0 = self.log@;
        if req.prev_log_index > 0 {
            let prev_idx = (req.prev_log_index - 1) as usize;
            if self.log[prev_idx].term != req.prev_log_term {
                return RaftAppendResponse {
                    term: self.state.term,
                    success: false,
                    match_index: 0,
                    node_id: self.node_id.clone(),
                    last_log_index: self.log.len() as u64,
                };
            }
        }
        if req.entries.len() > 0 {
            self.log.truncate(req.prev_log_index as usize);
        }
        let ghost kept = self.log@;
        let ghost st = self.state;
        let ghost lh = self.leader_hint;
        let mut i: usize = 0;
        while i < req.entries.len()
            invariant
                self.node_id == old(self).node_id,
                self.last_applied == old(self).last_applied,
                self.state == st,
                self.leader_hint == lh,
                i <= req.entries@.len(),
                kept.len() <= log0.len(),
                log0.len() + req.entries@.len() <= usize::MAX,
                entry_views(self.log@) == entry_views(kept) + entry_views(req.entries@.take(i as int)),
                self.log@.len() == kept.len() + i,
            decreases req.entries@.len() - i,
        {
            let e = req.entries[i].clone();
            let ghost before = self.log@;
            self.log.push(e);
            assert(entry_views(self.log@) =~= entry_views(before).push(req.entries@[i as int]@));
            assert(entry_views(req.entries@.take(i + 1)) =~= entry_views(req.entries@.take(i as int)).push(
                req.entries@[i as int]@,
            ));
            i = i + 1;
        }
        assert(req.entries@.take(req.entries@.len() as int) =~= req.entries@);
        proof {
            if req.entries@.len() == 0 {
                assert(entry_views(self.log@) =~= entry_views(log0));
            } else {
                assert(kept =~= log0.take(req.prev_log_index as int));
            }
        }
        let len = self.log.len() as u64;
        self.commit_index = if req.leader_commit <= len {
            req.leader_commit
        } else {
            len
        };
        RaftAppendResponse {
            term: self.state.term,
            success: true,
            match_index: len,
            node_id: self.node_id.clone(),
            last_log_index: len,
        }
    }
}

impl RaftNode {
    /// Takes in a chunk of a leader's snapshot. A current or newer term
    /// makes this node a follower of that leader. The first chunk (offset
    /// zero) starts a new snapshot; later chunks extend its data. On the
    /// last chunk the log is cleared and the commit and apply cursors move
    /// to the snapshot's last included index.
    pub fn handle_install_snapshot(&mut self, req: &InstallSnapshotRequest)
        ensures
            req.term >= old(self).state.term ==> final(self).state == (ConsensusState {
                term: req.term,
                role: ConsensusRole::Follower,
                leader_id: final(self).state.leader_id,
                ..old(self).state
            }) && opt_view(final(self).state.leader_id) == Some(req.leader_id@),
            req.term < old(self).state.term ==> final(self).state == old(self).state,
            (final(self).snapshot matches Some(snap) && {
                let (idx, data) = if req.offset == 0 {
                    (req.last_included_index, req.data@)
                } else {
                    match old(self).snapshot {
                        Some(prev) => (prev.last_included_index, prev.data@ + req.data@),
                        None => (0, req.data@),
                    }
                };
                &&& snap.last_included_index == idx
                &&& snap.data@ == data
                &&& req.done ==> final(self).log@.len() == 0 && final(self).commit_index == idx
                    && final(self).last_applied == idx
                &&& !req.done ==> final(self).log == old(self).log && final(self).commit_index == old(
                    self,
                ).commit_index && final(self).last_applied == old(self).last_applied
            }),
            final(self).node_id == old(self).node_id,
    {
        if req.term >= self.state.term {
            self.state.term = req.term;
            self.state.role = ConsensusRole::Follower;
            self.state.leader_id = Some(req.leader_id.clone());
        }
        let mut existing = match self.snapshot.take() {
            Some(snap) => snap,
            None => RaftSnapshot { last_included_index: 0, last_included_term: 0, data: Vec::new() },
        };
        if req.offset == 0 {
            existing = RaftSnapshot {
                last_included_index: req.last_included_index,
                last_included_term: req.last_included_term,
                data: copy_bytes(&req.data),
            };
        } else {
            let mut i: usize = 0;
            let ghost d0 = existing.data@;
            let ghost idx0 = existing.last_included_index;
            let ghost st = self.state;
            while i < req.data.len()
                invariant
                    self.log == old(self).log,
                    self.commit_index == old(self).commit_index,
                    self.last_applied == old(self).last_applied,
                    self.node_id == old(self).node_id,
                    self.state == st,
                    existing.last_included_index == idx0,
                    i <= req.data@.len(),
                    existing.data@ == d0 + req.data@.take(i as int),
                decreases req.data@.len() - i,
            {
                existing.data.push(req.data[i]);
                assert(d0 + req.data@.take(i + 1) =~= (d0 + req.data@.take(i as int)).push(req.data@[i as int]));
                i = i + 1;
            }
            assert(req.data@.take(req.data@.len() as int) =~= req.data@);
        }
        if req.done {
            self.log = Vec::new();
            self.commit_index = existing.last_included_index;
            self.last_applied = existing.last_included_index;
        }
        self.snapshot = Some(existing);
    }

    /// The vote request this node sends as a candidate.
    pub fn vote_request(&self) -> (req: RaftVoteRequest)
        ensures
            req.term == self.state.term,
            req.candidate_id@ == self.node_id@,
            req.last_log_index == self.log@.len(),
            req.last_log_term == last_term_of(self.log@),
    {
        RaftVoteRequest {
            term: self.state.term,
            candidate_id: self.node_id.clone(),
            last_log_index: self.last_log_index(),
            last_log_term: self.last_log_term(),
        }
    }

    /// Takes in a peer's answer during an election for `election_term`:
    /// `Some(true)` for a granted vote, `Some(false)` for a refusal, and
    /// `None` when the peer reports a newer term, in which case this node
    /// steps down and the election ends.
    pub fn on_vote_response(&mut self, election_term: u64, resp: &RaftVoteResponse) -> (r: Option<bool>)
        ensures
            resp.vote_granted ==> r == Some(true) && *final(self) == *old(self),
            !resp.vote_granted && resp.term <= election_term ==> r == Some(false) && *final(self) == *old(self),
            !resp.vote_granted && resp.term > election_term ==> r is None && (resp.term > old(self).state.term
                ==> final(self).state.term == resp.term && final(self).state.role == ConsensusRole::Follower
                && final(self).state.voted_for is None),
            final(self).log == old(self).log,
            final(self).state.term >= old(self).state.term,
    {
        if resp.vote_granted {
            Some(true)
        } else if resp.term > election_term {
            self.become_follower(resp.term, None);
            None
        } else {
            Some(false)
        }
    }

    /// Ends an election for `election_term` with `votes_received` votes
    /// (its own included) among itself and `peer_count` peers: with a quorum
    /// it becomes leader; otherwise it steps down, which changes nothing
    /// unless its term has moved past `election_term`.
    pub fn conclude_election(&mut self, election_term: u64, votes_received: usize, peer_count: usize) -> (won: bool)
        ensures
            won == (votes_received >= quorum_of(peer_count as nat)),
            won ==> final(self).state.role == ConsensusRole::Leader && final(self).state.term == old(
                self,
            ).state.term && opt_view(final(self).state.leader_id) == Some(old(self).node_id@),
            !won && election_term <= old(self).state.term ==> final(self).state == old(self).state,
            final(self).log == old(self).log,
            final(self).state.term >= old(self).state.term,
    {
        if votes_received >= election_quorum(peer_count) {
            self.become_leader();
            true
        } else {
            self.become_follower(election_term, None);
            false
        }
    }

    /// Appends an entry as leader and returns its index with the index and
    /// term of the entry before it.
    pub fn prepare_replication(&mut self, entry_data: Vec<u8>) -> (r: (u64, u64, u64))
        requires
            old(self).log@.len() < u64::MAX,
        ensures
            entry_views(final(self).log@) == entry_views(old(self).log@).push((old(self).state.term, entry_data@)),
            r.0 == old(self).log@.len() + 1,
            r.1 == old(self).log@.len(),
            r.2 == last_term_of(old(self).log@),
            final(self).state == old(self).state,
            final(self).commit_index == old(self).commit_index,
    {
        let prev_log_term = self.last_log_term();
        let index = self.append_entry(entry_data);
        (index, index - 1, prev_log_term)
    }

    /// Takes in a follower's answer to a replication round in `term`:
    /// `Some(true)` for an accepted entry, `Some(false)` for a refusal, and
    /// `None` when the follower reports a newer term, in which case this
    /// node steps down as a stale leader.
    pub fn on_append_response(&mut self, term: u64, resp: &RaftAppendResponse) -> (r: Option<bool>)
        ensures
            resp.success ==> r == Some(true) && *final(self) == *old(self),
            !resp.success && resp.term <= term ==> r == Some(false) && *final(self) == *old(self),
            !resp.success && resp.term > term ==> r is None && (resp.term > old(self).state.term
                ==> final(self).state.term == resp.term && final(self).state.role
                == ConsensusRole::Follower),
            final(self).log == old(self).log,
            final(self).state.term >= old(self).state.term,
    {
        if resp.success {
            Some(true)
        } else if resp.term > term {
            self.become_follower(resp.term, None);
            None
        } else {
            Some(false)
        }
    }

    /// Ends a replication round of the entry at `index` with `successes`
    /// acknowledgements (its own included) among itself and `peer_count`
    /// peers: with a quorum the commit index moves up to `index`.
    pub fn commit_replicated(&mut self, successes: usize, peer_count: usize, index: u64) -> (committed: bool)
        ensures
            committed == (successes >= quorum_of(peer_count as nat)),
            committed ==> final(self).commit_index == if old(self).commit_index >= index {
                old(self).commit_index
            } else {
                index
            },
            !committed ==> final(self).commit_index == old(self).commit_index,
            final(self).state == old(self).state,
            final(self).log == old(self).log,
            final(self).last_applied == old(self).last_applied,
    {
        if successes >= election_quorum(peer_count) {
            if index > self.commit_index {
                self.commit_index = index;
            }
            true
        } else {
            false
        }
    }

    /// The next committed entry to hand to storage, if any: the one after
    /// the last applied, when it is committed and present in the log.
    pub fn next_to_apply(&self) -> (r: Option<Vec<u8>>)
        ensures
            (self.last_applied < self.commit_index && self.last_applied < self.log@.len()) ==> (r matches Some(
                e,
            ) && e@ == self.log@[self.last_applied as int].data@),
            !(self.last_applied < self.commit_index && self.last_applied < self.log@.len()) ==> r is None,
    {
        if self.last_applied < self.commit_index && self.last_applied < self.log.len() as u64 {
            Some(copy_bytes(&self.log[self.last_applied as usize].data))
        } else {
            None
        }
    }

    /// Records that the next committed entry was handed to storage.
    pub fn mark_applied(&mut self)
        requires
            old(self).last_applied < old(self).commit_index,
        ensures
            final(self).last_applied == old(self).last_applied + 1,
            final(self).commit_index == old(self).commit_index,
            final(self).log == old(self).log,
            final(self).state == old(self).state,
    {
        self.last_applied = self.last_applied + 1;
    }

    /// The heartbeat this node sends as leader: an append-entries request
    /// with no entries, pointing at the end of its log.
    pub fn heartbeat_request(&self) -> (req: RaftAppendRequest)
        ensures
            req.term == self.state.term,
            req.leader_id@ == self.node_id@,
            req.prev_log_index == self.log@.len(),
            req.prev_log_term == last_term_of(self.log@),
            req.entries@.len() == 0,
            req.leader_commit == self.commit_index,
    {
        RaftAppendRequest {
            term: self.state.term,
            leader_id: self.node_id.clone(),
            prev_log_index: self.last_log_index(),
            prev_log_term: self.last_log_term(),
            entries: Vec::new(),
            leader_commit: self.commit_index,
        }
    }
}

/// A node that has voted for one candidate in a term grants no vote to
/// another candidate in that same term.
pub proof fn lemma_one_vote_per_term(state: ConsensusState, log: Seq<RaftLogEntry>, req: RaftVoteRequest)
    requires
        state.voted_for is Some,
        opt_view(state.voted_for) != Some(req.candidate_id@),
        req.term <= state.term,
    ensures
        !grants_vote(caught_up(state, req.term), log, req),
{
}

/// Catching up with a request never lowers the term.
pub proof fn lemma_terms_never_decrease(state: ConsensusState, t: u64)
    ensures
        caught_up(state, t).term >= state.term,
        caught_up(state, t).term >= t,
{
}
/// The voting rule. A vote is granted exactly when the request's term is
/// no older than the voter's, the voter has not already voted for another
/// candidate in that term (a newer term frees its vote), and the
/// candidate's log is at least as up to date as the voter's: its last term
/// is no older than the term of the voter's last entry (zero for an empty
/// log), and its last index is no smaller than the voter's log length. The
/// answer carries the newer of the two terms; a granted vote records the
/// candidate; the log never changes.
pub proof fn lemma_vote_rule(old: RaftNode, new: RaftNode, req: RaftVoteRequest, resp: RaftVoteResponse)
    requires
        vote_answered(old, new, req, resp),
    ensures
        resp.vote_granted <==> {
            &&& req.term >= old.state.term
            &&& (req.term > old.state.term || old.state.voted_for is None || opt_view(old.state.voted_for) == Some(
                req.candidate_id@,
            ))
            &&& (old.log@.len() == 0 || req.last_log_term >= old.log@[old.log@.len() - 1].term)
            &&& req.last_log_index >= old.log@.len()
        },
        resp.term == (if req.term > old.state.term { req.term } else { old.state.term }),
        new.state.term == resp.term,
        resp.vote_granted ==> opt_view(new.state.voted_for) == Some(req.candidate_id@),
        !resp.vote_granted && req.term > old.state.term ==> new.state.voted_for is None,
        !resp.vote_granted && req.term <= old.state.term ==> new.state.voted_for == old.state.voted_for,
        req.term > old.state.term ==> new.state.role == ConsensusRole::Follower,
        new.log == old.log,
{
}

/// The append rule. A request succeeds exactly when its term is no older
/// than the follower's and the follower's log is consistent with the
/// leader's at the previous index: that index is zero, or the log reaches
/// it and the entry there records the previous term. On success with
/// entries, the log keeps its entries up to the previous index and then
/// holds the request's entries, in order; a heartbeat leaves it as it was,
/// and so does a refusal. The commit index becomes the leader's, capped by
/// the log length; the answer carries the newer of the two terms.
pub proof fn lemma_append_rule(old: RaftNode, new: RaftNode, req: RaftAppendRequest, resp: RaftAppendResponse)
    requires
        append_answered(old, new, req, resp),
    ensures
        resp.success <==> (req.term >= old.state.term && (req.prev_log_index == 0 || (req.prev_log_index
            <= old.log@.len() && old.log@[req.prev_log_index - 1].term == req.prev_log_term))),
        resp.term == (if req.term >= old.state.term { req.term } else { old.state.term }),
        !resp.success ==> new.log == old.log,
        resp.success && req.entries@.len() == 0 ==> new.log@.len() == old.log@.len() && forall|k: int|
            0 <= k < old.log@.len() ==> (#[trigger] new.log@[k])@ == old.log@[k]@,
        resp.success && req.entries@.len() > 0 ==> {
            &&& new.log@.len() == req.prev_log_index + req.entries@.len()
            &&& forall|k: int| 0 <= k < req.prev_log_index ==> (#[trigger] new.log@[k])@ == old.log@[k]@
            &&& forall|k: int| 0 <= k < req.entries@.len() ==> new.log@[req.prev_log_index + k]@ == (#[trigger] req.entries@[k])@
        },
        resp.success ==> new.commit_index == (if req.leader_commit <= new.log@.len() {
            req.leader_commit
        } else {
            new.log@.len() as u64
        }),
        resp.success ==> resp.match_index == new.log@.len(),
{
    if resp.success {
        let nv = entry_views(new.log@);
        assert(nv.len() == new.log@.len());
        if req.entries@.len() == 0 {
            assert forall|k: int| 0 <= k < old.log@.len() implies (#[trigger] new.log@[k])@ == old.log@[k]@ by {
                assert(nv[k] == new.log@[k]@);
                assert(entry_views(old.log@)[k] == old.log@[k]@);
            }
        } else {
            let p = req.prev_log_index as int;
            let a = entry_views(old.log@.take(p));
            let b = entry_views(req.entries@);
            assert(nv == a + b);
            assert(a.len() == p);
            assert forall|k: int| 0 <= k < p implies (#[trigger] new.log@[k])@ == old.log@[k]@ by {
                assert(nv[k] == new.log@[k]@);
                assert(a[k] == old.log@.take(p)[k]@);
            }
            assert forall|k: int| 0 <= k < req.entries@.len() implies new.log@[p + k]@ == (#[trigger] req.entries@[k])@ by {
                assert(nv[p + k] == new.log@[p + k]@);
                assert((a + b)[p + k] == b[k]);
            }
        }
    }
}

} // verus!
