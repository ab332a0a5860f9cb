//! Cluster coordination: membership, Raft, sharding, replication,
//! federation, data synchronization and reconciliation.
//!
//! [`ClusterManager`] ties a node's membership table, shard ring and Raft
//! state together and answers the requests other nodes send it; sending
//! and receiving the bytes is left to the caller.

pub mod domain;
pub mod federation;
pub mod gateway;
pub mod federated_raft;
pub mod membership;
pub mod raft;
pub mod replication;
pub mod rpc;
pub mod shard;
pub mod sync;

use vstd::prelude::*;
use crate::cluster::membership::{
    after_add, after_report, describes, member_views, with_status, ClusterMember, MemberStatus, MemberView,
    MembershipManager,
};
use crate::cluster::raft::{append_answered, opt_view, vote_answered, RaftNode};
use crate::cluster::rpc::{
    AckMessage, ClusterNodeInfo, JoinRequest, JoinResponse, MetadataSyncMessage, PingMessage, PingReqMessage, RaftAppendRequest,
    RaftAppendResponse, RaftVoteRequest, RaftVoteResponse, ReplicaWriteAck, ShardTransferRequest,
};
use crate::cluster::shard::{hash_string, string_hash, ShardManager};
use crate::cluster::sync::consensus::{ConsensusConfig, ConsensusRole};
use crate::text::{copy_strings, owned, str_eq, word_views};

verus! {

/// Snapshot of cluster health and leadership.
pub struct ClusterStatusInfo {
    /// ID of the reporting node.
    pub node_id: String,
    /// Total number of nodes in the cluster (including this node).
    pub cluster_size: usize,
    /// Number of nodes currently considered alive.
    pub alive_count: usize,
    /// Whether this node is the current Raft leader.
    pub is_leader: bool,
    /// ID of the current leader, if known.
    pub leader_id: Option<String>,
    /// Health classification: `Healthy`, `Degraded` or `Standalone`.
    pub health_status: &'static str,
    /// Configured replication factor.
    pub replication_factor: u32,
    /// Uptime of the cluster manager in milliseconds.
    pub uptime_ms: u64,
}

/// Role a node can play in the cluster.
#[derive(Debug, Clone, Copy, PartialEq, Eq, Structural)]
pub enum NodeRole {
    /// Coordinates cluster-wide operations.
    Coordinator,
    /// Executes work on behalf of the cluster.
    Worker,
    /// Stores data shards.
    Storage,
    /// Serves the external API.
    Api,
}

/// A planned shard movement from a source node to a target node.
pub struct ShardMigration {
    /// ID of the shard being moved.
    pub shard_id: String,
    /// Node currently hosting the shard.
    pub source_node: String,
    /// Node that should host the shard.
    pub target_node: String,
    /// Estimated time for the migration in milliseconds.
    pub estimated_time_ms: u64,
}

/// Kind of failover action to perform.
#[derive(Debug, Clone, Copy, PartialEq, Eq, Structural)]
pub enum FailoverActionType {
    /// Promote a replica to primary.
    PromoteReplica,
    /// Elect a new coordinator.
    ElectNewCoordinator,
    /// Redistribute data across nodes.
    RedistributeData,
    /// Restart a failed service.
    RestartService,
}

/// Priority of a failover action.
#[derive(Debug, Clone, Copy, PartialEq, Eq, Structural)]
pub enum ActionPriority {
    /// Must be handled immediately.
    Critical,
    /// Should be handled soon.
    High,
    /// Best-effort handling.
    Medium,
    /// Handle when convenient.
    Low,
}

/// A concrete action to take when a node or role fails.
pub struct FailoverAction {
    /// Kind of failover action to perform.
    pub action_type: FailoverActionType,
    /// Node the action applies to.
    pub target_node: String,
    /// Human-readable description of the action.
    pub description: String,
    /// How urgent the action is.
    pub priority: ActionPriority,
}

/// A request one node sends another, as far as the receiving node reads it.
pub enum RpcCall {
    /// A node asks to join the cluster.
    JoinRequest(JoinRequest),
    /// A direct liveness probe.
    Ping(PingMessage),
    /// An indirect liveness probe on another node.
    PingReq(PingReqMessage),
    /// A heartbeat from the node `node_id`.
    Heartbeat { node_id: String },
    /// A Raft candidate asks for a vote.
    RequestVote(RaftVoteRequest),
    /// A Raft leader replicates entries (or sends a heartbeat).
    AppendEntries(RaftAppendRequest),
    /// A replica write of operation `operation_id` in Raft term `term`.
    ReplicaWrite { operation_id: String, term: u64 },
    /// A replica read.
    ReplicaRead,
    /// A metadata exchange.
    MetadataSync,
    /// The start of a shard transfer.
    ShardTransfer(ShardTransferRequest),
    /// Any other message: this node does not handle it.
    Other,
}

/// The answer a node gives to an [`RpcCall`].
pub enum RpcReply {
    /// Answer to a join request.
    JoinResponse(JoinResponse),
    /// Answer to a ping or ping-req.
    Ack(AckMessage),
    /// Heartbeat answer from `node_id`: term zero, no leader, no load.
    Heartbeat { node_id: String },
    /// Answer to a vote request.
    VoteResponse(RaftVoteResponse),
    /// Answer to an append-entries request.
    AppendEntriesResponse(RaftAppendResponse),
    /// Acknowledgement of a replica write.
    ReplicaWriteAck(ReplicaWriteAck),
    /// Answer to a replica read from `node_id`; `found` tells whether a
    /// record was found (no data is carried back).
    ReplicaReadResponse { found: bool, node_id: String },
    /// Answer to a metadata exchange.
    MetadataSync(MetadataSyncMessage),
    /// Echo of a shard transfer request.
    ShardTransfer(ShardTransferRequest),
}

/// The health classification of a cluster with `alive` nodes.
pub open spec fn health_of(alive: nat) -> Seq<char> {
    if alive >= 3 {
        "Healthy"@
    } else if alive > 1 {
        "Degraded"@
    } else {
        "Standalone"@
    }
}

/// The nodes of a shard ring after `n` joins: it is added at the end unless
/// it is already there.
pub open spec fn with_node(nodes: Seq<Seq<char>>, n: Seq<char>) -> Seq<Seq<char>> {
    if nodes.contains(n) {
        nodes
    } else {
        nodes.push(n)
    }
}

/// The member recorded for a node that joins, or that is registered, at
/// `now`: alive at incarnation one.
pub open spec fn fresh_member(id: Seq<char>, address: Seq<char>, port: u16, roles: Seq<Seq<char>>, now: u64) -> MemberView {
    MemberView {
        node_id: id,
        address,
        port,
        status: MemberStatus::Alive,
        incarnation: 1,
        last_seen: now,
        roles,
    }
}

/// The text that `{:?}` gives an optional string: `None`, or `Some(`, the
/// string quoted with `Debug`'s escapes, and `)`.
pub uninterp spec fn option_debug_text(o: Option<Seq<char>>) -> Seq<char>;

/// `format!("{:?}", o)` on an optional string. The escaping rules of
/// `Debug` are not restated: the text is named by `option_debug_text`.
#[verifier::external_body]
fn option_debug(o: &Option<String>) -> (r: String)
    ensures
        r@ == option_debug_text(opt_view(*o)),
{
    format!("{:?}", o)
}

/// The error a node that is not the leader gives to a proposal.
pub open spec fn not_leader_message(leader: Option<Seq<char>>) -> Seq<char> {
    "Not the leader, leader is "@ + option_debug_text(leader)
}

/// The top-level coordinator of a node: its membership table, its shard
/// ring and, once started, its Raft state.
pub struct ClusterManager {
    /// Unique identifier of this node within the cluster.
    pub node_id: String,
    /// Address this node binds for cluster RPC.
    pub address: String,
    /// Port this node's RPC server listens on.
    pub port: u16,
    /// Whether cluster mode is enabled.
    pub enabled: bool,
    /// Membership table tracking peer liveness.
    pub membership: MembershipManager,
    /// Consistent-hash shard manager.
    pub shard_manager: ShardManager,
    /// Raft node; none until Raft is initialized.
    pub raft_node: Option<RaftNode>,
    /// Whether the manager finished initialization.
    pub initialized: bool,
    /// Whether the peer set has been wired up.
    pub peers_initialized: bool,
}

/// Whether an append-entries request fits the node's log (a limit of the
/// machine: the log and the new entries together are counted in `usize`).
pub open spec fn append_fits(raft: Option<RaftNode>, call: RpcCall) -> bool {
    match (raft, call) {
        (Some(n), RpcCall::AppendEntries(req)) => n.log@.len() + req.entries@.len() <= usize::MAX,
        _ => true,
    }
}

/// What answering `call` at `now` does to a manager, `old` before and `new`
/// after, and what it answers.
pub open spec fn rpc_handled(old: ClusterManager, new: ClusterManager, call: RpcCall, now: u64, r: Result<RpcReply, String>) -> bool {
    let members0 = member_views(old.membership.members@);
    let members1 = member_views(new.membership.members@);
    let nodes0 = word_views(old.shard_manager.nodes@);
    let nodes1 = word_views(new.shard_manager.nodes@);
    &&& new.node_id == old.node_id
    &&& new.enabled == old.enabled
    &&& new.initialized == old.initialized
    &&& new.peers_initialized == old.peers_initialized
    &&& match call {
        RpcCall::JoinRequest(req) => {
            &&& members1 == after_add(
                members0,
                fresh_member(req.node_id@, req.address@, req.port, word_views(req.roles@), now),
            )
            &&& nodes1 == with_node(nodes0, req.node_id@)
            &&& new.raft_node == old.raft_node
            &&& r matches Ok(RpcReply::JoinResponse(resp)) && {
                &&& resp.accepted
                &&& opt_view(resp.leader_id) == Some(old.membership.node_id@)
                &&& resp.error is None
                &&& resp.cluster_nodes@.len() == old.membership.members.entry_seq().len()
                &&& forall|i: int|
                    0 <= i < resp.cluster_nodes@.len() ==> describes(
                        #[trigger] resp.cluster_nodes@[i],
                        old.membership.members.entry_seq()[i].1@,
                    )
            }
        },
        RpcCall::Ping(p) => {
            &&& members1 == if p.sender_id@ != old.node_id@ {
                after_report(members0, p.sender_id@, MemberStatus::Alive, p.incarnation, Some(now))
            } else {
                members0
            }
            &&& new.shard_manager == old.shard_manager
            &&& new.raft_node == old.raft_node
            &&& r matches Ok(RpcReply::Ack(a)) && a.sender_id@ == old.node_id@ && a.sequence == p.sequence && a.ok
        },
        RpcCall::PingReq(p) => {
            &&& new.membership == old.membership
            &&& new.shard_manager == old.shard_manager
            &&& new.raft_node == old.raft_node
            &&& r matches Ok(RpcReply::Ack(a)) && a.sender_id@ == old.node_id@ && a.sequence == p.sequence && a.ok
                == old.membership.members@.contains_key(p.target_id@)
        },
        RpcCall::Heartbeat { node_id } => {
            &&& members1 == if node_id@ != old.node_id@ {
                after_report(members0, node_id@, MemberStatus::Alive, 1, Some(now))
            } else {
                members0
            }
            &&& new.shard_manager == old.shard_manager
            &&& new.raft_node == old.raft_node
            &&& r matches Ok(RpcReply::Heartbeat { node_id: me }) && me@ == old.node_id@
        },
        RpcCall::RequestVote(req) => {
            &&& new.membership == old.membership
            &&& new.shard_manager == old.shard_manager
            &&& r matches Ok(RpcReply::VoteResponse(resp)) && match old.raft_node {
                Some(n0) => new.raft_node matches Some(n1) && vote_answered(n0, n1, req, resp),
                None => new.raft_node is None && resp.term == 0 && !resp.vote_granted && resp.node_id@
                    == old.node_id@,
            }
        },
        RpcCall::AppendEntries(req) => {
            &&& new.membership == old.membership
            &&& new.shard_manager == old.shard_manager
            &&& r matches Ok(RpcReply::AppendEntriesResponse(resp)) && match old.raft_node {
                Some(n0) => new.raft_node matches Some(n1) && append_answered(n0, n1, req, resp),
                None => new.raft_node is None && resp.term == 0 && !resp.success && resp.match_index == 0
                    && resp.last_log_index == 0 && resp.node_id@ == old.node_id@,
            }
        },
        RpcCall::ReplicaWrite { operation_id, term } => {
            &&& new.membership == old.membership
            &&& new.shard_manager == old.shard_manager
            &&& new.raft_node == old.raft_node
            &&& r matches Ok(RpcReply::ReplicaWriteAck(a)) && a.operation_id@ == operation_id@ && a.node_id@
                == old.node_id@ && a.success && a.term == term
        },
        RpcCall::ReplicaRead => {
            &&& new.membership == old.membership
            &&& new.shard_manager == old.shard_manager
            &&& new.raft_node == old.raft_node
            &&& r matches Ok(RpcReply::ReplicaReadResponse { found, node_id }) && !found && node_id@
                == old.node_id@
        },
        RpcCall::MetadataSync => {
            &&& new.membership == old.membership
            &&& new.shard_manager == old.shard_manager
            &&& new.raft_node == old.raft_node
            &&& r matches Ok(RpcReply::MetadataSync(m)) && m.node_id@ == old.node_id@ && m.term == 0
                && m.shard_count == 0 && m.total_records == 0 && m.checksum@.len() == 0
        },
        RpcCall::ShardTransfer(req) => {
            &&& new.membership == old.membership
            &&& new.shard_manager == old.shard_manager
            &&& new.raft_node == old.raft_node
            &&& r == Ok::<RpcReply, String>(RpcReply::ShardTransfer(req))
        },
        RpcCall::Other => {
            &&& new.membership == old.membership
            &&& new.shard_manager == old.shard_manager
            &&& new.raft_node == old.raft_node
            &&& r matches Err(e) && e@ == "Unhandled RPC type"@
        },
    }
}

/// The nodes of a shard ring after each of `ids` joins in turn.
pub open spec fn with_nodes(nodes: Seq<Seq<char>>, ids: Seq<Seq<char>>) -> Seq<Seq<char>>
    decreases ids.len(),
{
    if ids.len() == 0 {
        nodes
    } else {
        with_node(with_nodes(nodes, ids.drop_last()), ids.last())
    }
}

/// The members after each stored peer in `peers` is recorded in turn as
/// alive at incarnation one, seen at `now`.
pub open spec fn with_peers(
    m: Map<Seq<char>, MemberView>,
    peers: Seq<ClusterNodeInfo>,
    now: u64,
) -> Map<Seq<char>, MemberView>
    decreases peers.len(),
{
    if peers.len() == 0 {
        m
    } else {
        let p = peers.last();
        after_add(
            with_peers(m, peers.drop_last(), now),
            fresh_member(p.node_id@, p.address@, p.port, word_views(p.roles@), now),
        )
    }
}

/// The node `status` names for a given manager: whether it is the Raft
/// leader and which leader it knows.
pub open spec fn raft_leadership(raft: Option<RaftNode>) -> (bool, Option<Seq<char>>) {
    match raft {
        Some(n) => (n.state.role == ConsensusRole::Leader, opt_view(n.state.leader_id)),
        None => (false, None),
    }
}

impl ClusterManager {
    /// What the manager keeps: a well-formed membership table and ring.
    pub open spec fn wf(&self) -> bool {
        &&& self.membership.wf()
        &&& self.shard_manager.wf()
    }

    /// A manager for `node_id` on `address:port`: no members, an empty ring,
    /// no Raft state, not initialized.
    pub fn new(node_id: String, address: String, port: u16, enabled: bool, discovery_servers: Vec<String>) -> (m: Self)
        ensures
            m.wf(),
            m.node_id == node_id,
            m.address == address,
            m.port == port,
            m.enabled == enabled,
            m.membership.node_id == node_id,
            m.membership.members@ == Map::<Seq<char>, ClusterMember>::empty(),
            m.shard_manager.nodes@.len() == 0,
            m.raft_node is None,
            !m.initialized,
            !m.peers_initialized,
    {
        let membership = MembershipManager::new(node_id.clone(), address.clone(), port, discovery_servers);
        let shard_manager = ShardManager::new(node_id.clone());
        ClusterManager {
            node_id,
            address,
            port,
            enabled,
            membership,
            shard_manager,
            raft_node: None,
            initialized: false,
            peers_initialized: false,
        }
    }

    /// Answers a request from another node at `now_ms`: a join is recorded
    /// in the membership table and the ring and answered with the members
    /// known before it; pings and heartbeats refresh their sender; vote and
    /// append-entries requests go to the Raft node, or are refused without
    /// one; replica writes are acknowledged, replica reads find nothing,
    /// metadata exchanges answer with an empty summary and shard transfers
    /// are echoed. Any other message is an error.
    pub fn handle_rpc(&mut self, call: RpcCall, now_ms: u64) -> (r: Result<RpcReply, String>)
        requires
            old(self).wf(),
            append_fits(old(self).raft_node, call),
        ensures
            final(self).wf(),
            rpc_handled(*old(self), *final(self), call, now_ms, r),
    {
        match call {
            RpcCall::JoinRequest(req) => {
                let accepted_nodes = self.membership.node_infos();
                let resp = self.membership.handle_join(&req, accepted_nodes, now_ms);
                self.shard_manager.add_node(req.node_id.as_str());
                Ok(RpcReply::JoinResponse(resp))
            },
            RpcCall::Ping(ping) => {
                if !str_eq(ping.sender_id.as_str(), self.node_id.as_str()) {
                    self.membership.mark_alive(ping.sender_id.as_str(), ping.incarnation, now_ms);
                }
                Ok(RpcReply::Ack(AckMessage { sender_id: self.node_id.clone(), sequence: ping.sequence, ok: true }))
            },
            RpcCall::PingReq(req) => {
                let target_exists = self.membership.get_member(req.target_id.as_str()).is_some();
                Ok(
                    RpcReply::Ack(
                        AckMessage { sender_id: self.node_id.clone(), sequence: req.sequence, ok: target_exists },
                    ),
                )
            },
            RpcCall::Heartbeat { node_id } => {
                if !str_eq(node_id.as_str(), self.node_id.as_str()) {
                    self.membership.mark_alive(node_id.as_str(), 1, now_ms);
                }
                Ok(RpcReply::Heartbeat { node_id: self.node_id.clone() })
            },
            RpcCall::RequestVote(req) => {
                let taken = self.raft_node.take();
                match taken {
                    Some(mut raft) => {
                        let resp = raft.handle_request_vote(&req);
                        self.raft_node = Some(raft);
                        Ok(RpcReply::VoteResponse(resp))
                    },
                    None => Ok(
                        RpcReply::VoteResponse(
                            RaftVoteResponse { term: 0, vote_granted: false, node_id: self.node_id.clone() },
                        ),
                    ),
                }
            },
            RpcCall::AppendEntries(req) => {
                let taken = self.raft_node.take();
                match taken {
                    Some(mut raft) => {
                        let resp = raft.handle_append_entries(&req);
                        self.raft_node = Some(raft);
                        Ok(RpcReply::AppendEntriesResponse(resp))
                    },
                    None => Ok(
                        RpcReply::AppendEntriesResponse(
                            RaftAppendResponse {
                                term: 0,
                                success: false,
                                match_index: 0,
                                node_id: self.node_id.clone(),
                                last_log_index: 0,
                            },
                        ),
                    ),
                }
            },
            RpcCall::ReplicaWrite { operation_id, term } => Ok(
                RpcReply::ReplicaWriteAck(
                    ReplicaWriteAck { operation_id, node_id: self.node_id.clone(), success: true, term },
                ),
            ),
            RpcCall::ReplicaRead => Ok(RpcReply::ReplicaReadResponse { found: false, node_id: self.node_id.clone() }),
            RpcCall::MetadataSync => Ok(
                RpcReply::MetadataSync(
                    MetadataSyncMessage {
                        node_id: self.node_id.clone(),
                        term: 0,
                        shard_count: 0,
                        total_records: 0,
                        checksum: String::new(),
                    },
                ),
            ),
            RpcCall::ShardTransfer(req) => Ok(RpcReply::ShardTransfer(req)),
            RpcCall::Other => Err(owned("Unhandled RPC type")),
        }
    }
    /// Records a node as an alive member at incarnation one, seen at
    /// `now_ms`, and adds it to the shard ring.
    pub fn register_node(&mut self, node_id: &str, address: &str, port: u16, roles: Vec<String>, now_ms: u64)
        requires
            old(self).wf(),
        ensures
            final(self).wf(),
            member_views(final(self).membership.members@) == after_add(
                member_views(old(self).membership.members@),
                fresh_member(node_id@, address@, port, word_views(roles@), now_ms),
            ),
            word_views(final(self).shard_manager.nodes@) == with_node(
                word_views(old(self).shard_manager.nodes@),
                node_id@,
            ),
            final(self).raft_node == old(self).raft_node,
            final(self).node_id == old(self).node_id,
    {
        let member = ClusterMember {
            node_id: owned(node_id),
            address: owned(address),
            port,
            status: MemberStatus::Alive,
            incarnation: 1,
            last_seen: now_ms,
            roles,
        };
        self.membership.add_member(member);
        self.shard_manager.add_node(node_id);
    }

    /// Marks a node dead in the membership table and removes it from the
    /// shard ring.
    pub fn remove_node(&mut self, node_id: &str)
        requires
            old(self).wf(),
        ensures
            final(self).wf(),
            member_views(final(self).membership.members@) == if old(self).membership.members@.contains_key(
                node_id@,
            ) {
                member_views(old(self).membership.members@).insert(
                    node_id@,
                    MemberView { status: MemberStatus::Dead, ..old(self).membership.members@[node_id@]@ },
                )
            } else {
                member_views(old(self).membership.members@)
            },
            word_views(final(self).shard_manager.nodes@) == crate::cluster::shard::without_node(
                word_views(old(self).shard_manager.nodes@),
                node_id@,
            ),
            final(self).raft_node == old(self).raft_node,
            final(self).node_id == old(self).node_id,
    {
        self.membership.mark_dead(node_id);
        self.shard_manager.remove_node(node_id);
    }

    /// The cluster health snapshot: the alive members plus one for this
    /// node, the Raft leadership, and a health class by that count.
    pub fn get_cluster_status(&self) -> (info: ClusterStatusInfo)
        requires
            self.wf(),
            with_status(self.membership.members.entry_seq(), MemberStatus::Alive).len() < usize::MAX,
        ensures
            ({
                let alive = with_status(self.membership.members.entry_seq(), MemberStatus::Alive).len() + 1;
                &&& info.node_id@ == self.node_id@
                &&& info.cluster_size == alive
                &&& info.alive_count == alive
                &&& info.is_leader == raft_leadership(self.raft_node).0
                &&& opt_view(info.leader_id) == raft_leadership(self.raft_node).1
                &&& info.health_status@ == health_of(alive as nat)
                &&& info.replication_factor == 3
                &&& info.uptime_ms == 0
            }),
    {
        let members = self.membership.alive_members();
        proof {
            assert(members@.len() == members@.map_values(|c: ClusterMember| c@).len());
        }
        let alive_count = members.len() + 1;
        let (is_leader, leader_id) = match &self.raft_node {
            Some(r) => (r.is_leader(), r.leader_id()),
            None => (false, None),
        };
        let health_status: &'static str = if alive_count >= 3 {
            "Healthy"
        } else if alive_count > 1 {
            "Degraded"
        } else {
            "Standalone"
        };
        ClusterStatusInfo {
            node_id: self.node_id.clone(),
            cluster_size: alive_count,
            alive_count,
            is_leader,
            leader_id,
            health_status,
            replication_factor: 3,
            uptime_ms: 0,
        }
    }

    /// Picks a member for an operation type: the member at the position the
    /// string hash of the operation type gives, modulo the member count;
    /// none when there are no members.
    pub fn get_node_for_operation(&self, operation_type: &str) -> (r: Option<String>)
        requires
            self.wf(),
        ensures
            r is None <==> self.membership.members.key_seq().len() == 0,
            r matches Some(k) ==> k@ == self.membership.members.key_seq()[(string_hash(operation_type@)
                % (self.membership.members.key_seq().len() as u64)) as int],
    {
        let n = self.membership.members.entry_count();
        if n == 0 {
            return None;
        }
        let h = hash_string(operation_type);
        let idx = (h % (n as u64)) as usize;
        Some(self.membership.members.key_at(idx).clone())
    }

    /// Checks that this node may propose: Raft must be initialized and this
    /// node the leader. The serialized entry is then appended to the log
    /// under the current term; the answer is its index with the index and
    /// term of the entry before it, for the replication round the caller
    /// runs.
    pub fn propose(&mut self, entry: Vec<u8>) -> (r: Result<(u64, u64, u64), String>)
        requires
            old(self).raft_node matches Some(n) ==> n.log@.len() < u64::MAX,
        ensures
            final(self).membership == old(self).membership,
            final(self).shard_manager == old(self).shard_manager,
            final(self).node_id == old(self).node_id,
            match old(self).raft_node {
                None => {
                    &&& final(self).raft_node is None
                    &&& r matches Err(e) && e@ == "Raft not initialized"@
                },
                Some(n0) => if n0.state.role != ConsensusRole::Leader {
                    &&& final(self).raft_node == old(self).raft_node
                    &&& r matches Err(e) && e@ == not_leader_message(opt_view(n0.state.leader_id))
                } else {
                    final(self).raft_node matches Some(n1) && {
                        &&& crate::cluster::raft::entry_views(n1.log@) == crate::cluster::raft::entry_views(n0.log@).push(
                            (n0.state.term, entry@),
                        )
                        &&& n1.state == n0.state
                        &&& n1.commit_index == n0.commit_index
                        &&& r matches Ok(t) && t.0 == n0.log@.len() + 1 && t.1 == n0.log@.len() && t.2
                            == crate::cluster::raft::last_term_of(n0.log@)
                    }
                },
            },
    {
        let taken = self.raft_node.take();
        match taken {
            None => Err(owned("Raft not initialized")),
            Some(mut raft) => {
                if !raft.is_leader() {
                    let leader = raft.leader_id();
                    let text = option_debug(&leader);
                    let mut msg = owned("Not the leader, leader is ");
                    msg.append(text.as_str());
                    self.raft_node = Some(raft);
                    Err(msg)
                } else {
                    let r = raft.prepare_replication(entry);
                    self.raft_node = Some(raft);
                    Ok(r)
                }
            },
        }
    }

    /// Starts the local part of cluster mode: when it is enabled, this node
    /// records itself as an alive member; when it is not, nothing changes
    /// and the answer is false.
    pub fn start_local(&mut self, now_ms: u64) -> (started: bool)
        requires
            old(self).wf(),
        ensures
            final(self).wf(),
            started == old(self).enabled,
            !started ==> *final(self) == *old(self),
            started ==> {
                &&& final(self).membership.members@.contains_key(old(self).membership.node_id@)
                &&& final(self).membership.members@[old(self).membership.node_id@]@.status == MemberStatus::Alive
                &&& final(self).membership.members@[old(self).membership.node_id@]@.last_seen == now_ms
                &&& member_views(final(self).membership.members@).remove(old(self).membership.node_id@)
                    == member_views(old(self).membership.members@).remove(old(self).membership.node_id@)
            },
            final(self).node_id == old(self).node_id,
            final(self).shard_manager == old(self).shard_manager,
            final(self).raft_node == old(self).raft_node,
    {
        if !self.enabled {
            return false;
        }
        self.membership.register_self(now_ms);
        true
    }

    /// The peers Raft connects to: the alive members other than this node.
    pub fn raft_peers(&self) -> (r: Vec<ClusterNodeInfo>)
        requires
            self.wf(),
        ensures
            r@.map_values(|n: ClusterNodeInfo| n.node_id@) == crate::cluster::membership::alive_except(
                self.membership.members.entry_seq(),
                self.membership.node_id@,
                self.membership.node_id@,
            ),
            forall|i: int|
                0 <= i < r@.len() ==> self.membership.members@.contains_key(#[trigger] r@[i].node_id@)
                    && describes(r@[i], self.membership.members@[r@[i].node_id@]@),
    {
        self.membership.alive_peer_infos()
    }

    /// Initializes Raft: a follower in term zero with an empty log and the
    /// default timing; the peer set counts as wired up.
    pub fn init_raft(&mut self)
        ensures
            final(self).raft_node matches Some(n) && {
                &&& n.node_id == old(self).node_id
                &&& n.state.role == ConsensusRole::Follower
                &&& n.state.term == 0
                &&& n.log@.len() == 0
                &&& n.commit_index == 0
            },
            final(self).peers_initialized,
            final(self).membership == old(self).membership,
            final(self).shard_manager == old(self).shard_manager,
            final(self).node_id == old(self).node_id,
            final(self).initialized == old(self).initialized,
    {
        self.raft_node = Some(RaftNode::new(self.node_id.clone(), ConsensusConfig::default()));
        self.peers_initialized = true;
    }

    /// Adds every known member to the shard ring, in the order they were
    /// first recorded, and marks the manager initialized.
    pub fn finish_start(&mut self)
        requires
            old(self).wf(),
        ensures
            final(self).wf(),
            word_views(final(self).shard_manager.nodes@) == with_nodes(
                word_views(old(self).shard_manager.nodes@),
                old(self).membership.members.key_seq(),
            ),
            final(self).initialized,
            final(self).membership == old(self).membership,
            final(self).raft_node == old(self).raft_node,
            final(self).node_id == old(self).node_id,
    {
        let ghost ks = self.membership.members.key_seq();
        let ghost n0 = word_views(self.shard_manager.nodes@);
        let n = self.membership.members.entry_count();
        let mut i: usize = 0;
        assert(ks.take(0) =~= Seq::<Seq<char>>::empty());
        while i < n
            invariant
                self.wf(),
                n == ks.len(),
                ks == self.membership.members.key_seq(),
                i <= n,
                word_views(self.shard_manager.nodes@) == with_nodes(n0, ks.take(i as int)),
                self.membership == old(self).membership,
                self.raft_node == old(self).raft_node,
                self.node_id == old(self).node_id,
            decreases n - i,
        {
            let key = self.membership.members.key_at(i).clone();
            assert(ks.take(i + 1).drop_last() =~= ks.take(i as int));
            assert(ks[i as int] == key@);
            self.shard_manager.add_node(key.as_str());
            i = i + 1;
        }
        assert(ks.take(n as int) =~= ks);
        self.initialized = true;
    }

    /// Restores stored peers: each is recorded in turn as an alive member at
    /// incarnation one, seen at `now_ms`.
    pub fn restore_peers(&mut self, stored: Vec<ClusterNodeInfo>, now_ms: u64)
        requires
            old(self).wf(),
        ensures
            final(self).wf(),
            member_views(final(self).membership.members@) == with_peers(
                member_views(old(self).membership.members@),
                stored@,
                now_ms,
            ),
            final(self).shard_manager == old(self).shard_manager,
            final(self).raft_node == old(self).raft_node,
            final(self).node_id == old(self).node_id,
    {
        let ghost m0 = member_views(self.membership.members@);
        let mut i: usize = 0;
        assert(stored@.take(0) =~= Seq::<ClusterNodeInfo>::empty());
        while i < stored.len()
            invariant
                self.wf(),
                i <= stored@.len(),
                member_views(self.membership.members@) == with_peers(m0, stored@.take(i as int), now_ms),
                self.shard_manager == old(self).shard_manager,
                self.raft_node == old(self).raft_node,
                self.node_id == old(self).node_id,
            decreases stored@.len() - i,
        {
            let p = &stored[i];
            let member = ClusterMember {
                node_id: p.node_id.clone(),
                address: p.address.clone(),
                port: p.port,
                status: MemberStatus::Alive,
                incarnation: 1,
                last_seen: now_ms,
                roles: copy_strings(&p.roles),
            };
            assert(stored@.take(i + 1).drop_last() =~= stored@.take(i as int));
            self.membership.add_member(member);
            i = i + 1;
        }
        assert(stored@.take(stored@.len() as int) =~= stored@);
    }

    /// The peer summaries to persist: every member, in the order they were
    /// first recorded.
    pub fn peer_snapshot(&self) -> (r: Vec<ClusterNodeInfo>)
        requires
            self.wf(),
        ensures
            r@.len() == self.membership.members.entry_seq().len(),
            forall|i: int|
                0 <= i < r@.len() ==> describes(#[trigger] r@[i], self.membership.members.entry_seq()[i].1@),
    {
        self.membership.node_infos()
    }
}

} // verus!
