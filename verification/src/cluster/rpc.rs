//! Messages exchanged between nodes and between clusters.

use vstd::prelude::*;
use crate::text::copy_bytes;

verus! {

/// Raft `RequestVote` RPC sent by a candidate during leader election.
#[derive(Debug)]
pub struct RaftVoteRequest {
    /// Candidate's term
    pub term: u64,
    /// Candidate requesting the vote
    pub candidate_id: String,
    /// Last log index of the candidate
    pub last_log_index: u64,
    /// Last log term of the candidate
    pub last_log_term: u64,
}

/// Reply to a [`RaftVoteRequest`].
#[derive(Debug)]
pub struct RaftVoteResponse {
    /// Responder's current term
    pub term: u64,
    /// Whether the vote was granted
    pub vote_granted: bool,
    /// Node that responded
    pub node_id: String,
}

/// An entry of the Raft log: the term in which a leader created it, and
/// its serialized operation.
#[derive(Debug)]
pub struct RaftLogEntry {
    /// Term of the leader that created the entry
    pub term: u64,
    /// Serialized operation
    pub data: Vec<u8>,
}

impl View for RaftLogEntry {
    type V = (u64, Seq<u8>);

    open spec fn view(&self) -> (u64, Seq<u8>) {
        (self.term, self.data@)
    }
}

impl Clone for RaftLogEntry {
    fn clone(&self) -> (r: Self)
        ensures
            r@ == self@,
    {
        RaftLogEntry { term: self.term, data: copy_bytes(&self.data) }
    }
}

/// Raft `AppendEntries` RPC used by the leader for replication and heartbeats.
#[derive(Debug)]
pub struct RaftAppendRequest {
    /// Leader's term
    pub term: u64,
    /// Leader's node ID
    pub leader_id: String,
    /// Index of the log entry preceding `entries`
    pub prev_log_index: u64,
    /// Term of the entry at `prev_log_index`
    pub prev_log_term: u64,
    /// Log entries to append, each with the term it was created in (empty
    /// for heartbeats)
    pub entries: Vec<RaftLogEntry>,
    /// Leader's commit index
    pub leader_commit: u64,
}

/// Reply to a [`RaftAppendRequest`].
#[derive(Debug)]
pub struct RaftAppendResponse {
    /// Follower's current term
    pub term: u64,
    /// Whether the entries were accepted
    pub success: bool,
    /// Highest matching log index on the follower
    pub match_index: u64,
    /// Node that responded
    pub node_id: String,
    /// Follower's last log index
    pub last_log_index: u64,
}

/// Raft `InstallSnapshot` RPC streaming a snapshot to a lagging follower.
#[derive(Debug)]
pub struct InstallSnapshotRequest {
    /// Leader's term
    pub term: u64,
    /// Leader's node ID
    pub leader_id: String,
    /// Log index of the last entry included in the snapshot
    pub last_included_index: u64,
    /// Term of the last entry included in the snapshot
    pub last_included_term: u64,
    /// Byte offset of `data` within the snapshot
    pub offset: u64,
    /// Chunk of snapshot data
    pub data: Vec<u8>,
    /// Whether this chunk is the final one
    pub done: bool,
}

/// Direct liveness probe sent by a gossip node.
#[derive(Debug)]
pub struct PingMessage {
    /// Sender's node ID
    pub sender_id: String,
    /// Sequence number of the probe
    pub sequence: u64,
    /// Incarnation of the sender
    pub incarnation: u64,
}

/// Indirect liveness probe: asks a third node to check on `target_id`.
#[derive(Debug)]
pub struct PingReqMessage {
    /// Sender's node ID
    pub sender_id: String,
    /// Node being probed indirectly
    pub target_id: String,
    /// Sequence number of the original probe
    pub sequence: u64,
    /// Incarnation of the sender
    pub incarnation: u64,
}

/// Reply to a ping or ping-req probe.
#[derive(Debug)]
pub struct AckMessage {
    /// Responder's node ID
    pub sender_id: String,
    /// Sequence number being acknowledged
    pub sequence: u64,
    /// Whether the probed node is alive
    pub ok: bool,
}

/// Acknowledgement of a [`ReplicaWriteRequest`].
#[derive(Debug)]
pub struct ReplicaWriteAck {
    /// Operation ID being acknowledged
    pub operation_id: String,
    /// Node that acknowledged
    pub node_id: String,
    /// Whether the write succeeded
    pub success: bool,
    /// Raft term of the acknowledged write
    pub term: u64,
}

/// Request to read a record from a replica node.
#[derive(Debug)]
pub struct ReplicaReadRequest {
    /// Storage engine type of the read
    pub storage_type: String,
    /// Target table/collection
    pub table: String,
    /// Record key
    pub key: String,
}

/// Begin transferring a shard's data to the target node.
#[derive(Debug)]
pub struct ShardTransferRequest {
    /// Shard being transferred
    pub shard_id: String,
    /// Table the shard belongs to
    pub table: String,
    /// Storage engine type of the shard
    pub storage_type: String,
    /// Total number of chunks in the transfer
    pub total_chunks: u32,
}

/// One chunk of shard data during a transfer.
#[derive(Debug)]
pub struct ShardTransferChunk {
    /// Shard being transferred
    pub shard_id: String,
    /// Zero-based index of this chunk
    pub chunk_index: u32,
    /// Raw chunk bytes
    pub data: Vec<u8>,
    /// Whether this is the final chunk
    pub is_last: bool,
}

/// Request to join the cluster, sent to a seed server.
#[derive(Debug)]
pub struct JoinRequest {
    /// Joining node's ID
    pub node_id: String,
    /// Joining node's address
    pub address: String,
    /// Joining node's RPC port
    pub port: u16,
    /// Number of CPU cores of the joining node
    pub cpu_cores: u32,
    /// Memory of the joining node in GB
    pub memory_gb: u64,
    /// Storage of the joining node in GB
    pub storage_gb: u64,
    /// Roles the joining node can perform
    pub roles: Vec<String>,
}

/// Reply to a [`JoinRequest`].
#[derive(Debug)]
pub struct JoinResponse {
    /// Whether the join was accepted
    pub accepted: bool,
    /// ID of the current cluster leader, if known
    pub leader_id: Option<String>,
    /// Snapshot of the cluster's nodes
    pub cluster_nodes: Vec<ClusterNodeInfo>,
    /// Error description if the join failed
    pub error: Option<String>,
}

/// Serializable summary of a cluster node.
#[derive(Debug)]
pub struct ClusterNodeInfo {
    /// Node ID
    pub node_id: String,
    /// Node address
    pub address: String,
    /// Node RPC port
    pub port: u16,
    /// Roles the node performs
    pub roles: Vec<String>,
    /// Node status (e.g. `"Alive"`)
    pub status: String,
}

/// Metadata exchanged during membership gossip.
#[derive(Debug)]
pub struct MetadataSyncMessage {
    /// Node the metadata describes
    pub node_id: String,
    /// Term/incarnation of the entry
    pub term: u64,
    /// Number of shards hosted
    pub shard_count: u32,
    /// Total records stored
    pub total_records: u64,
    /// Checksum over the gossiped member data
    pub checksum: String,
}

/// Request to pull records changed since `last_sync_timestamp`.
#[derive(Debug)]
pub struct SyncRequest {
    /// Requesting node
    pub node_id: String,
    /// Table to sync
    pub table: String,
    /// Storage engine type of the table
    pub storage_type: String,
    /// Only return records changed after this timestamp (ms)
    pub last_sync_timestamp: u64,
    /// Maximum records per response batch
    pub batch_size: u32,
}

/// Request for a Merkle root to compare table contents.
#[derive(Debug)]
pub struct MerkleRequest {
    /// Table to hash
    pub table: String,
    /// Storage engine type of the table
    pub storage_type: String,
    /// Merkle tree depth
    pub depth: u32,
}

/// Reply to a [`MerkleRequest`].
#[derive(Debug)]
pub struct MerkleResponse {
    /// Root hash of the table's Merkle tree
    pub root_hash: String,
    /// Number of records hashed
    pub node_count: u32,
    /// Tree depth used
    pub depth: u32,
}

/// Announce a cluster's presence in the federation.
#[derive(Debug)]
pub struct FedClusterAnnounce {
    /// ID of the announcing cluster
    pub cluster_id: String,
    /// Federation this cluster belongs to
    pub federation_id: String,
    /// Node that sent the announcement
    pub node_id: String,
    /// Address of the announcing cluster's federation endpoint
    pub address: String,
    /// Port of the announcing cluster's federation endpoint
    pub port: u16,
    /// Number of nodes in the announcing cluster
    pub cluster_size: u32,
    /// Data domains hosted by the announcing cluster
    pub domains: Vec<String>,
    /// Incarnation counter used to detect restarts
    pub incarnation: u64,
    /// Capabilities advertised by the cluster (e.g. `raft`, `swim`)
    pub capabilities: Vec<String>,
}

/// Join a data domain across clusters.
#[derive(Debug)]
pub struct FedDomainJoin {
    /// ID of the cluster joining the domain
    pub cluster_id: String,
    /// Name of the domain being joined
    pub domain_name: String,
    /// Node requesting the join
    pub node_id: String,
    /// Collections the joining cluster brings into the domain
    pub collections: Vec<String>,
    /// Storage engine types covered by the domain
    pub storage_types: Vec<String>,
    /// Desired replication mode across domain members
    pub replication_mode: String,
}

/// Reply to a [`FedDomainJoin`].
#[derive(Debug)]
pub struct FedDomainJoinAck {
    /// Whether the join was accepted
    pub accepted: bool,
    /// Domain that was joined
    pub domain_name: String,
    /// Clusters that are members of the domain
    pub members: Vec<String>,
    /// Hint about the domain leader cluster
    pub leader_hint: Option<String>,
    /// Error description if the join failed
    pub error: Option<String>,
}

/// Leave a data domain.
#[derive(Debug)]
pub struct FedDomainLeave {
    /// ID of the cluster leaving the domain
    pub cluster_id: String,
    /// Name of the domain being left
    pub domain_name: String,
    /// Node requesting the leave
    pub node_id: String,
}

/// Cross-cluster data replication request.
#[derive(Debug)]
pub struct FedDataReplicaRequest {
    /// Unique operation ID for deduplication
    pub operation_id: String,
    /// Data domain the write belongs to
    pub domain_name: String,
    /// Cluster that originated the write
    pub source_cluster: String,
    /// Cluster this request is destined for
    pub target_cluster: String,
    /// Storage engine type of the write
    pub storage_type: String,
    /// Target table/collection
    pub table: String,
    /// Record key
    pub key: String,
    /// Serialized record data
    pub data: Vec<u8>,
    /// Creation timestamp (ms)
    pub timestamp: u64,
    /// Vector clock capturing write causality
    pub vector_clock: String,
}

/// Reply to a [`FedDataReplicaRequest`].
#[derive(Debug)]
pub struct FedDataReplicaAck {
    /// Operation ID being acknowledged
    pub operation_id: String,
    /// Cluster that acknowledged
    pub cluster_id: String,
    /// Whether the replica write succeeded
    pub success: bool,
    /// Error description if it failed
    pub error: Option<String>,
}

/// Cross-cluster namespace resolution request.
#[derive(Debug)]
pub struct FedNamespaceResolveRequest {
    /// ID of the requesting cluster
    pub cluster_id: String,
    /// Federated namespace path to resolve
    pub namespace_path: String,
    /// Logical resource name being looked up
    pub resource_name: String,
    /// Storage engine type of the resource
    pub storage_type: String,
    /// Request ID for correlating the reply
    pub request_id: String,
}

/// Reply to a [`FedNamespaceResolveRequest`].
#[derive(Debug)]
pub struct FedNamespaceResolveAck {
    /// Request ID echoed from the request
    pub request_id: String,
    /// Whether the namespace resolved on this cluster
    pub found: bool,
    /// Cluster that answered
    pub cluster_id: String,
    /// Physical resource name if the namespace was found
    pub physical_name: Option<String>,
    /// Error description if resolution failed
    pub error: Option<String>,
}

/// Federated Raft `RequestVote` RPC between clusters.
#[derive(Debug)]
pub struct FedRaftVoteRequest {
    /// Candidate's federated term
    pub term: u64,
    /// Candidate cluster ID
    pub candidate_id: String,
    /// Last federated log index of the candidate
    pub last_log_index: u64,
    /// Last federated log term of the candidate
    pub last_log_term: u64,
}

/// Reply to a [`FedRaftVoteRequest`].
#[derive(Debug)]
pub struct FedRaftVoteResponse {
    /// Responder's federated term
    pub term: u64,
    /// Whether the vote was granted
    pub vote_granted: bool,
    /// Cluster that responded
    pub cluster_id: String,
}

/// Federated Raft `AppendEntries` RPC between clusters.
#[derive(Debug)]
pub struct FedRaftAppendRequest {
    /// Leader's federated term
    pub term: u64,
    /// Leader cluster ID
    pub leader_id: String,
    /// Index of the entry preceding `entries`
    pub prev_log_index: u64,
    /// Term of the entry at `prev_log_index`
    pub prev_log_term: u64,
    /// Log entries to append
    pub entries: Vec<FedRaftLogEntry>,
    /// Leader's federated commit index
    pub leader_commit: u64,
}

/// Reply to a [`FedRaftAppendRequest`].
#[derive(Debug)]
pub struct FedRaftAppendResponse {
    /// Responder's federated term
    pub term: u64,
    /// Whether the entries were accepted
    pub success: bool,
    /// Highest matching log index on the responder
    pub match_index: u64,
    /// Cluster that responded
    pub cluster_id: String,
}

/// A single entry in the federated log.
#[derive(Debug)]
pub struct FedRaftLogEntry {
    /// Entry index
    pub index: u64,
    /// Entry term
    pub term: u64,
    /// Operation type (see [`crate::cluster::federated_raft::FedRaftOpType`])
    pub op_type: String,
    /// Operation payload
    pub data: Vec<u8>,
    /// Creation timestamp (ms)
    pub timestamp: u64,
}

/// A federated log entry as plain values.
pub struct FedLogEntryView {
    pub index: u64,
    pub term: u64,
    pub op_type: Seq<char>,
    pub data: Seq<u8>,
    pub timestamp: u64,
}

impl View for FedRaftLogEntry {
    type V = FedLogEntryView;

    open spec fn view(&self) -> FedLogEntryView {
        FedLogEntryView {
            index: self.index,
            term: self.term,
            op_type: self.op_type@,
            data: self.data@,
            timestamp: self.timestamp,
        }
    }
}

impl Clone for FedRaftLogEntry {
    fn clone(&self) -> (r: Self)
        ensures
            r@ == self@,
    {
        FedRaftLogEntry {
            index: self.index,
            term: self.term,
            op_type: self.op_type.clone(),
            data: copy_bytes(&self.data),
            timestamp: self.timestamp,
        }
    }
}

} // verus!
