//! Distributed data synchronization.
//!
//! Vector clocks capture causality between record versions; the
//! `reconciliation` submodule turns two replicas' versions into a merge plan,
//! and `consensus` holds the Raft-style state types.

pub mod consensus;
pub mod reconciliation;

use vstd::prelude::*;
use crate::clock::now_millis;
use crate::cluster::sync::reconciliation::{
    clock_order, conflict_keys, conflicts_of, is_conflict, is_pull, is_push, lemma_clock_order_laws,
    lemma_concat_contains, lemma_plan_membership, missing_keys, pull_keys, push_keys, ConflictResolutionStrategy,
    DataConflict, DataConflictView, RecordVersion,
    RecordVersionView, ReconciliationPlan, VClockOrder, compare_vector_clocks,
};
use crate::seqs::{lemma_take_insert, lemma_not_in_prefix, lemma_push_fresh, lemma_empty_seq};
use crate::strmap::StrMap;
use crate::text::word_views;

verus! {

// ── Clock arithmetic ──────────────────────────────────────────

/// The counter of `node` in `m`; a node that is not listed counts zero.
pub open spec fn clock(m: Map<Seq<char>, u64>, node: Seq<char>) -> u64 {
    if m.contains_key(node) {
        m[node]
    } else {
        0
    }
}

/// Whether `a` is ahead of `b` at some node.
pub open spec fn exceeds(a: Map<Seq<char>, u64>, b: Map<Seq<char>, u64>) -> bool {
    exists|n: Seq<char>| #[trigger] clock(a, n) > clock(b, n)
}

/// Whether `a` causally precedes `b`: no counter of `a` is above `b`'s and
/// at least one is below.
pub open spec fn happened_before(a: Map<Seq<char>, u64>, b: Map<Seq<char>, u64>) -> bool {
    !exceeds(a, b) && exceeds(b, a)
}

/// Whether the clocks describe concurrent (conflicting) writes: each is
/// ahead of the other at some node. Equal clocks describe the same write
/// and are not concurrent.
pub open spec fn concurrent(a: Map<Seq<char>, u64>, b: Map<Seq<char>, u64>) -> bool {
    exceeds(a, b) && exceeds(b, a)
}

/// The larger of two counters.
pub open spec fn max_u64(x: u64, y: u64) -> u64 {
    if x >= y {
        x
    } else {
        y
    }
}

/// The node-wise maximum of two clocks; every node listed in either is
/// listed.
pub open spec fn merged(a: Map<Seq<char>, u64>, b: Map<Seq<char>, u64>) -> Map<Seq<char>, u64> {
    Map::new(
        |n: Seq<char>| a.contains_key(n) || b.contains_key(n),
        |n: Seq<char>| max_u64(clock(a, n), clock(b, n)),
    )
}

/// Milliseconds since the Unix epoch, zero if the clock reads earlier: the
/// clock's reading taken through [`millis_from_reading`].
pub fn now_ms() -> (t: u64)
    ensures
        t <= i64::MAX,
{
    millis_from_reading(now_millis())
}

/// A clock reading in milliseconds as an unsigned count: zero for a
/// reading before the epoch, the reading itself otherwise.
pub fn millis_from_reading(reading: i64) -> (t: u64)
    ensures
        t == (if reading < 0 {
            0
        } else {
            reading as int
        }),
{
    if reading < 0 {
        0
    } else {
        reading as u64
    }
}

/// The counter of `node` in `m`, zero when it is not listed.
pub fn clock_of(m: &StrMap<u64>, node: &String) -> (c: u64)
    requires
        m.wf(),
    ensures
        c == clock(m@, node@),
{
    match m.get(node) {
        Some(c) => *c,
        None => 0,
    }
}

/// Whether `a` is ahead of `b` at some node.
pub fn ahead_somewhere(a: &StrMap<u64>, b: &StrMap<u64>) -> (r: bool)
    requires
        a.wf(),
        b.wf(),
    ensures
        r == exceeds(a@, b@),
{
    proof {
        a.lemma_view();
    }
    let mut i: usize = 0;
    while i < a.entry_count()
        invariant
            a.wf(),
            b.wf(),
            i <= a.entry_seq().len(),
            forall|j: int| 0 <= j < i ==> a.entry_seq()[j].1 <= #[trigger] clock(b@, a.entry_seq()[j].0@),
        decreases a.entry_seq().len() - i,
    {
        let k = a.key_at(i);
        let v = *a.value_at(i);
        if v > clock_of(b, k) {
            proof {
                a.lemma_view();
                assert(clock(a@, k@) > clock(b@, k@));
            }
            return true;
        }
        i = i + 1;
    }
    proof {
        a.lemma_view();
        assert forall|n: Seq<char>| !(#[trigger] clock(a@, n) > clock(b@, n)) by {
            if a@.contains_key(n) {
                assert(a.key_seq().to_set().contains(n));
                let j = choose|j: int| 0 <= j < a.key_seq().len() && a.key_seq()[j] == n;
                assert(a.entry_seq()[j].0@ == n);
                assert(a.entry_seq()[j].1 <= clock(b@, a.entry_seq()[j].0@));
            }
        }
    }
    false
}

// ── Configuration and records ─────────────────────────────────

/// Strategy for resolving conflicting record versions.
#[derive(Debug, Clone, Copy, PartialEq, Eq, Structural)]
pub enum ConflictResolution {
    /// Keep the version with the latest timestamp.
    LastWriteWins,
    /// Compare vector clocks to detect concurrent writes.
    VectorClock,
    /// Merge conflicting versions.
    CRDT,
    /// Delegate resolution to a custom callback.
    Custom,
}

/// Tuning parameters for sync and quorum operations.
#[derive(Debug, Clone, Copy, PartialEq, Eq, Structural)]
pub struct SyncConfig {
    /// Number of replicas each record should have.
    pub replication_factor: usize,
    /// How often background sync runs (ms).
    pub sync_interval_ms: u64,
    /// Conflict resolution strategy.
    pub conflict_resolution: ConflictResolution,
    /// Whether referential integrity checks are enabled.
    pub enable_referential_integrity: bool,
    /// Minimum nodes consulted for a consistent read.
    pub read_quorum: usize,
    /// Minimum confirmations required for a write.
    pub write_quorum: usize,
    /// Heartbeat interval for sync peers (ms).
    pub heartbeat_interval_ms: u64,
    /// Maximum tolerated clock drift (ms).
    pub max_clock_drift_ms: u64,
    /// Whether Merkle-tree based sync is enabled.
    pub merkle_sync: bool,
}

impl Default for SyncConfig {
    fn default() -> (c: Self)
        ensures
            c == (SyncConfig {
                replication_factor: 3,
                sync_interval_ms: 100,
                conflict_resolution: ConflictResolution::VectorClock,
                enable_referential_integrity: true,
                read_quorum: 2,
                write_quorum: 2,
                heartbeat_interval_ms: 1000,
                max_clock_drift_ms: 5000,
                merkle_sync: true,
            }),
    {
        SyncConfig {
            replication_factor: 3,
            sync_interval_ms: 100,
            conflict_resolution: ConflictResolution::VectorClock,
            enable_referential_integrity: true,
            read_quorum: 2,
            write_quorum: 2,
            heartbeat_interval_ms: 1000,
            max_clock_drift_ms: 5000,
            merkle_sync: true,
        }
    }
}

/// Kind of distributed operation in the operation log.
#[derive(Debug, Clone, Copy, PartialEq, Eq, Structural)]
pub enum OperationType {
    /// Insert a record.
    Insert,
    /// Update a record.
    Update,
    /// Delete a record.
    Delete,
    /// Change a table schema.
    SchemaChange,
    /// Create an index.
    IndexCreate,
    /// Drop an index.
    IndexDrop,
}

/// Sync metadata tracked per record key.
pub struct SyncMetadata {
    /// Record key.
    pub key: String,
    /// Vector clock of the record.
    pub vector_clock: VectorClock,
    /// Version number.
    pub version: u64,
    /// Timestamp (ms) of the last sync.
    pub last_sync: u64,
    /// Nodes holding replicas of the record.
    pub replicas: Vec<String>,
    /// Whether the record is out of sync.
    pub dirty: bool,
    /// Content checksum.
    pub checksum: String,
}

/// A validator's vote during quorum consensus.
pub struct QuorumVote {
    /// Voting node.
    pub node_id: String,
    /// Whether the vote approved the operation.
    pub vote: bool,
    /// Term of the vote.
    pub term: u64,
    /// Hash of the vote.
    pub hash: String,
}

/// Result of a quorum-based write.
pub struct ConsensusWriteResult {
    /// Whether the write reached quorum.
    pub confirmed: bool,
    /// Quorum size required.
    pub quorum_size: usize,
    /// Votes collected.
    pub votes: Vec<QuorumVote>,
    /// ID of the operation.
    pub operation_id: String,
}

/// Result of a referential integrity check.
pub struct ReferentialIntegrityResult {
    /// Whether all checked records are valid.
    pub is_valid: bool,
    /// Keys with insufficient replica coverage.
    pub orphaned_references: Vec<String>,
    /// Broken foreign keys found.
    pub broken_foreign_keys: Vec<String>,
    /// Records checked.
    pub checked_count: u64,
    /// Records with errors.
    pub error_count: u64,
}

/// Summary of a single reconciliation pass against one peer node.
pub struct ReconciliationResult {
    /// Node that was reconciled against.
    pub node_id: String,
    /// Number of concurrent conflicts resolved during the pass.
    pub conflicts_resolved: u64,
    /// Number of records merged into the peer.
    pub records_merged: u64,
    /// Timestamp (ms) of the reconciliation pass.
    pub timestamp: u64,
}

// ── Vector clocks ─────────────────────────────────────────────

/// A vector clock tracking per-node causality of a record.
pub struct VectorClock {
    /// Per-node counters.
    pub clocks: StrMap<u64>,
    /// Timestamp (ms) of the last update.
    pub timestamp: u64,
}

impl VectorClock {
    /// A clock with one tick for `node_id`, stamped with the clock's reading
    /// (see [`Self::new_at`]).
    pub fn new(node_id: &str) -> (vc: Self)
        ensures
            vc.clocks.wf(),
            vc.clocks@ == Map::<Seq<char>, u64>::empty().insert(node_id@, 1),
            vc.timestamp <= i64::MAX,
    {
        Self::new_at(node_id, now_ms())
    }

    /// A clock with one tick for `node_id`, stamped `now_ms`.
    pub fn new_at(node_id: &str, now_ms: u64) -> (vc: Self)
        ensures
            vc.clocks.wf(),
            vc.clocks@ == Map::<Seq<char>, u64>::empty().insert(node_id@, 1),
            vc.timestamp == now_ms,
    {
        let mut clocks = StrMap::new();
        clocks.insert(node_id.to_owned(), 1);
        VectorClock { clocks, timestamp: now_ms }
    }

    /// Advances `node_id`'s counter by one and stamps the clock's reading
    /// (see [`Self::increment_at`]).
    pub fn increment(&mut self, node_id: &str)
        requires
            old(self).clocks.wf(),
            clock(old(self).clocks@, node_id@) < u64::MAX,
        ensures
            final(self).clocks.wf(),
            final(self).clocks@ == old(self).clocks@.insert(
                node_id@,
                (clock(old(self).clocks@, node_id@) + 1) as u64,
            ),
            final(self).timestamp <= i64::MAX,
    {
        self.increment_at(node_id, now_ms());
    }

    /// Advances `node_id`'s counter by one and stamps `now_ms`.
    pub fn increment_at(&mut self, node_id: &str, now_ms: u64)
        requires
            old(self).clocks.wf(),
            clock(old(self).clocks@, node_id@) < u64::MAX,
        ensures
            final(self).clocks.wf(),
            final(self).clocks@ == old(self).clocks@.insert(
                node_id@,
                (clock(old(self).clocks@, node_id@) + 1) as u64,
            ),
            final(self).timestamp == now_ms,
    {
        let node = node_id.to_owned();
        let c = clock_of(&self.clocks, &node);
        self.clocks.insert(node, c + 1);
        self.timestamp = now_ms;
    }

    /// Merges `other` into this clock: node-wise maximum, and the later of
    /// the two timestamps.
    pub fn merge(&mut self, other: &VectorClock)
        requires
            old(self).clocks.wf(),
            other.clocks.wf(),
        ensures
            final(self).clocks.wf(),
            final(self).clocks@ == merged(old(self).clocks@, other.clocks@),
            final(self).timestamp == max_u64(old(self).timestamp, other.timestamp),
    {
        let ghost a0 = self.clocks@;
        let ghost b = other.clocks@;
        let ghost bk = other.clocks.key_seq();
        proof {
            other.clocks.lemma_view();
            assert(b.restrict(bk.take(0).to_set()) =~= Map::<Seq<char>, u64>::empty());
            assert(merged(a0, Map::<Seq<char>, u64>::empty()) =~= a0);
        }
        let mut i: usize = 0;
        while i < other.clocks.entry_count()
            invariant
                self.clocks.wf(),
                other.clocks.wf(),
                self.timestamp == old(self).timestamp,
                b == other.clocks@,
                bk == other.clocks.key_seq(),
                bk.no_duplicates(),
                bk.len() == other.clocks.entry_seq().len(),
                b.dom() == bk.to_set(),
                i <= bk.len(),
                self.clocks@ == merged(a0, b.restrict(bk.take(i as int).to_set())),
            decreases bk.len() - i,
        {
            let k = other.clocks.key_at(i);
            let v = *other.clocks.value_at(i);
            let ghost kk = k@;
            let ghost ks = bk.take(i as int).to_set();
            proof {
                other.clocks.lemma_view();
                assert(bk[i as int] == kk);
                assert(b[kk] == v);
                assert(!ks.contains(kk)) by {
                    if ks.contains(kk) {
                        let j = choose|j: int| 0 <= j < i && #[trigger] bk.take(i as int)[j] == kk;
                        assert(bk[j] == bk[i as int]);
                    }
                }
                assert(bk.take(i + 1).to_set() =~= ks.insert(kk)) by {
                    assert forall|x: Seq<char>| bk.take(i + 1).to_set().contains(x) <==> ks.insert(kk).contains(x) by {
                        if bk.take(i + 1).contains(x) {
                            let j = choose|j: int| 0 <= j < i + 1 && #[trigger] bk.take(i + 1)[j] == x;
                            if j < i {
                                assert(bk.take(i as int)[j] == x);
                            }
                        }
                        if ks.contains(x) {
                            let j = choose|j: int| 0 <= j < i && #[trigger] bk.take(i as int)[j] == x;
                            assert(bk.take(i + 1)[j] == x);
                        }
                        if x == kk {
                            assert(bk.take(i + 1)[i as int] == x);
                        }
                    }
                }
            }
            let c = clock_of(&self.clocks, k);
            let m = if c >= v {
                c
            } else {
                v
            };
            let ghost before = self.clocks@;
            self.clocks.insert(k.clone(), m);
            proof {
                assert(clock(b.restrict(ks), kk) == 0);
                assert(c == clock(a0, kk));
                assert(merged(a0, b.restrict(ks.insert(kk))) =~= before.insert(kk, m));
            }
            i = i + 1;
        }
        proof {
            assert(bk.take(bk.len() as int) =~= bk);
            assert(b.restrict(bk.to_set()) =~= b);
        }
        if other.timestamp > self.timestamp {
            self.timestamp = other.timestamp;
        }
    }

    /// Whether this clock causally precedes `other`.
    pub fn happens_before(&self, other: &VectorClock) -> (r: bool)
        requires
            self.clocks.wf(),
            other.clocks.wf(),
        ensures
            r == happened_before(self.clocks@, other.clocks@),
    {
        !ahead_somewhere(&self.clocks, &other.clocks) && ahead_somewhere(&other.clocks, &self.clocks)
    }

    /// Whether this clock and `other` describe concurrent writes: neither
    /// precedes the other and they differ.
    pub fn is_concurrent(&self, other: &VectorClock) -> (r: bool)
        requires
            self.clocks.wf(),
            other.clocks.wf(),
        ensures
            r == concurrent(self.clocks@, other.clocks@),
    {
        ahead_somewhere(&self.clocks, &other.clocks) && ahead_somewhere(&other.clocks, &self.clocks)
    }
}


// ── Laws of vector clocks ─────────────────────────────────────

/// No clock happens before itself.
pub proof fn lemma_happens_before_irreflexive(a: Map<Seq<char>, u64>)
    ensures
        !happened_before(a, a),
{
}

/// Two clocks never precede each other.
pub proof fn lemma_happens_before_asymmetric(a: Map<Seq<char>, u64>, b: Map<Seq<char>, u64>)
    ensures
        happened_before(a, b) ==> !happened_before(b, a),
{
}

/// Causal precedence is transitive.
pub proof fn lemma_happens_before_transitive(
    a: Map<Seq<char>, u64>,
    b: Map<Seq<char>, u64>,
    c: Map<Seq<char>, u64>,
)
    requires
        happened_before(a, b),
        happened_before(b, c),
    ensures
        happened_before(a, c),
{
    assert forall|n: Seq<char>| !(#[trigger] clock(a, n) > clock(c, n)) by {
        assert(!(clock(a, n) > clock(b, n)));
        assert(!(clock(b, n) > clock(c, n)));
    }
    let n = choose|n: Seq<char>| #[trigger] clock(b, n) > clock(a, n);
    assert(!(clock(b, n) > clock(c, n)));
    assert(clock(c, n) > clock(a, n));
}

/// Concurrency is symmetric.
pub proof fn lemma_concurrent_symmetric(a: Map<Seq<char>, u64>, b: Map<Seq<char>, u64>)
    ensures
        concurrent(a, b) == concurrent(b, a),
{
}

/// Two clocks are concurrent exactly when neither precedes the other and
/// they differ at some node; so no clock is concurrent with itself.
pub proof fn lemma_concurrent_iff_unordered_and_different(a: Map<Seq<char>, u64>, b: Map<Seq<char>, u64>)
    ensures
        concurrent(a, b) <==> (!happened_before(a, b) && !happened_before(b, a) && exists|n: Seq<char>|
            #[trigger] clock(a, n) != clock(b, n)),
        !concurrent(a, a),
{
    if exists|n: Seq<char>| #[trigger] clock(a, n) != clock(b, n) {
        let n = choose|n: Seq<char>| #[trigger] clock(a, n) != clock(b, n);
        if clock(a, n) > clock(b, n) {
            assert(exceeds(a, b));
        } else {
            assert(exceeds(b, a));
        }
    }
    if concurrent(a, b) {
        let n = choose|n: Seq<char>| #[trigger] clock(a, n) > clock(b, n);
        assert(clock(a, n) != clock(b, n));
    }
}

/// Advancing a node's counter yields a clock that the old one precedes.
pub proof fn lemma_increment_advances(a: Map<Seq<char>, u64>, node: Seq<char>)
    requires
        clock(a, node) < u64::MAX,
    ensures
        happened_before(a, a.insert(node, (clock(a, node) + 1) as u64)),
{
    let b = a.insert(node, (clock(a, node) + 1) as u64);
    assert forall|n: Seq<char>| !(#[trigger] clock(a, n) > clock(b, n)) by {
        if n != node {
            assert(clock(b, n) == clock(a, n));
        }
    }
    assert(clock(b, node) > clock(a, node));
}

/// The merge of two clocks is their least upper bound: neither is ahead of
/// it, and it is ahead of no clock that both are behind.
pub proof fn lemma_merge_least_upper_bound(
    a: Map<Seq<char>, u64>,
    b: Map<Seq<char>, u64>,
    c: Map<Seq<char>, u64>,
)
    ensures
        !exceeds(a, merged(a, b)),
        !exceeds(b, merged(a, b)),
        !exceeds(a, c) && !exceeds(b, c) ==> !exceeds(merged(a, b), c),
{
    let m = merged(a, b);
    assert forall|n: Seq<char>| #[trigger] clock(m, n) == max_u64(clock(a, n), clock(b, n)) by {
        if !a.contains_key(n) && !b.contains_key(n) {
            assert(!m.contains_key(n));
        }
    }
    assert forall|n: Seq<char>| !(#[trigger] clock(a, n) > clock(m, n)) by {
        assert(clock(m, n) == max_u64(clock(a, n), clock(b, n)));
    }
    assert forall|n: Seq<char>| !(#[trigger] clock(b, n) > clock(m, n)) by {
        assert(clock(m, n) == max_u64(clock(a, n), clock(b, n)));
    }
    if !exceeds(a, c) && !exceeds(b, c) {
        assert forall|n: Seq<char>| !(#[trigger] clock(m, n) > clock(c, n)) by {
            assert(clock(m, n) == max_u64(clock(a, n), clock(b, n)));
            assert(!(clock(a, n) > clock(c, n)));
            assert(!(clock(b, n) > clock(c, n)));
        }
    }
}

/// Merging is commutative and idempotent.
pub proof fn lemma_merge_commutative_idempotent(a: Map<Seq<char>, u64>, b: Map<Seq<char>, u64>)
    ensures
        merged(a, b) == merged(b, a),
        merged(a, a) == a,
{
    assert(merged(a, b) =~= merged(b, a));
    assert(merged(a, a) =~= a);
}

// ── Table reconciliation ──────────────────────────────────────

/// Whether two clocks list the same nodes with the same counters.
pub fn same_clocks(a: &StrMap<u64>, b: &StrMap<u64>) -> (r: bool)
    requires
        a.wf(),
        b.wf(),
    ensures
        r == (a@ == b@),
{
    proof {
        a.lemma_view();
        b.lemma_view();
    }
    if a.len() != b.len() {
        return false;
    }
    let mut i: usize = 0;
    while i < a.entry_count()
        invariant
            a.wf(),
            b.wf(),
            a@.len() == b@.len(),
            i <= a.entry_seq().len(),
            a.key_seq().len() == a.entry_seq().len(),
            forall|j: int|
                0 <= j < i ==> b@.contains_key(#[trigger] a.key_seq()[j]) && b@[a.key_seq()[j]]
                    == a@[a.key_seq()[j]],
        decreases a.entry_seq().len() - i,
    {
        let k = a.key_at(i);
        let v = *a.value_at(i);
        match b.get(k) {
            Some(w) => {
                if *w != v {
                    proof {
                        a.lemma_view();
                        assert(a@[k@] != b@[k@]);
                    }
                    return false;
                }
            },
            None => {
                proof {
                    a.lemma_view();
                    assert(a@.contains_key(k@));
                }
                return false;
            },
        }
        proof {
            a.lemma_view();
            assert(a.key_seq()[i as int] == k@);
        }
        i = i + 1;
    }
    proof {
        a.lemma_view();
        b.lemma_view();
        assert forall|k: Seq<char>| #[trigger] a@.contains_key(k) implies b@.contains_key(k) && b@[k] == a@[k] by {
            assert(a.key_seq().to_set().contains(k));
            let j = choose|j: int| 0 <= j < a.key_seq().len() && a.key_seq()[j] == k;
        }
        assert(a@.dom().subset_of(b@.dom()));
        vstd::set_lib::lemma_subset_equality(a@.dom(), b@.dom());
        assert(a@ =~= b@);
    }
    true
}

/// A table row's version entry: id, vector clock, version and checksum.
pub type RowVersion = (String, StrMap<u64>, u64, String);

/// Where each id's row stands: the last row that carries the id.
pub open spec fn row_index(rows: Seq<RowVersion>) -> Map<Seq<char>, usize>
    decreases rows.len(),
{
    if rows.len() == 0 {
        Map::empty()
    } else {
        row_index(rows.drop_last()).insert(rows.last().0@, (rows.len() - 1) as usize)
    }
}

/// The clock of the row that stands for `k`.
pub open spec fn row_clock(rows: Seq<RowVersion>, k: Seq<char>) -> Map<Seq<char>, u64> {
    rows[row_index(rows)[k] as int].1@
}

/// Whether a table key is pushed: only the local side has it, or both have
/// it with different clocks and the local clock alone is ahead.
pub open spec fn table_push(local: Seq<RowVersion>, remote: Seq<RowVersion>, k: Seq<char>) -> bool {
    row_index(local).contains_key(k) && (!row_index(remote).contains_key(k) || (row_clock(local, k)
        != row_clock(remote, k) && clock_order(row_clock(local, k), row_clock(remote, k))
        == VClockOrder::After))
}

/// Whether a table key is pulled: only the remote side has it, or both have
/// it with different clocks and the remote clock alone is ahead.
pub open spec fn table_pull(local: Seq<RowVersion>, remote: Seq<RowVersion>, k: Seq<char>) -> bool {
    row_index(remote).contains_key(k) && (!row_index(local).contains_key(k) || (row_clock(local, k)
        != row_clock(remote, k) && clock_order(row_clock(local, k), row_clock(remote, k))
        == VClockOrder::Before))
}

/// Whether a table key is in conflict: both sides have it with different
/// clocks, and neither clock alone is ahead.
pub open spec fn table_conflict(local: Seq<RowVersion>, remote: Seq<RowVersion>, k: Seq<char>) -> bool {
    &&& row_index(local).contains_key(k)
    &&& row_index(remote).contains_key(k)
    &&& row_clock(local, k) != row_clock(remote, k)
    &&& (clock_order(row_clock(local, k), row_clock(remote, k)) == VClockOrder::Concurrent
        || clock_order(row_clock(local, k), row_clock(remote, k)) == VClockOrder::Equal)
}

/// The version a row stands for in a conflict: timestamp zero, modified by
/// the node whose side it came from.
pub open spec fn row_version(row: RowVersion, node: Seq<char>) -> RecordVersionView {
    RecordVersionView {
        key: row.0@,
        version: row.2,
        vector_clock: row.1@,
        timestamp: 0,
        modified_by: node,
        checksum: row.3@,
    }
}

/// The conflict recorded for key `k`.
pub open spec fn table_conflict_view(
    local: Seq<RowVersion>,
    remote: Seq<RowVersion>,
    k: Seq<char>,
    local_node: Seq<char>,
    remote_node: Seq<char>,
) -> DataConflictView {
    DataConflictView {
        key: k,
        local_version: RecordVersionView { key: k, ..row_version(local[row_index(local)[k] as int], local_node) },
        remote_version: RecordVersionView { key: k, ..row_version(remote[row_index(remote)[k] as int], remote_node) },
        resolution: ConflictResolutionStrategy::KeepMostRecent,
    }
}

/// The record versions the rows of one side stand for, by id.
pub open spec fn row_versions(rows: Seq<RowVersion>, node: Seq<char>) -> Map<Seq<char>, RecordVersionView> {
    Map::new(
        |k: Seq<char>| row_index(rows).contains_key(k),
        |k: Seq<char>| row_version(rows[row_index(rows)[k] as int], node),
    )
}

/// A table is reconciled as its rows' record versions would be: an id is
/// pushed or pulled exactly when the record-level plan pushes or pulls it
/// (an id only one side holds included), and it is in conflict exactly when
/// the record-level plan finds a conflict, or the two clocks hold the same
/// counters under different entries (a zero entry on one side only), which
/// the record-level plan leaves alone.
pub proof fn lemma_table_plan_matches_record_plan(
    local: Seq<RowVersion>,
    remote: Seq<RowVersion>,
    local_node: Seq<char>,
    remote_node: Seq<char>,
    k: Seq<char>,
)
    ensures
        ({
            let l = row_versions(local, local_node);
            let r = row_versions(remote, remote_node);
            &&& table_push(local, remote, k) == (l.contains_key(k) && is_push(l, r, k))
            &&& table_pull(local, remote, k) == ((l.contains_key(k) && is_pull(l, r, k)) || (r.contains_key(k)
                && !l.contains_key(k)))
            &&& table_conflict(local, remote, k) == ((l.contains_key(k) && is_conflict(l, r, k)) || (
            l.contains_key(k) && r.contains_key(k) && clock_order(l[k].vector_clock, r[k].vector_clock)
                == VClockOrder::Equal && l[k].vector_clock != r[k].vector_clock))
        }),
{
    let l = row_versions(local, local_node);
    let r = row_versions(remote, remote_node);
    if l.contains_key(k) && r.contains_key(k) {
        assert(l[k].vector_clock == row_clock(local, k));
        assert(r[k].vector_clock == row_clock(remote, k));
        lemma_clock_order_laws(row_clock(local, k), row_clock(remote, k));
        if row_clock(local, k) == row_clock(remote, k) {
            assert(clock_order(row_clock(local, k), row_clock(remote, k)) == VClockOrder::Equal);
        }
    }
}

/// Whether no row's clock lists a zero counter.
pub open spec fn no_zero_counters(rows: Seq<RowVersion>) -> bool {
    forall|i: int, n: Seq<char>|
        #![trigger rows[i].1@.contains_key(n)]
        0 <= i < rows.len() && rows[i].1@.contains_key(n) ==> rows[i].1@[n] > 0
}

/// When no clock lists a zero counter, `reconcile_table` pushes, pulls and
/// finds in conflict exactly the ids that the record-level plan over the
/// rows' versions does: the same sets of ids.
pub proof fn lemma_reconcile_table_agrees_with_plan(
    local: Seq<RowVersion>,
    remote: Seq<RowVersion>,
    local_node: Seq<char>,
    remote_node: Seq<char>,
    lks: Seq<Seq<char>>,
    rks: Seq<Seq<char>>,
)
    requires
        lks.to_set() == row_versions(local, local_node).dom(),
        rks.to_set() == row_versions(remote, remote_node).dom(),
        no_zero_counters(local),
        no_zero_counters(remote),
        local.len() <= usize::MAX,
        remote.len() <= usize::MAX,
    ensures
        ({
            let l = row_versions(local, local_node);
            let r = row_versions(remote, remote_node);
            &&& Set::new(|k: Seq<char>| table_push(local, remote, k)) == push_keys(l, r, lks).to_set()
            &&& Set::new(|k: Seq<char>| table_pull(local, remote, k)) == (pull_keys(l, r, lks) + missing_keys(l, rks)).to_set()
            &&& Set::new(|k: Seq<char>| table_conflict(local, remote, k)) == conflict_keys(conflicts_of(l, r, lks)).to_set()
        }),
{
    let l = row_versions(local, local_node);
    let r = row_versions(remote, remote_node);
    assert forall|k: Seq<char>|
        (table_push(local, remote, k) == push_keys(l, r, lks).to_set().contains(k)) && (table_pull(local, remote, k)
            == (pull_keys(l, r, lks) + missing_keys(l, rks)).to_set().contains(k)) && (table_conflict(local, remote, k)
            == conflict_keys(conflicts_of(l, r, lks)).to_set().contains(k)) by {
        lemma_table_plan_matches_record_plan(local, remote, local_node, remote_node, k);
        lemma_plan_membership(l, r, lks, k);
        lemma_plan_membership(l, r, rks, k);
        lemma_concat_contains(pull_keys(l, r, lks), missing_keys(l, rks), k);
        assert(lks.to_set().contains(k) == l.contains_key(k));
        assert(rks.to_set().contains(k) == r.contains_key(k));
        if l.contains_key(k) && r.contains_key(k) {
            let a = l[k].vector_clock;
            let b = r[k].vector_clock;
            lemma_clock_order_laws(a, b);
            if clock_order(a, b) == VClockOrder::Equal {
                lemma_row_index_bounds(local, k);
                lemma_row_index_bounds(remote, k);
                let li = row_index(local)[k] as int;
                let ri = row_index(remote)[k] as int;
                assert(a == local[li].1@);
                assert(b == remote[ri].1@);
                assert forall|n: Seq<char>| a.contains_key(n) == b.contains_key(n) by {
                    assert(clock(a, n) == clock(b, n));
                    if a.contains_key(n) {
                        assert(local[li].1@.contains_key(n));
                    }
                    if b.contains_key(n) {
                        assert(remote[ri].1@.contains_key(n));
                    }
                }
                assert forall|n: Seq<char>| a.contains_key(n) implies a[n] == b[n] by {
                    assert(clock(a, n) == clock(b, n));
                }
                assert(a =~= b);
            }
        }
    }
    assert(Set::new(|k: Seq<char>| table_push(local, remote, k)) =~= push_keys(l, r, lks).to_set());
    assert(Set::new(|k: Seq<char>| table_pull(local, remote, k)) =~= (pull_keys(l, r, lks) + missing_keys(l, rks)).to_set());
    assert(Set::new(|k: Seq<char>| table_conflict(local, remote, k)) =~= conflict_keys(conflicts_of(l, r, lks)).to_set());
}

/// The keys of a sequence of conflicts.
pub open spec fn conflict_key_views(s: Seq<DataConflict>) -> Seq<Seq<char>> {
    s.map_values(|c: DataConflict| c.key@)
}

/// Every row's clock is well formed.
pub open spec fn rows_wf(rows: Seq<RowVersion>) -> bool {
    forall|i: int| 0 <= i < rows.len() ==> (#[trigger] rows[i]).1.wf()
}

proof fn lemma_row_index_bounds(rows: Seq<RowVersion>, k: Seq<char>)
    requires
        rows.len() <= usize::MAX,
    ensures
        row_index(rows).contains_key(k) ==> row_index(rows)[k] < rows.len() && rows[row_index(rows)[k] as int].0@ == k,
        row_index(rows).dom().finite(),
    decreases rows.len(),
{
    if rows.len() > 0 {
        let pre = rows.drop_last();
        lemma_row_index_bounds(pre, k);
        let last = rows[rows.len() - 1];
        assert(row_index(rows) == row_index(pre).insert(last.0@, (rows.len() - 1) as usize));
        if row_index(rows).contains_key(k) {
            if k == last.0@ {
                assert(row_index(rows)[k] == rows.len() - 1);
            } else {
                let idx = row_index(pre)[k] as int;
                assert(row_index(rows)[k] == row_index(pre)[k]);
                assert(rows[idx] == pre[idx]);
            }
        }
    }
}

/// For each id, the position of the last row that carries it.
fn index_rows(rows: &Vec<RowVersion>) -> (m: StrMap<usize>)
    ensures
        m.wf(),
        m@ == row_index(rows@),
{
    let mut m: StrMap<usize> = StrMap::new();
    let mut i: usize = 0;
    assert(rows@.take(0) =~= Seq::<RowVersion>::empty());
    while i < rows.len()
        invariant
            i <= rows@.len(),
            m.wf(),
            m@ == row_index(rows@.take(i as int)),
        decreases rows@.len() - i,
    {
        assert(rows@.take(i + 1).drop_last() =~= rows@.take(i as int));
        m.insert(rows[i].0.clone(), i);
        i = i + 1;
    }
    assert(rows@.take(rows@.len() as int) =~= rows@);
    m
}

/// Reconciles a relational table between local and remote rows. A row's
/// id stands for the last row that carries it. Ids on one side only are
/// pulled or pushed; ids on both sides with different clocks are pushed
/// when the local clock alone is ahead, pulled when the remote clock alone
/// is ahead, and otherwise recorded as a conflict to keep the most recent
/// version. Each id appears once; the order of ids is not specified.
pub fn reconcile_table(
    _table_name: &str,
    local_rows: &Vec<RowVersion>,
    remote_rows: &Vec<RowVersion>,
    local_node_id: &str,
    remote_node_id: &str,
) -> (plan: ReconciliationPlan)
    requires
        rows_wf(local_rows@),
        rows_wf(remote_rows@),
    ensures
        word_views(plan.push_records@).no_duplicates(),
        word_views(plan.push_records@).to_set() == Set::new(|k: Seq<char>| table_push(local_rows@, remote_rows@, k)),
        word_views(plan.pull_records@).no_duplicates(),
        word_views(plan.pull_records@).to_set() == Set::new(|k: Seq<char>| table_pull(local_rows@, remote_rows@, k)),
        forall|i: int|
            0 <= i < plan.conflicts@.len() ==> (#[trigger] plan.conflicts@[i])@ == table_conflict_view(
                local_rows@,
                remote_rows@,
                plan.conflicts@[i].key@,
                local_node_id@,
                remote_node_id@,
            ),
        conflict_key_views(plan.conflicts@).no_duplicates(),
        conflict_key_views(plan.conflicts@).to_set() == Set::new(
            |k: Seq<char>| table_conflict(local_rows@, remote_rows@, k),
        ),
        plan.estimated_bytes == 0,
{
    let ghost lr = local_rows@;
    let ghost rr = remote_rows@;
    let local_index = index_rows(local_rows);
    let remote_index = index_rows(remote_rows);
    let ghost lks = local_index.key_seq();
    let ghost rks = remote_index.key_seq();
    let mut pull_records: Vec<String> = Vec::new();
    let mut push_records: Vec<String> = Vec::new();
    let mut conflicts: Vec<DataConflict> = Vec::new();
    proof {
        assert(lr.len() == local_rows.len());
        assert(rr.len() == remote_rows.len());
        lemma_empty_seq(conflict_key_views(conflicts@));
        local_index.lemma_view();
        remote_index.lemma_view();
        lemma_empty_seq(word_views(push_records@));
        lemma_empty_seq(word_views(pull_records@));
        assert(rks.take(0).to_set() =~= Set::<Seq<char>>::empty());
        assert(lks.take(0).to_set() =~= Set::<Seq<char>>::empty());
    }
    // Ids that only the remote side has.
    let mut i: usize = 0;
    while i < remote_index.entry_count()
        invariant
            local_index.wf(),
            remote_index.wf(),
            local_index@ == row_index(lr),
            remote_index@ == row_index(rr),
            rks == remote_index.key_seq(),
            rks.no_duplicates(),
            rks.len() == remote_index.entry_seq().len(),
            i <= rks.len(),
            word_views(pull_records@).no_duplicates(),
            word_views(pull_records@).to_set() == Set::new(
                |k: Seq<char>| rks.take(i as int).to_set().contains(k) && !row_index(lr).contains_key(k),
            ),
        decreases rks.len() - i,
    {
        let key = remote_index.key_at(i);
        let ghost k = key@;
        let ghost before = word_views(pull_records@);
        proof {
            assert(rks[i as int] == k);
            lemma_take_insert(rks, i as int);
            lemma_not_in_prefix(rks, i as int);
        }
        if !local_index.contains_key(key) {
            assert(!before.contains(k)) by {
                if before.contains(k) {
                    assert(before.to_set().contains(k));
                }
            }
            proof {
                lemma_push_fresh(before, k);
            }
            pull_records.push(key.clone());
            assert(word_views(pull_records@) =~= before.push(k));
        }
        assert(word_views(pull_records@).to_set() =~= Set::new(
            |x: Seq<char>| rks.take(i + 1).to_set().contains(x) && !row_index(lr).contains_key(x),
        ));
        i = i + 1;
    }
    let ghost remote_only = word_views(pull_records@).to_set();
    proof {
        assert(rks.take(rks.len() as int) =~= rks);
        assert(lks.take(0).to_set() =~= Set::<Seq<char>>::empty());
    }
    // Ids that the local side has.
    let mut j: usize = 0;
    while j < local_index.entry_count()
        invariant
            local_index.wf(),
            remote_index.wf(),
            rows_wf(lr),
            rows_wf(rr),
            lr == local_rows@,
            rr == remote_rows@,
            local_index@ == row_index(lr),
            remote_index@ == row_index(rr),
            lks == local_index.key_seq(),
            lks.no_duplicates(),
            lks.len() == local_index.entry_seq().len(),
            j <= lks.len(),
            remote_only == Set::new(|k: Seq<char>| rks.to_set().contains(k) && !row_index(lr).contains_key(k)),
            rks.to_set() == row_index(rr).dom(),
            lks.to_set() == row_index(lr).dom(),
            word_views(push_records@).no_duplicates(),
            word_views(push_records@).to_set() == Set::new(
                |k: Seq<char>| lks.take(j as int).to_set().contains(k) && table_push(lr, rr, k),
            ),
            word_views(pull_records@).no_duplicates(),
            word_views(pull_records@).to_set() == remote_only.union(Set::new(
                |k: Seq<char>| lks.take(j as int).to_set().contains(k) && table_pull(lr, rr, k),
            )),
            forall|a: int|
                0 <= a < conflicts@.len() ==> (#[trigger] conflicts@[a])@ == table_conflict_view(
                    lr,
                    rr,
                    conflicts@[a].key@,
                    local_node_id@,
                    remote_node_id@,
                ),
            conflict_key_views(conflicts@).no_duplicates(),
            conflict_key_views(conflicts@).to_set() == Set::new(
                |k: Seq<char>| lks.take(j as int).to_set().contains(k) && table_conflict(lr, rr, k),
            ),
            lr.len() <= usize::MAX,
            rr.len() <= usize::MAX,
        decreases lks.len() - j,
    {
        let key = local_index.key_at(j);
        let li = *local_index.value_at(j);
        let ghost k = key@;
        let ghost push0 = word_views(push_records@);
        let ghost pull0 = word_views(pull_records@);
        let ghost conf0 = conflicts@;
        let ghost seen = lks.take(j as int).to_set();
        proof {
            local_index.lemma_view();
            assert(lks[j as int] == k);
            lemma_take_insert(lks, j as int);
            lemma_not_in_prefix(lks, j as int);
            assert(local_index@.contains_key(k));
            assert(li == row_index(lr)[k]);
            lemma_row_index_bounds(lr, k);
            assert(!push0.contains(k)) by {
                if push0.contains(k) {
                    assert(push0.to_set().contains(k));
                }
            }
            assert(!remote_only.contains(k));
            assert(!pull0.contains(k)) by {
                if pull0.contains(k) {
                    assert(pull0.to_set().contains(k));
                }
            }
            assert(!conflict_key_views(conf0).contains(k)) by {
                if conflict_key_views(conf0).contains(k) {
                    assert(conflict_key_views(conf0).to_set().contains(k));
                }
            }
        }
        let local_vc = &local_rows[li].1;
        match remote_index.get(key) {
            None => {
                proof {
                    lemma_push_fresh(push0, k);
                }
                push_records.push(key.clone());
                assert(word_views(push_records@) =~= push0.push(k));
            },
            Some(ri) => {
                let ri = *ri;
                proof {
                    lemma_row_index_bounds(rr, k);
                }
                let remote_vc = &remote_rows[ri].1;
                assert(local_vc.wf());
                assert(remote_vc.wf());
                if !same_clocks(local_vc, remote_vc) {
                    let order = compare_vector_clocks(local_vc, remote_vc);
                    if order == VClockOrder::After {
                        proof {
                            lemma_push_fresh(push0, k);
                        }
                        push_records.push(key.clone());
                        assert(word_views(push_records@) =~= push0.push(k));
                    } else if order == VClockOrder::Before {
                        proof {
                            lemma_push_fresh(pull0, k);
                        }
                        pull_records.push(key.clone());
                        assert(word_views(pull_records@) =~= pull0.push(k));
                    } else {
                        let c = DataConflict {
                            key: key.clone(),
                            local_version: RecordVersion {
                                key: key.clone(),
                                version: local_rows[li].2,
                                vector_clock: local_vc.clone(),
                                timestamp: 0,
                                modified_by: local_node_id.to_owned(),
                                checksum: local_rows[li].3.clone(),
                            },
                            remote_version: RecordVersion {
                                key: key.clone(),
                                version: remote_rows[ri].2,
                                vector_clock: remote_vc.clone(),
                                timestamp: 0,
                                modified_by: remote_node_id.to_owned(),
                                checksum: remote_rows[ri].3.clone(),
                            },
                            resolution: ConflictResolutionStrategy::KeepMostRecent,
                        };
                        assert(c@ == table_conflict_view(lr, rr, k, local_node_id@, remote_node_id@));
                        proof {
                            lemma_push_fresh(conflict_key_views(conf0), k);
                        }
                        conflicts.push(c);
                        assert(conflict_key_views(conflicts@) =~= conflict_key_views(conf0).push(k));
                    }
                }
            },
        }
        proof {
            let s2 = lks.take(j + 1).to_set();
            assert(word_views(push_records@).to_set() =~= Set::new(
                |x: Seq<char>| s2.contains(x) && table_push(lr, rr, x),
            ));
            assert(word_views(pull_records@).to_set() =~= remote_only.union(Set::new(
                |x: Seq<char>| s2.contains(x) && table_pull(lr, rr, x),
            )));
            assert(conflict_key_views(conflicts@).to_set() =~= Set::new(
                |x: Seq<char>| s2.contains(x) && table_conflict(lr, rr, x),
            ));
        }
        j = j + 1;
    }
    proof {
        assert(lks.take(lks.len() as int) =~= lks);
        assert(Set::new(|k: Seq<char>| lks.to_set().contains(k) && table_push(lr, rr, k)) =~= Set::new(
            |k: Seq<char>| table_push(lr, rr, k),
        ));
        assert(remote_only.union(Set::new(|k: Seq<char>| lks.to_set().contains(k) && table_pull(lr, rr, k)))
            =~= Set::new(|k: Seq<char>| table_pull(lr, rr, k)));
        assert(Set::new(|k: Seq<char>| lks.to_set().contains(k) && table_conflict(lr, rr, k)) =~= Set::new(
            |k: Seq<char>| table_conflict(lr, rr, k),
        ));
    }
    ReconciliationPlan { pull_records, push_records, conflicts, estimated_bytes: 0 }
}

// ── Quorum decisions ──────────────────────────────────────────

/// The number of approving votes in `votes`.
pub open spec fn approvals(votes: Seq<QuorumVote>) -> nat
    decreases votes.len(),
{
    if votes.len() == 0 {
        0
    } else {
        approvals(votes.drop_last()) + if votes.last().vote {
            1nat
        } else {
            0nat
        }
    }
}

/// Whether a write is confirmed: at least `quorum` votes approve it.
pub fn write_confirmed(votes: &Vec<QuorumVote>, quorum: usize) -> (r: bool)
    ensures
        r == (approvals(votes@) >= quorum),
{
    let mut count: usize = 0;
    let mut i: usize = 0;
    assert(votes@.take(0) =~= Seq::<QuorumVote>::empty());
    while i < votes.len()
        invariant
            i <= votes@.len(),
            count == approvals(votes@.take(i as int)),
            count <= i,
        decreases votes@.len() - i,
    {
        assert(votes@.take(i + 1).drop_last() =~= votes@.take(i as int));
        if votes[i].vote {
            count = count + 1;
        }
        i = i + 1;
    }
    assert(votes@.take(votes@.len() as int) =~= votes@);
    count >= quorum
}

/// Whether the observed versions agree: no two of them describe
/// concurrent writes.
pub open spec fn versions_agree(versions: Seq<VectorClock>) -> bool {
    forall|i: int, j: int|
        0 <= i < versions.len() && 0 <= j < versions.len() ==> !concurrent(
            (#[trigger] versions[i]).clocks@,
            (#[trigger] versions[j]).clocks@,
        )
}

/// Copies of one version, or causally ordered versions, agree.
pub proof fn lemma_ordered_versions_agree(versions: Seq<VectorClock>)
    requires
        forall|i: int, j: int|
            0 <= i < j < versions.len() ==> !exceeds((#[trigger] versions[i]).clocks@, (#[trigger] versions[j]).clocks@),
    ensures
        versions_agree(versions),
{
    assert forall|i: int, j: int| 0 <= i < versions.len() && 0 <= j < versions.len() implies !concurrent(
        (#[trigger] versions[i]).clocks@,
        (#[trigger] versions[j]).clocks@,
    ) by {
        if i == j {
            lemma_concurrent_iff_unordered_and_different(versions[i].clocks@, versions[j].clocks@);
        }
    }
}

/// Checks that the observed replica versions agree: no two of them
/// describe concurrent writes.
pub fn verify_version_agreement(versions: &Vec<VectorClock>) -> (r: bool)
    requires
        forall|i: int| 0 <= i < versions@.len() ==> (#[trigger] versions@[i]).clocks.wf(),
    ensures
        r == versions_agree(versions@),
{
    let mut i: usize = 0;
    while i < versions.len()
        invariant
            i <= versions@.len(),
            forall|k: int| 0 <= k < versions@.len() ==> (#[trigger] versions@[k]).clocks.wf(),
            forall|a: int, b: int|
                0 <= a < i && 0 <= b < versions@.len() ==> !concurrent(
                    (#[trigger] versions@[a]).clocks@,
                    (#[trigger] versions@[b]).clocks@,
                ),
        decreases versions@.len() - i,
    {
        let mut j: usize = 0;
        while j < versions.len()
            invariant
                i < versions@.len(),
                j <= versions@.len(),
                forall|k: int| 0 <= k < versions@.len() ==> (#[trigger] versions@[k]).clocks.wf(),
                forall|a: int, b: int|
                    0 <= a < i && 0 <= b < versions@.len() ==> !concurrent(
                        (#[trigger] versions@[a]).clocks@,
                        (#[trigger] versions@[b]).clocks@,
                    ),
                forall|b: int| 0 <= b < j ==> !concurrent(versions@[i as int].clocks@, (#[trigger] versions@[b]).clocks@),
            decreases versions@.len() - j,
        {
            if versions[i].is_concurrent(&versions[j]) {
                return false;
            }
            j = j + 1;
        }
        i = i + 1;
    }
    true
}

/// Whether a consistent read was reached: enough versions were observed
/// and they agree.
pub fn read_is_consistent(versions: &Vec<VectorClock>, read_quorum: usize) -> (r: bool)
    requires
        forall|i: int| 0 <= i < versions@.len() ==> (#[trigger] versions@[i]).clocks.wf(),
    ensures
        r == (versions@.len() >= read_quorum && versions_agree(versions@)),
{
    versions.len() >= read_quorum && verify_version_agreement(versions)
}

/// A clock made from a plain counter map, as read from a table's version
/// entries.
pub fn cluster_vector_clock_from_map(map: &StrMap<u64>) -> (vc: VectorClock)
    requires
        map.wf(),
    ensures
        vc.clocks.wf(),
        vc.clocks@ == map@,
{
    let mut vc = VectorClock::new("sync");
    vc.clocks = map.clone();
    vc
}
} // verus!
