//! Replication of writes to replica nodes.
//!
//! Sending the writes is the caller's: it reports, target by target,
//! whether the replica acknowledged. What the outcome is follows from the
//! replication mode and is decided here.

use vstd::prelude::*;
use crate::text::{str_eq, word_views};

verus! {

/// How writes are replicated to replicas.
#[derive(Debug, Clone, Copy, PartialEq, Eq, Structural)]
pub enum ReplicationMode {
    /// All targets must acknowledge before the write is committed.
    Sync,
    /// Writes are acknowledged at once and replicated in the background.
    Async,
    /// A majority of the targets must acknowledge.
    Quorum,
}

impl Default for ReplicationMode {
    fn default() -> (m: Self)
        ensures
            m == ReplicationMode::Quorum,
    {
        ReplicationMode::Quorum
    }
}

/// Tuning parameters for replication.
#[derive(Debug, Clone, Copy, PartialEq, Eq, Structural)]
pub struct ReplicationConfig {
    /// Replication mode.
    pub mode: ReplicationMode,
    /// Number of replicas each write is fanned out to.
    pub replication_factor: usize,
    /// Timeout for replica writes (ms).
    pub write_timeout_ms: u64,
    /// Timeout for replica reads (ms).
    pub read_timeout_ms: u64,
    /// Maximum entries per batch operation.
    pub max_batch_size: usize,
}

impl Default for ReplicationConfig {
    fn default() -> (c: Self)
        ensures
            c == (ReplicationConfig {
                mode: ReplicationMode::Quorum,
                replication_factor: 3,
                write_timeout_ms: 5000,
                read_timeout_ms: 5000,
                max_batch_size: 100,
            }),
    {
        ReplicationConfig {
            mode: ReplicationMode::Quorum,
            replication_factor: 3,
            write_timeout_ms: 5000,
            read_timeout_ms: 5000,
            max_batch_size: 100,
        }
    }
}

/// Final state of a replicated write.
#[derive(Debug, Clone, Copy, PartialEq, Eq, Structural)]
pub enum ReplicationStatus {
    /// The write reached the required number of replicas.
    Committed,
    /// The write was accepted but is not yet durable on replicas.
    Accepted,
    /// The write could not be replicated.
    Failed,
}

/// Outcome of a replicated write.
pub struct ReplicationResult {
    /// ID of the replicated operation.
    pub operation_id: String,
    /// Final replication status.
    pub status: ReplicationStatus,
    /// Number of successful acknowledgements.
    pub successes: usize,
    /// Nodes that failed to acknowledge.
    pub failures: Vec<String>,
    /// Total number of target nodes.
    pub total_targets: usize,
    /// Timestamp (ms) of the replication attempt.
    pub timestamp: u64,
}

/// Health of a single replica node.
pub struct ReplicaHealthStatus {
    /// Node ID of the replica.
    pub node_id: String,
    /// Whether the replica is reachable.
    pub healthy: bool,
    /// Timestamp (ms) of the last health check.
    pub last_check: u64,
}

/// The status a write reaches with `successes` acknowledgements out of
/// `total` targets: under `Sync` every target, under `Quorum` a majority
/// of the targets, under `Async` at least one.
pub open spec fn replication_status(config: ReplicationConfig, successes: nat, total: nat) -> ReplicationStatus {
    match config.mode {
        ReplicationMode::Sync => if successes == total {
            ReplicationStatus::Committed
        } else {
            ReplicationStatus::Failed
        },
        ReplicationMode::Quorum => if successes >= total / 2 + 1 {
            ReplicationStatus::Committed
        } else {
            ReplicationStatus::Failed
        },
        ReplicationMode::Async => if successes > 0 {
            ReplicationStatus::Accepted
        } else {
            ReplicationStatus::Failed
        },
    }
}

/// The targets whose write was not acknowledged, in order.
pub open spec fn unacknowledged(targets: Seq<Seq<char>>, acked: Seq<bool>) -> Seq<Seq<char>>
    decreases targets.len(),
{
    if targets.len() == 0 || acked.len() < targets.len() {
        Seq::empty()
    } else {
        let prev = unacknowledged(targets.drop_last(), acked.take(targets.len() - 1));
        if acked[targets.len() - 1] {
            prev
        } else {
            prev.push(targets.last())
        }
    }
}

/// The number of acknowledged targets.
pub open spec fn acknowledged(acked: Seq<bool>) -> nat
    decreases acked.len(),
{
    if acked.len() == 0 {
        0
    } else {
        acknowledged(acked.drop_last()) + if acked.last() {
            1nat
        } else {
            0nat
        }
    }
}

/// Whether target `i` acknowledged a write: the local node always does;
/// another target does when its answer was a successful acknowledgement.
pub open spec fn acknowledged_by(target: Seq<char>, local: Seq<char>, answer: Option<bool>) -> bool {
    target == local || answer == Some(true)
}

/// Which targets acknowledged a write, target by target: `answers[i]` is
/// the success flag of target `i`'s acknowledgement, or `None` when it gave
/// none (no client, no answer, or another message). The local node is not
/// asked and counts as acknowledged.
pub fn acknowledgements(target_nodes: &Vec<String>, local_node: &str, answers: &Vec<Option<bool>>) -> (acked: Vec<bool>)
    requires
        answers@.len() == target_nodes@.len(),
    ensures
        acked@.len() == target_nodes@.len(),
        forall|i: int|
            0 <= i < acked@.len() ==> #[trigger] acked@[i] == acknowledged_by(target_nodes@[i]@, local_node@, answers@[i]),
{
    let mut acked: Vec<bool> = Vec::new();
    let mut i: usize = 0;
    while i < target_nodes.len()
        invariant
            answers@.len() == target_nodes@.len(),
            i <= target_nodes@.len(),
            acked@.len() == i,
            forall|j: int|
                0 <= j < i ==> #[trigger] acked@[j] == acknowledged_by(target_nodes@[j]@, local_node@, answers@[j]),
        decreases target_nodes@.len() - i,
    {
        let ok = if str_eq(target_nodes[i].as_str(), local_node) {
            true
        } else {
            match answers[i] {
                Some(b) => b,
                None => false,
            }
        };
        acked.push(ok);
        i = i + 1;
    }
    acked
}

/// Sums up a write's replication: `acked[i]` tells whether target `i`
/// acknowledged it (the local node counts as acknowledged). The failures
/// are the other targets, in order; the status follows the mode.
pub fn summarize_replication(
    config: &ReplicationConfig,
    operation_id: &str,
    target_nodes: &Vec<String>,
    acked: &Vec<bool>,
    now_ms: u64,
) -> (r: ReplicationResult)
    requires
        acked@.len() == target_nodes@.len(),
    ensures
        r.operation_id@ == operation_id@,
        r.successes == acknowledged(acked@),
        word_views(r.failures@) == unacknowledged(word_views(target_nodes@), acked@),
        r.total_targets == target_nodes@.len(),
        r.status == replication_status(*config, acknowledged(acked@), target_nodes@.len()),
        r.timestamp == now_ms,
{
    let ghost tv = word_views(target_nodes@);
    let mut successes: usize = 0;
    let mut failures: Vec<String> = Vec::new();
    let mut i: usize = 0;
    assert(acked@.take(0) =~= Seq::<bool>::empty());
    assert(word_views(failures@) =~= Seq::<Seq<char>>::empty());
    while i < target_nodes.len()
        invariant
            acked@.len() == target_nodes@.len(),
            tv == word_views(target_nodes@),
            i <= target_nodes@.len(),
            successes == acknowledged(acked@.take(i as int)),
            successes <= i,
            word_views(failures@) == unacknowledged(tv.take(i as int), acked@.take(i as int)),
        decreases target_nodes@.len() - i,
    {
        assert(acked@.take(i + 1).drop_last() =~= acked@.take(i as int));
        assert(tv.take(i + 1).drop_last() =~= tv.take(i as int));
        assert(acked@.take(i + 1).take(i as int) =~= acked@.take(i as int));
        if acked[i] {
            successes = successes + 1;
        } else {
            let ghost before = word_views(failures@);
            failures.push(target_nodes[i].clone());
            assert(word_views(failures@) =~= before.push(tv[i as int]));
        }
        i = i + 1;
    }
    assert(acked@.take(acked@.len() as int) =~= acked@);
    assert(tv.take(tv.len() as int) =~= tv);
    let total = target_nodes.len();
    let quorum = total / 2 + 1;
    let status = match config.mode {
        ReplicationMode::Sync => if successes == total {
            ReplicationStatus::Committed
        } else {
            ReplicationStatus::Failed
        },
        ReplicationMode::Quorum => if successes >= quorum {
            ReplicationStatus::Committed
        } else {
            ReplicationStatus::Failed
        },
        ReplicationMode::Async => if successes > 0 {
            ReplicationStatus::Accepted
        } else {
            ReplicationStatus::Failed
        },
    };
    ReplicationResult {
        operation_id: crate::text::owned(operation_id),
        status,
        successes,
        failures,
        total_targets: total,
        timestamp: now_ms,
    }
}

/// The commit rule of each mode: `Sync` commits when every target
/// acknowledged, `Quorum` when a strict majority of the targets did,
/// `Async` accepts once any did; anything less fails.
pub proof fn lemma_replication_status_rule(config: ReplicationConfig, successes: nat, total: nat)
    ensures
        config.mode == ReplicationMode::Sync ==> (replication_status(config, successes, total) == ReplicationStatus::Committed
            <==> successes == total),
        config.mode == ReplicationMode::Quorum ==> (replication_status(config, successes, total)
            == ReplicationStatus::Committed <==> 2 * successes > total),
        config.mode == ReplicationMode::Async ==> (replication_status(config, successes, total)
            == ReplicationStatus::Accepted <==> successes > 0),
        config.mode != ReplicationMode::Async ==> replication_status(config, successes, total) != ReplicationStatus::Accepted,
        config.mode == ReplicationMode::Async ==> replication_status(config, successes, total)
            != ReplicationStatus::Committed,
        replication_status(config, successes, total) == ReplicationStatus::Failed <==> !(replication_status(
            config,
            successes,
            total,
        ) == ReplicationStatus::Committed || replication_status(config, successes, total) == ReplicationStatus::Accepted),
{
}

/// Acknowledgements are counted one per acknowledging target: none for no
/// targets, one more for each further target that acknowledged, never more
/// than the targets.
pub proof fn lemma_acknowledged_counts(acked: Seq<bool>, b: bool)
    ensures
        acknowledged(Seq::<bool>::empty()) == 0,
        acknowledged(acked.push(b)) == acknowledged(acked) + (if b { 1int } else { 0int }),
        acknowledged(acked) <= acked.len(),
    decreases acked.len(),
{
    assert(acked.push(b).drop_last() =~= acked);
    if acked.len() > 0 {
        lemma_acknowledged_counts(acked.drop_last(), acked.last());
    }
}

/// With one answer per target, the failures are the targets that did not
/// acknowledge: as many as the targets less the acknowledgements, each a
/// target whose answer was no.
pub proof fn lemma_unacknowledged_targets(targets: Seq<Seq<char>>, acked: Seq<bool>)
    requires
        acked.len() == targets.len(),
    ensures
        unacknowledged(targets, acked).len() + acknowledged(acked) == targets.len(),
        forall|k: int|
            0 <= k < unacknowledged(targets, acked).len() ==> exists|i: int|
                0 <= i < targets.len() && !acked[i] && targets[i] == #[trigger] unacknowledged(targets, acked)[k],
    decreases targets.len(),
{
    if targets.len() > 0 {
        let n = targets.len() - 1;
        let t0 = targets.drop_last();
        let a0 = acked.take(n);
        lemma_unacknowledged_targets(t0, a0);
        assert(acked.drop_last() =~= a0);
        let prev = unacknowledged(t0, a0);
        let u = unacknowledged(targets, acked);
        assert forall|k: int| 0 <= k < u.len() implies exists|i: int|
            0 <= i < targets.len() && !acked[i] && targets[i] == #[trigger] u[k] by {
            if k < prev.len() {
                assert(u[k] == prev[k]);
                let i = choose|i: int| 0 <= i < t0.len() && !a0[i] && t0[i] == #[trigger] prev[k];
                assert(targets[i] == t0[i] && acked[i] == a0[i]);
            } else {
                assert(u[k] == targets[n]);
            }
        }
    }
}

/// A target acknowledges a write when it is the local node, or when it
/// answered with a successful acknowledgement; no answer, or a failed
/// one, from another node is no acknowledgement.
pub proof fn lemma_acknowledgement_rule(target: Seq<char>, local: Seq<char>, answer: Option<bool>)
    ensures
        target == local ==> acknowledged_by(target, local, answer),
        target != local ==> (acknowledged_by(target, local, answer) <==> answer == Some(true)),
{
}

} // verus!
