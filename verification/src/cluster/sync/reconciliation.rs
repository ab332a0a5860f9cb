//! Cross-node data reconciliation: conflict detection by vector clocks and
//! the plan that brings two replicas together.

use vstd::prelude::*;
use crate::cluster::sync::{clock, exceeds, happened_before, now_ms, ahead_somewhere, clock_of};
use crate::strmap::StrMap;
use crate::text::word_views;

verus! {

/// Version information for a record.
pub struct RecordVersion {
    /// Record key.
    pub key: String,
    /// Version number.
    pub version: u64,
    /// Vector clock.
    pub vector_clock: StrMap<u64>,
    /// Last modified timestamp.
    pub timestamp: u64,
    /// Node that last modified the record.
    pub modified_by: String,
    /// Data checksum.
    pub checksum: String,
}

/// A record version as plain values.
pub struct RecordVersionView {
    pub key: Seq<char>,
    pub version: u64,
    pub vector_clock: Map<Seq<char>, u64>,
    pub timestamp: u64,
    pub modified_by: Seq<char>,
    pub checksum: Seq<char>,
}

impl View for RecordVersion {
    type V = RecordVersionView;

    open spec fn view(&self) -> RecordVersionView {
        RecordVersionView {
            key: self.key@,
            version: self.version,
            vector_clock: self.vector_clock@,
            timestamp: self.timestamp,
            modified_by: self.modified_by@,
            checksum: self.checksum@,
        }
    }
}

impl Clone for RecordVersion {
    fn clone(&self) -> (r: Self)
        ensures
            r.vector_clock.wf() == self.vector_clock.wf(),
            self.vector_clock.wf() ==> r@ == self@,
    {
        RecordVersion {
            key: self.key.clone(),
            version: self.version,
            vector_clock: self.vector_clock.clone(),
            timestamp: self.timestamp,
            modified_by: self.modified_by.clone(),
            checksum: self.checksum.clone(),
        }
    }
}

impl RecordVersion {
    /// The first version of `key`, written by `modified_by` with `clock`,
    /// stamped with the clock's reading (see [`Self::new_at`]) and an empty
    /// checksum.
    pub fn new(key: &str, modified_by: &str, clock: StrMap<u64>) -> (r: Self)
        ensures
            r.key@ == key@,
            r.version == 1,
            r.vector_clock == clock,
            r.modified_by@ == modified_by@,
            r.checksum@ == Seq::<char>::empty(),
            r.timestamp <= i64::MAX,
    {
        Self::new_at(key, modified_by, clock, now_ms())
    }

    /// The first version of `key`, written by `modified_by` with `clock`,
    /// stamped `now_ms`, with an empty checksum.
    pub fn new_at(key: &str, modified_by: &str, clock: StrMap<u64>, now_ms: u64) -> (r: Self)
        ensures
            r.key@ == key@,
            r.version == 1,
            r.vector_clock == clock,
            r.modified_by@ == modified_by@,
            r.checksum@ == Seq::<char>::empty(),
            r.timestamp == now_ms,
    {
        RecordVersion {
            key: key.to_owned(),
            version: 1,
            vector_clock: clock,
            timestamp: now_ms,
            modified_by: modified_by.to_owned(),
            checksum: String::new(),
        }
    }

    /// Records a modification by `node_id`: its counter and the version go
    /// up by one, and it becomes the last modifier.
    pub fn advance(&mut self, node_id: &str)
        requires
            old(self).vector_clock.wf(),
            clock(old(self).vector_clock@, node_id@) < u64::MAX,
            old(self).version < u64::MAX,
        ensures
            final(self).vector_clock.wf(),
            final(self).vector_clock@ == old(self).vector_clock@.insert(
                node_id@,
                (clock(old(self).vector_clock@, node_id@) + 1) as u64,
            ),
            final(self).version == old(self).version + 1,
            final(self).modified_by@ == node_id@,
            final(self).key == old(self).key,
            final(self).checksum == old(self).checksum,
    {
        let node = node_id.to_owned();
        let c = clock_of(&self.vector_clock, &node);
        self.vector_clock.insert(node, c + 1);
        self.version = self.version + 1;
        self.timestamp = now_ms();
        self.modified_by = node_id.to_owned();
    }
}

/// Conflict resolution strategy.
#[derive(Debug, Clone, Copy, PartialEq, Eq, Structural)]
pub enum ConflictResolutionStrategy {
    /// Keep the local version.
    KeepLocal,
    /// Keep the remote version.
    KeepRemote,
    /// Keep the most recent version by timestamp.
    KeepMostRecent,
    /// Merge both versions.
    Merge,
    /// Resolve by hand.
    Manual,
}

/// A conflict between two versions of a record.
pub struct DataConflict {
    /// Conflict key.
    pub key: String,
    /// Local version.
    pub local_version: RecordVersion,
    /// Remote version.
    pub remote_version: RecordVersion,
    /// Resolution applied.
    pub resolution: ConflictResolutionStrategy,
}

/// A conflict as plain values.
pub struct DataConflictView {
    pub key: Seq<char>,
    pub local_version: RecordVersionView,
    pub remote_version: RecordVersionView,
    pub resolution: ConflictResolutionStrategy,
}

impl View for DataConflict {
    type V = DataConflictView;

    open spec fn view(&self) -> DataConflictView {
        DataConflictView {
            key: self.key@,
            local_version: self.local_version@,
            remote_version: self.remote_version@,
            resolution: self.resolution,
        }
    }
}

/// A reconciliation plan.
pub struct ReconciliationPlan {
    /// Records to pull from the remote side.
    pub pull_records: Vec<String>,
    /// Records to push to the remote side.
    pub push_records: Vec<String>,
    /// Conflicts to resolve.
    pub conflicts: Vec<DataConflict>,
    /// Estimated transfer size in bytes.
    pub estimated_bytes: u64,
}

/// Merkle tree node for efficient comparison.
pub struct MerkleNode {
    /// Node hash.
    pub hash: String,
    /// Child hashes, for an internal node.
    pub children: Option<Vec<String>>,
    /// Key range covered.
    pub key_range: Option<(String, String)>,
    /// Whether this node is a leaf.
    pub is_leaf: bool,
}

/// Reconciliation statistics.
#[derive(Debug, Clone, Copy, PartialEq, Eq, Structural)]
pub struct ReconciliationStats {
    /// Total conflicts found.
    pub conflicts_found: u64,
    /// Conflicts resolved automatically.
    pub conflicts_resolved: u64,
    /// Records pulled.
    pub records_pulled: u64,
    /// Records pushed.
    pub records_pushed: u64,
    /// Bytes transferred.
    pub bytes_transferred: u64,
    /// Duration in milliseconds.
    pub duration_ms: u64,
}

impl Default for ReconciliationStats {
    fn default() -> (s: Self)
        ensures
            s == (ReconciliationStats {
                conflicts_found: 0,
                conflicts_resolved: 0,
                records_pulled: 0,
                records_pushed: 0,
                bytes_transferred: 0,
                duration_ms: 0,
            }),
    {
        ReconciliationStats {
            conflicts_found: 0,
            conflicts_resolved: 0,
            records_pulled: 0,
            records_pushed: 0,
            bytes_transferred: 0,
            duration_ms: 0,
        }
    }
}

/// How one vector clock relates to another.
#[derive(Debug, Clone, Copy, PartialEq, Eq, Structural)]
pub enum VClockOrder {
    /// The first happens before the second: keep the second.
    Before,
    /// The first happens after the second: keep the first.
    After,
    /// Concurrent: merge or resolve by hand.
    Concurrent,
    /// Identical.
    Equal,
}

/// How `local` relates to `remote`, by which of them is ahead somewhere.
pub open spec fn clock_order(local: Map<Seq<char>, u64>, remote: Map<Seq<char>, u64>) -> VClockOrder {
    match (exceeds(local, remote), exceeds(remote, local)) {
        (false, false) => VClockOrder::Equal,
        (true, false) => VClockOrder::After,
        (false, true) => VClockOrder::Before,
        (true, true) => VClockOrder::Concurrent,
    }
}

/// Compares two vector clocks: how `local` relates to `remote`.
pub fn compare_vector_clocks(local: &StrMap<u64>, remote: &StrMap<u64>) -> (r: VClockOrder)
    requires
        local.wf(),
        remote.wf(),
    ensures
        r == clock_order(local@, remote@),
{
    let local_newer = ahead_somewhere(local, remote);
    let remote_newer = ahead_somewhere(remote, local);
    if !local_newer && !remote_newer {
        VClockOrder::Equal
    } else if local_newer && !remote_newer {
        VClockOrder::After
    } else if !local_newer && remote_newer {
        VClockOrder::Before
    } else {
        VClockOrder::Concurrent
    }
}

/// Which version wins a conflict, and by which strategy: the causally later
/// one (local when the clocks are equal), and for concurrent clocks the one
/// with the later timestamp, local on a tie.
pub open spec fn resolution(local: RecordVersionView, remote: RecordVersionView) -> (
    RecordVersionView,
    ConflictResolutionStrategy,
) {
    match clock_order(local.vector_clock, remote.vector_clock) {
        VClockOrder::Equal | VClockOrder::After => (local, ConflictResolutionStrategy::KeepLocal),
        VClockOrder::Before => (remote, ConflictResolutionStrategy::KeepRemote),
        VClockOrder::Concurrent => if local.timestamp >= remote.timestamp {
            (local, ConflictResolutionStrategy::KeepMostRecent)
        } else {
            (remote, ConflictResolutionStrategy::KeepMostRecent)
        },
    }
}

/// Resolves a conflict between two versions of a record by their vector
/// clocks, falling back to timestamps for concurrent writes.
pub fn resolve_cross_cluster_conflict(local: &RecordVersion, remote: &RecordVersion) -> (r: (
    RecordVersion,
    ConflictResolutionStrategy,
))
    requires
        local.vector_clock.wf(),
        remote.vector_clock.wf(),
    ensures
        r.0.vector_clock.wf(),
        (r.0@, r.1) == resolution(local@, remote@),
{
    match compare_vector_clocks(&local.vector_clock, &remote.vector_clock) {
        VClockOrder::Equal | VClockOrder::After => (local.clone(), ConflictResolutionStrategy::KeepLocal),
        VClockOrder::Before => (remote.clone(), ConflictResolutionStrategy::KeepRemote),
        VClockOrder::Concurrent => {
            if local.timestamp >= remote.timestamp {
                (local.clone(), ConflictResolutionStrategy::KeepMostRecent)
            } else {
                (remote.clone(), ConflictResolutionStrategy::KeepMostRecent)
            }
        },
    }
}


// ── Reconciliation plans ──────────────────────────────────────

/// The versions of a map of records, as plain values.
pub open spec fn version_views(m: Map<Seq<char>, RecordVersion>) -> Map<Seq<char>, RecordVersionView> {
    m.map_values(|v: RecordVersion| v@)
}

/// The conflicts of a plan, as plain values.
pub open spec fn conflict_views(s: Seq<DataConflict>) -> Seq<DataConflictView> {
    s.map_values(|c: DataConflict| c@)
}

/// Whether a local key goes to the remote side: the remote lacks it, or its
/// local clock is ahead.
pub open spec fn is_push(
    l: Map<Seq<char>, RecordVersionView>,
    r: Map<Seq<char>, RecordVersionView>,
    k: Seq<char>,
) -> bool {
    !r.contains_key(k) || clock_order(l[k].vector_clock, r[k].vector_clock) == VClockOrder::After
}

/// Whether a local key is fetched from the remote side: its remote clock is
/// ahead.
pub open spec fn is_pull(
    l: Map<Seq<char>, RecordVersionView>,
    r: Map<Seq<char>, RecordVersionView>,
    k: Seq<char>,
) -> bool {
    r.contains_key(k) && clock_order(l[k].vector_clock, r[k].vector_clock) == VClockOrder::Before
}

/// Whether a local key was written concurrently on both sides.
pub open spec fn is_conflict(
    l: Map<Seq<char>, RecordVersionView>,
    r: Map<Seq<char>, RecordVersionView>,
    k: Seq<char>,
) -> bool {
    r.contains_key(k) && clock_order(l[k].vector_clock, r[k].vector_clock) == VClockOrder::Concurrent
}

/// The keys of `ks`, in order, that are pushed.
pub open spec fn push_keys(
    l: Map<Seq<char>, RecordVersionView>,
    r: Map<Seq<char>, RecordVersionView>,
    ks: Seq<Seq<char>>,
) -> Seq<Seq<char>>
    decreases ks.len(),
{
    if ks.len() == 0 {
        Seq::empty()
    } else {
        let p = push_keys(l, r, ks.drop_last());
        if is_push(l, r, ks.last()) {
            p.push(ks.last())
        } else {
            p
        }
    }
}

/// The keys of `ks`, in order, that are pulled.
pub open spec fn pull_keys(
    l: Map<Seq<char>, RecordVersionView>,
    r: Map<Seq<char>, RecordVersionView>,
    ks: Seq<Seq<char>>,
) -> Seq<Seq<char>>
    decreases ks.len(),
{
    if ks.len() == 0 {
        Seq::empty()
    } else {
        let p = pull_keys(l, r, ks.drop_last());
        if is_pull(l, r, ks.last()) {
            p.push(ks.last())
        } else {
            p
        }
    }
}

/// The keys of `ks`, in order, that the local side lacks.
pub open spec fn missing_keys(l: Map<Seq<char>, RecordVersionView>, ks: Seq<Seq<char>>) -> Seq<Seq<char>>
    decreases ks.len(),
{
    if ks.len() == 0 {
        Seq::empty()
    } else {
        let p = missing_keys(l, ks.drop_last());
        if !l.contains_key(ks.last()) {
            p.push(ks.last())
        } else {
            p
        }
    }
}

/// The conflicts found among the keys of `ks`, in order.
pub open spec fn conflicts_of(
    l: Map<Seq<char>, RecordVersionView>,
    r: Map<Seq<char>, RecordVersionView>,
    ks: Seq<Seq<char>>,
) -> Seq<DataConflictView>
    decreases ks.len(),
{
    if ks.len() == 0 {
        Seq::empty()
    } else {
        let p = conflicts_of(l, r, ks.drop_last());
        let k = ks.last();
        if is_conflict(l, r, k) {
            p.push(
                DataConflictView {
                    key: k,
                    local_version: l[k],
                    remote_version: r[k],
                    resolution: resolution(l[k], r[k]).1,
                },
            )
        } else {
            p
        }
    }
}

/// Whether every version in the map has a well-formed clock.
pub open spec fn clocks_wf(m: Map<Seq<char>, RecordVersion>) -> bool {
    forall|k: Seq<char>| #[trigger] m.contains_key(k) ==> m[k].vector_clock.wf()
}

/// Builds the plan that reconciles two replicas: keys only the local side
/// has, or whose local clock is ahead, are pushed; keys whose remote clock
/// is ahead, or that only the remote side has, are pulled; keys written
/// concurrently become conflicts; identical clocks are left alone. Local
/// keys come in the local map's order, then the remote-only keys in the
/// remote map's order; each pulled or pushed record counts 1024 bytes.
pub fn build_cross_cluster_reconciliation_plan(
    local_versions: &StrMap<RecordVersion>,
    remote_versions: &StrMap<RecordVersion>,
) -> (plan: ReconciliationPlan)
    requires
        local_versions.wf(),
        remote_versions.wf(),
        clocks_wf(local_versions@),
        clocks_wf(remote_versions@),
        (local_versions@.len() + remote_versions@.len()) * 1024 <= u64::MAX,
    ensures
        word_views(plan.push_records@) == push_keys(
            version_views(local_versions@),
            version_views(remote_versions@),
            local_versions.key_seq(),
        ),
        word_views(plan.pull_records@) == pull_keys(
            version_views(local_versions@),
            version_views(remote_versions@),
            local_versions.key_seq(),
        ) + missing_keys(version_views(local_versions@), remote_versions.key_seq()),
        conflict_views(plan.conflicts@) == conflicts_of(
            version_views(local_versions@),
            version_views(remote_versions@),
            local_versions.key_seq(),
        ),
        plan.estimated_bytes == (plan.pull_records@.len() + plan.push_records@.len()) * 1024,
{
    let ghost lv = version_views(local_versions@);
    let ghost rv = version_views(remote_versions@);
    let ghost lks = local_versions.key_seq();
    let ghost rks = remote_versions.key_seq();
    let mut pull_records: Vec<String> = Vec::new();
    let mut push_records: Vec<String> = Vec::new();
    let mut conflicts: Vec<DataConflict> = Vec::new();
    proof {
        local_versions.lemma_view();
        remote_versions.lemma_view();
        assert(lks.take(0) =~= Seq::<Seq<char>>::empty());
        assert(word_views(pull_records@) =~= Seq::<Seq<char>>::empty());
        assert(word_views(push_records@) =~= Seq::<Seq<char>>::empty());
        assert(conflict_views(conflicts@) =~= Seq::<DataConflictView>::empty());
    }
    let mut i: usize = 0;
    while i < local_versions.entry_count()
        invariant
            local_versions.wf(),
            remote_versions.wf(),
            clocks_wf(local_versions@),
            clocks_wf(remote_versions@),
            lv == version_views(local_versions@),
            rv == version_views(remote_versions@),
            lks == local_versions.key_seq(),
            lks.len() == local_versions.entry_seq().len(),
            i <= lks.len(),
            word_views(push_records@) == push_keys(lv, rv, lks.take(i as int)),
            word_views(pull_records@) == pull_keys(lv, rv, lks.take(i as int)),
            conflict_views(conflicts@) == conflicts_of(lv, rv, lks.take(i as int)),
            push_records@.len() + pull_records@.len() <= i,
        decreases lks.len() - i,
    {
        let key = local_versions.key_at(i);
        let local_ver = local_versions.value_at(i);
        let ghost k = key@;
        proof {
            local_versions.lemma_view();
            assert(lks[i as int] == k);
            assert(lks.take(i + 1).drop_last() =~= lks.take(i as int));
            assert(lks.take(i + 1).last() == k);
            assert(local_versions@.contains_key(k));
            assert(local_versions@[k] == *local_ver);
            assert(lv[k] == local_ver@);
        }
        let ghost push0 = push_records@;
        let ghost pull0 = pull_records@;
        let ghost conf0 = conflicts@;
        match remote_versions.get(key) {
            None => {
                push_records.push(key.clone());
                assert(word_views(push_records@) =~= word_views(push0).push(k));
            },
            Some(remote_ver) => {
                assert(remote_versions@.contains_key(k));
                assert(rv[k] == remote_ver@);
                match compare_vector_clocks(&local_ver.vector_clock, &remote_ver.vector_clock) {
                    VClockOrder::Equal => {},
                    VClockOrder::After => {
                        push_records.push(key.clone());
                        assert(word_views(push_records@) =~= word_views(push0).push(k));
                    },
                    VClockOrder::Before => {
                        pull_records.push(key.clone());
                        assert(word_views(pull_records@) =~= word_views(pull0).push(k));
                    },
                    VClockOrder::Concurrent => {
                        let (_, strategy) = resolve_cross_cluster_conflict(local_ver, remote_ver);
                        let c = DataConflict {
                            key: key.clone(),
                            local_version: local_ver.clone(),
                            remote_version: remote_ver.clone(),
                            resolution: strategy,
                        };
                        conflicts.push(c);
                        assert(conflict_views(conflicts@) =~= conflict_views(conf0).push(
                            DataConflictView {
                                key: k,
                                local_version: lv[k],
                                remote_version: rv[k],
                                resolution: resolution(lv[k], rv[k]).1,
                            },
                        ));
                    },
                }
            },
        }
        i = i + 1;
    }
    proof {
        assert(lks.take(lks.len() as int) =~= lks);
        assert(rks.take(0) =~= Seq::<Seq<char>>::empty());
        assert(word_views(pull_records@) =~= pull_keys(lv, rv, lks) + missing_keys(lv, rks.take(0)));
    }
    let ghost pulled_local = pull_keys(lv, rv, lks);
    let mut j: usize = 0;
    while j < remote_versions.entry_count()
        invariant
            local_versions.wf(),
            remote_versions.wf(),
            lv == version_views(local_versions@),
            rks == remote_versions.key_seq(),
            rks.len() == remote_versions.entry_seq().len(),
            j <= rks.len(),
            word_views(pull_records@) == pulled_local + missing_keys(lv, rks.take(j as int)),
            push_records@.len() + pull_records@.len() <= lks.len() + j,
            lks.len() == local_versions@.len(),
            rks.len() == remote_versions@.len(),
            (lks.len() + rks.len()) * 1024 <= u64::MAX,
        decreases rks.len() - j,
    {
        let key = remote_versions.key_at(j);
        let ghost k = key@;
        proof {
            remote_versions.lemma_view();
            assert(rks[j as int] == k);
            assert(rks.take(j + 1).drop_last() =~= rks.take(j as int));
            assert(rks.take(j + 1).last() == k);
        }
        let ghost pull0 = pull_records@;
        if !local_versions.contains_key(key) {
            pull_records.push(key.clone());
            assert(word_views(pull_records@) =~= word_views(pull0).push(k));
            assert(pulled_local + missing_keys(lv, rks.take(j + 1)) =~= (pulled_local + missing_keys(lv, rks.take(j as int))).push(k));
        } else {
            assert(lv.contains_key(k));
        }
        j = j + 1;
    }
    proof {
        assert(rks.take(rks.len() as int) =~= rks);
    }
    let estimated_bytes = (pull_records.len() as u64 + push_records.len() as u64) * 1024;
    ReconciliationPlan { pull_records, push_records, conflicts, estimated_bytes }
}

// ── Laws of clock comparison and planning ─────────────────────

/// The order seen from the other side.
pub open spec fn flipped(o: VClockOrder) -> VClockOrder {
    match o {
        VClockOrder::Before => VClockOrder::After,
        VClockOrder::After => VClockOrder::Before,
        VClockOrder::Concurrent => VClockOrder::Concurrent,
        VClockOrder::Equal => VClockOrder::Equal,
    }
}

/// Comparing the other way round flips the order; `Before` is exactly
/// causal precedence; `Equal` means every node has the same counter.
pub proof fn lemma_clock_order_laws(a: Map<Seq<char>, u64>, b: Map<Seq<char>, u64>)
    ensures
        clock_order(b, a) == flipped(clock_order(a, b)),
        (clock_order(a, b) == VClockOrder::Before) == happened_before(a, b),
        (clock_order(a, b) == VClockOrder::After) == happened_before(b, a),
        (clock_order(a, b) == VClockOrder::Equal) == (forall|n: Seq<char>| #[trigger] clock(a, n) == clock(b, n)),
{
    if forall|n: Seq<char>| #[trigger] clock(a, n) == clock(b, n) {
        assert forall|n: Seq<char>| !(#[trigger] clock(a, n) > clock(b, n)) by {
            assert(clock(a, n) == clock(b, n));
        }
        assert forall|n: Seq<char>| !(#[trigger] clock(b, n) > clock(a, n)) by {
            assert(clock(a, n) == clock(b, n));
        }
    }
    if clock_order(a, b) == VClockOrder::Equal {
        assert forall|n: Seq<char>| #[trigger] clock(a, n) == clock(b, n) by {
            assert(!(clock(a, n) > clock(b, n)));
            assert(!(clock(b, n) > clock(a, n)));
        }
    }
}

/// The winner of a resolved conflict is never causally older than the other
/// version, and it is one of the two.
pub proof fn lemma_resolution_keeps_latest(local: RecordVersionView, remote: RecordVersionView)
    ensures
        resolution(local, remote).0 == local || resolution(local, remote).0 == remote,
        resolution(local, remote).0 == local ==> !happened_before(local.vector_clock, remote.vector_clock),
        resolution(local, remote).0 == remote ==> !happened_before(remote.vector_clock, local.vector_clock)
            || local == remote,
{
}

/// The keys of a sequence of conflicts.
pub open spec fn conflict_keys(s: Seq<DataConflictView>) -> Seq<Seq<char>> {
    s.map_values(|c: DataConflictView| c.key)
}

pub(crate) proof fn lemma_plan_membership(
    l: Map<Seq<char>, RecordVersionView>,
    r: Map<Seq<char>, RecordVersionView>,
    ks: Seq<Seq<char>>,
    k: Seq<char>,
)
    ensures
        push_keys(l, r, ks).contains(k) == (ks.contains(k) && is_push(l, r, k)),
        pull_keys(l, r, ks).contains(k) == (ks.contains(k) && is_pull(l, r, k)),
        missing_keys(l, ks).contains(k) == (ks.contains(k) && !l.contains_key(k)),
        conflict_keys(conflicts_of(l, r, ks)).contains(k) == (ks.contains(k) && is_conflict(l, r, k)),
    decreases ks.len(),
{
    if ks.len() > 0 {
        let pre = ks.drop_last();
        lemma_plan_membership(l, r, pre, k);
        assert(ks =~= pre.push(ks.last()));
        assert(ks.contains(k) == (pre.contains(k) || ks.last() == k)) by {
            if ks.contains(k) {
                let i = choose|i: int| 0 <= i < ks.len() && ks[i] == k;
                if i < pre.len() {
                    assert(pre[i] == k);
                }
            }
            if pre.contains(k) {
                let i = choose|i: int| 0 <= i < pre.len() && pre[i] == k;
                assert(ks[i] == k);
            }
            if ks.last() == k {
                assert(ks[ks.len() - 1] == k);
            }
        }
        let c0 = conflicts_of(l, r, pre);
        let last = ks.last();
        if is_conflict(l, r, last) {
            let cv = DataConflictView {
                key: last,
                local_version: l[last],
                remote_version: r[last],
                resolution: resolution(l[last], r[last]).1,
            };
            assert(conflict_keys(c0.push(cv)) =~= conflict_keys(c0).push(last));
        }
        assert forall|s: Seq<Seq<char>>, x: Seq<char>| #[trigger] s.push(x).contains(k) == (s.contains(k) || x == k) by {
            if s.push(x).contains(k) {
                let i = choose|i: int| 0 <= i < s.push(x).len() && s.push(x)[i] == k;
                if i < s.len() {
                    assert(s[i] == k);
                }
            }
            if s.contains(k) {
                let i = choose|i: int| 0 <= i < s.len() && s[i] == k;
                assert(s.push(x)[i] == k);
            }
            if x == k {
                assert(s.push(x)[s.len() as int] == k);
            }
        }
    }
}

/// A reconciliation plan sorts every key held by either side into exactly
/// one of: pushed, pulled, in conflict, or left alone because both sides
/// hold it with identical clocks.
pub proof fn lemma_plan_classifies_each_key(
    l: Map<Seq<char>, RecordVersionView>,
    r: Map<Seq<char>, RecordVersionView>,
    ks: Seq<Seq<char>>,
    rks: Seq<Seq<char>>,
    k: Seq<char>,
)
    requires
        ks.to_set() == l.dom(),
        rks.to_set() == r.dom(),
        l.contains_key(k) || r.contains_key(k),
    ensures
        ({
            let pushed = push_keys(l, r, ks).contains(k);
            let pulled = (pull_keys(l, r, ks) + missing_keys(l, rks)).contains(k);
            let conflict = conflict_keys(conflicts_of(l, r, ks)).contains(k);
            let same = l.contains_key(k) && r.contains_key(k) && clock_order(
                l[k].vector_clock,
                r[k].vector_clock,
            ) == VClockOrder::Equal;
            &&& pushed || pulled || conflict || same
            &&& !(pushed && pulled) && !(pushed && conflict) && !(pushed && same)
            &&& !(pulled && conflict) && !(pulled && same) && !(conflict && same)
        }),
{
    lemma_plan_membership(l, r, ks, k);
    lemma_plan_membership(l, r, rks, k);
    let a = pull_keys(l, r, ks);
    let b = missing_keys(l, rks);
    assert((a + b).contains(k) == (a.contains(k) || b.contains(k))) by {
        if (a + b).contains(k) {
            let i = choose|i: int| 0 <= i < (a + b).len() && (a + b)[i] == k;
            if i < a.len() {
                assert(a[i] == k);
            } else {
                assert(b[i - a.len()] == k);
            }
        }
        if a.contains(k) {
            let i = choose|i: int| 0 <= i < a.len() && a[i] == k;
            assert((a + b)[i] == k);
        }
        if b.contains(k) {
            let i = choose|i: int| 0 <= i < b.len() && b[i] == k;
            assert((a + b)[i + a.len()] == k);
        }
    }
    assert(ks.to_set().contains(k) == l.contains_key(k));
    assert(rks.to_set().contains(k) == r.contains_key(k));
}

proof fn lemma_plan_no_dups(
    l: Map<Seq<char>, RecordVersionView>,
    r: Map<Seq<char>, RecordVersionView>,
    ks: Seq<Seq<char>>,
)
    requires
        ks.no_duplicates(),
    ensures
        push_keys(l, r, ks).no_duplicates(),
        pull_keys(l, r, ks).no_duplicates(),
        missing_keys(l, ks).no_duplicates(),
    decreases ks.len(),
{
    if ks.len() > 0 {
        let pre = ks.drop_last();
        let x = ks.last();
        assert(pre.no_duplicates());
        lemma_plan_no_dups(l, r, pre);
        lemma_plan_membership(l, r, pre, x);
        assert(!pre.contains(x)) by {
            if pre.contains(x) {
                let i = choose|i: int| 0 <= i < pre.len() && pre[i] == x;
                assert(ks[i] == ks[ks.len() - 1]);
            }
        }
        assert forall|p: Seq<Seq<char>>| p.no_duplicates() && !p.contains(x) implies #[trigger] p.push(x).no_duplicates() by {
            assert forall|i: int, j: int| 0 <= i < j < p.push(x).len() implies p.push(x)[i] != p.push(x)[j] by {
                if j == p.len() {
                    assert(p[i] == p.push(x)[i]);
                }
            }
        }
    }
}

proof fn lemma_concat_no_dups(a: Seq<Seq<char>>, b: Seq<Seq<char>>)
    requires
        a.no_duplicates(),
        b.no_duplicates(),
        forall|k: Seq<char>| a.contains(k) ==> !b.contains(k),
    ensures
        (a + b).no_duplicates(),
{
    assert forall|i: int, j: int| 0 <= i < j < (a + b).len() implies (a + b)[i] != (a + b)[j] by {
        if j < a.len() {
        } else if i >= a.len() {
            assert((a + b)[i] == b[i - a.len()] && (a + b)[j] == b[j - a.len()]);
        } else {
            assert(a.contains((a + b)[i]));
            assert(b.contains((a + b)[j])) by {
                assert(b[j - a.len()] == (a + b)[j]);
            }
        }
    }
}

pub(crate) proof fn lemma_concat_contains(a: Seq<Seq<char>>, b: Seq<Seq<char>>, k: Seq<char>)
    ensures
        (a + b).contains(k) == (a.contains(k) || b.contains(k)),
{
    if (a + b).contains(k) {
        let i = choose|i: int| 0 <= i < (a + b).len() && (a + b)[i] == k;
        if i < a.len() {
            assert(a[i] == k);
        } else {
            assert(b[i - a.len()] == k);
        }
    }
    if a.contains(k) {
        let i = choose|i: int| 0 <= i < a.len() && a[i] == k;
        assert((a + b)[i] == k);
    }
    if b.contains(k) {
        let i = choose|i: int| 0 <= i < b.len() && b[i] == k;
        assert((a + b)[i + a.len()] == k);
    }
}

/// Swapping the two sides of a reconciliation swaps its pushes and pulls
/// and keeps its conflicts: what one side pushes the other pulls, the same
/// keys conflict, and the plans move the same number of records, so their
/// byte estimates agree.
pub proof fn lemma_plan_symmetric(
    l: Map<Seq<char>, RecordVersionView>,
    r: Map<Seq<char>, RecordVersionView>,
    lks: Seq<Seq<char>>,
    rks: Seq<Seq<char>>,
)
    requires
        lks.to_set() == l.dom(),
        rks.to_set() == r.dom(),
        lks.no_duplicates(),
        rks.no_duplicates(),
    ensures
        push_keys(r, l, rks).to_set() == (pull_keys(l, r, lks) + missing_keys(l, rks)).to_set(),
        (pull_keys(r, l, rks) + missing_keys(r, lks)).to_set() == push_keys(l, r, lks).to_set(),
        conflict_keys(conflicts_of(r, l, rks)).to_set() == conflict_keys(conflicts_of(l, r, lks)).to_set(),
        (pull_keys(r, l, rks) + missing_keys(r, lks)).len() + push_keys(r, l, rks).len() == (pull_keys(l, r, lks)
            + missing_keys(l, rks)).len() + push_keys(l, r, lks).len(),
{
    let p_push = push_keys(l, r, lks);
    let p_pull = pull_keys(l, r, lks) + missing_keys(l, rks);
    let q_push = push_keys(r, l, rks);
    let q_pull = pull_keys(r, l, rks) + missing_keys(r, lks);
    assert forall|k: Seq<char>|
        (q_push.contains(k) == p_pull.contains(k)) && (q_pull.contains(k) == p_push.contains(k)) && (conflict_keys(
            conflicts_of(r, l, rks),
        ).contains(k) == conflict_keys(conflicts_of(l, r, lks)).contains(k)) by {
        lemma_plan_membership(l, r, lks, k);
        lemma_plan_membership(l, r, rks, k);
        lemma_plan_membership(r, l, rks, k);
        lemma_plan_membership(r, l, lks, k);
        lemma_concat_contains(pull_keys(l, r, lks), missing_keys(l, rks), k);
        lemma_concat_contains(pull_keys(r, l, rks), missing_keys(r, lks), k);
        assert(lks.to_set().contains(k) == l.contains_key(k));
        assert(rks.to_set().contains(k) == r.contains_key(k));
        if l.contains_key(k) && r.contains_key(k) {
            lemma_clock_order_laws(l[k].vector_clock, r[k].vector_clock);
        }
    }
    assert(q_push.to_set() =~= p_pull.to_set());
    assert(q_pull.to_set() =~= p_push.to_set());
    assert forall|k: Seq<char>|
        #[trigger] conflict_keys(conflicts_of(r, l, rks)).to_set().contains(k) == conflict_keys(
            conflicts_of(l, r, lks),
        ).to_set().contains(k) by {
        lemma_plan_membership(l, r, lks, k);
        lemma_plan_membership(r, l, rks, k);
        assert(lks.to_set().contains(k) == l.contains_key(k));
        assert(rks.to_set().contains(k) == r.contains_key(k));
        if l.contains_key(k) && r.contains_key(k) {
            lemma_clock_order_laws(l[k].vector_clock, r[k].vector_clock);
        }
    }
    assert(conflict_keys(conflicts_of(r, l, rks)).to_set() =~= conflict_keys(conflicts_of(l, r, lks)).to_set());
    lemma_plan_no_dups(l, r, lks);
    lemma_plan_no_dups(l, r, rks);
    lemma_plan_no_dups(r, l, rks);
    lemma_plan_no_dups(r, l, lks);
    assert forall|k: Seq<char>| pull_keys(l, r, lks).contains(k) implies !missing_keys(l, rks).contains(k) by {
        lemma_plan_membership(l, r, lks, k);
        lemma_plan_membership(l, r, rks, k);
        assert(lks.to_set().contains(k));
    }
    assert forall|k: Seq<char>| pull_keys(r, l, rks).contains(k) implies !missing_keys(r, lks).contains(k) by {
        lemma_plan_membership(r, l, rks, k);
        lemma_plan_membership(r, l, lks, k);
        assert(rks.to_set().contains(k));
    }
    lemma_concat_no_dups(pull_keys(l, r, lks), missing_keys(l, rks));
    lemma_concat_no_dups(pull_keys(r, l, rks), missing_keys(r, lks));
    p_push.unique_seq_to_set();
    p_pull.unique_seq_to_set();
    q_push.unique_seq_to_set();
    q_pull.unique_seq_to_set();
}

} // verus!
