use primusdb::cluster::sync::reconciliation::{
    build_cross_cluster_reconciliation_plan, compare_vector_clocks, resolve_cross_cluster_conflict,
    ConflictResolutionStrategy, RecordVersion, ReconciliationStats, VClockOrder,
};
use primusdb::cluster::sync::consensus::{ConsensusConfig, ConsensusRole, ConsensusState};
use primusdb::cluster::sync::{
    cluster_vector_clock_from_map, millis_from_reading, read_is_consistent, reconcile_table, verify_version_agreement, write_confirmed,
    QuorumVote, SyncConfig, VectorClock,
};
use primusdb::strmap::StrMap;

fn clock(entries: &[(&str, u64)]) -> StrMap<u64> {
    let mut m = StrMap::new();
    for (k, v) in entries {
        m.insert(k.to_string(), *v);
    }
    m
}

fn vc(entries: &[(&str, u64)]) -> VectorClock {
    cluster_vector_clock_from_map(&clock(entries))
}

fn version(key: &str, by: &str, entries: &[(&str, u64)], timestamp: u64) -> RecordVersion {
    let mut v = RecordVersion::new(key, by, clock(entries));
    v.timestamp = timestamp;
    v
}

#[test]
fn new_clock_has_one_tick() {
    let c = VectorClock::new("a");
    assert_eq!(c.clocks.len(), 1);
    assert_eq!(c.clocks.get(&"a".to_string()), Some(&1));
}

#[test]
fn increment_advances_and_happens_after() {
    let before = vc(&[("a", 1), ("b", 2)]);
    let mut after = vc(&[("a", 1), ("b", 2)]);
    after.increment("a");
    assert_eq!(after.clocks.get(&"a".to_string()), Some(&2));
    assert!(before.happens_before(&after));
    assert!(!after.happens_before(&before));
    let mut fresh = vc(&[]);
    fresh.increment("z");
    assert_eq!(fresh.clocks.get(&"z".to_string()), Some(&1));
}

#[test]
fn happens_before_is_irreflexive_and_missing_counts_zero() {
    let a = vc(&[("a", 1)]);
    assert!(!a.happens_before(&a));
    assert!(!a.is_concurrent(&a));
    let zero = vc(&[("b", 0)]);
    let empty = vc(&[]);
    assert!(!zero.happens_before(&empty));
    assert!(!empty.happens_before(&zero));
    assert!(empty.happens_before(&a));
}

#[test]
fn concurrent_clocks() {
    let a = vc(&[("a", 2), ("b", 1)]);
    let b = vc(&[("a", 1), ("b", 2)]);
    assert!(a.is_concurrent(&b));
    assert!(b.is_concurrent(&a));
}

#[test]
fn merge_takes_node_wise_maximum() {
    let mut a = vc(&[("a", 3), ("b", 1)]);
    a.timestamp = 5;
    let mut b = vc(&[("b", 4), ("c", 2)]);
    b.timestamp = 9;
    a.merge(&b);
    assert_eq!(a.clocks.get(&"a".to_string()), Some(&3));
    assert_eq!(a.clocks.get(&"b".to_string()), Some(&4));
    assert_eq!(a.clocks.get(&"c".to_string()), Some(&2));
    assert_eq!(a.clocks.len(), 3);
    assert_eq!(a.timestamp, 9);
    assert!(!a.happens_before(&b));
    assert!(b.happens_before(&a));
}

#[test]
fn compare_clock_orders() {
    assert_eq!(compare_vector_clocks(&clock(&[("a", 1)]), &clock(&[("a", 1), ("b", 0)])), VClockOrder::Equal);
    assert_eq!(compare_vector_clocks(&clock(&[("a", 2)]), &clock(&[("a", 1)])), VClockOrder::After);
    assert_eq!(compare_vector_clocks(&clock(&[("a", 1)]), &clock(&[("a", 2)])), VClockOrder::Before);
    assert_eq!(
        compare_vector_clocks(&clock(&[("a", 2), ("b", 1)]), &clock(&[("a", 1), ("b", 2)])),
        VClockOrder::Concurrent
    );
}

#[test]
fn conflict_resolution_prefers_causally_later_then_recent() {
    let old = version("k", "n1", &[("n1", 1)], 100);
    let new = version("k", "n2", &[("n1", 1), ("n2", 1)], 50);
    let (w, s) = resolve_cross_cluster_conflict(&old, &new);
    assert_eq!(w.modified_by, "n2");
    assert_eq!(s, ConflictResolutionStrategy::KeepRemote);
    let (w, s) = resolve_cross_cluster_conflict(&new, &old);
    assert_eq!(w.modified_by, "n2");
    assert_eq!(s, ConflictResolutionStrategy::KeepLocal);
    let x = version("k", "x", &[("x", 1)], 10);
    let y = version("k", "y", &[("y", 1)], 20);
    let (w, s) = resolve_cross_cluster_conflict(&x, &y);
    assert_eq!(w.modified_by, "y");
    assert_eq!(s, ConflictResolutionStrategy::KeepMostRecent);
    let y_same_time = version("k", "y", &[("y", 1)], 10);
    let (w, _) = resolve_cross_cluster_conflict(&x, &y_same_time);
    assert_eq!(w.modified_by, "x");
}

#[test]
fn record_version_advance() {
    let mut v = RecordVersion::new("k", "a", clock(&[("a", 1)]));
    assert_eq!(v.version, 1);
    assert_eq!(v.checksum, "");
    v.advance("b");
    assert_eq!(v.version, 2);
    assert_eq!(v.modified_by, "b");
    assert_eq!(v.vector_clock.get(&"b".to_string()), Some(&1));
    assert_eq!(v.vector_clock.get(&"a".to_string()), Some(&1));
}

#[test]
fn cross_cluster_plan_classifies_keys() {
    let mut local = StrMap::new();
    let mut remote = StrMap::new();
    local.insert("only_local".to_string(), version("only_local", "l", &[("l", 1)], 1));
    local.insert("newer_local".to_string(), version("newer_local", "l", &[("l", 2)], 1));
    local.insert("newer_remote".to_string(), version("newer_remote", "l", &[("l", 1)], 1));
    local.insert("same".to_string(), version("same", "l", &[("l", 1)], 1));
    local.insert("both".to_string(), version("both", "l", &[("l", 1)], 1));
    remote.insert("newer_local".to_string(), version("newer_local", "r", &[("l", 1)], 1));
    remote.insert("newer_remote".to_string(), version("newer_remote", "r", &[("l", 3)], 1));
    remote.insert("same".to_string(), version("same", "r", &[("l", 1)], 1));
    remote.insert("both".to_string(), version("both", "r", &[("r", 1)], 2));
    remote.insert("only_remote".to_string(), version("only_remote", "r", &[("r", 1)], 1));
    let plan = build_cross_cluster_reconciliation_plan(&local, &remote);
    assert_eq!(plan.push_records, vec!["only_local", "newer_local"]);
    assert_eq!(plan.pull_records, vec!["newer_remote", "only_remote"]);
    assert_eq!(plan.conflicts.len(), 1);
    assert_eq!(plan.conflicts[0].key, "both");
    assert_eq!(plan.conflicts[0].resolution, ConflictResolutionStrategy::KeepMostRecent);
    assert_eq!(plan.conflicts[0].remote_version.modified_by, "r");
    assert_eq!(plan.estimated_bytes, 4 * 1024);
}

#[test]
fn table_reconciliation() {
    let row = |id: &str, entries: &[(&str, u64)], version: u64| (id.to_string(), clock(entries), version, format!("sum-{id}"));
    let local = vec![
        row("a", &[("n", 1)], 1),
        row("b", &[("n", 2)], 2),
        row("c", &[("n", 1)], 1),
        row("d", &[("x", 1)], 1),
        row("e", &[("n", 1)], 1),
        row("z", &[("n", 5)], 5),
    ];
    let remote = vec![
        row("b", &[("n", 1)], 1),
        row("c", &[("n", 2)], 2),
        row("d", &[("y", 1)], 1),
        row("e", &[("n", 1)], 1),
        row("f", &[("n", 1)], 1),
        row("z", &[("n", 5), ("m", 0)], 5),
    ];
    let plan = reconcile_table("t", &local, &remote, "L", "R");
    let mut push = plan.push_records.clone();
    push.sort();
    let mut pull = plan.pull_records.clone();
    pull.sort();
    assert_eq!(push, vec!["a", "b"]);
    assert_eq!(pull, vec!["c", "f"]);
    let mut keys: Vec<String> = plan.conflicts.iter().map(|c| c.key.clone()).collect();
    keys.sort();
    assert_eq!(keys, vec!["d", "z"]);
    for c in &plan.conflicts {
        assert_eq!(c.local_version.modified_by, "L");
        assert_eq!(c.remote_version.modified_by, "R");
        assert_eq!(c.local_version.timestamp, 0);
        assert_eq!(c.resolution, ConflictResolutionStrategy::KeepMostRecent);
    }
    assert_eq!(plan.estimated_bytes, 0);
}

#[test]
fn table_reconciliation_uses_last_row_of_an_id() {
    let local = vec![
        ("a".to_string(), clock(&[("n", 9)]), 9, "x".to_string()),
        ("a".to_string(), clock(&[("n", 1)]), 1, "y".to_string()),
    ];
    let remote = vec![("a".to_string(), clock(&[("n", 2)]), 2, "z".to_string())];
    let plan = reconcile_table("t", &local, &remote, "L", "R");
    assert_eq!(plan.pull_records, vec!["a"]);
    assert!(plan.push_records.is_empty());
}

#[test]
fn quorum_and_agreement() {
    let vote = |v: bool| QuorumVote { node_id: "n".to_string(), vote: v, term: 1, hash: String::new() };
    let votes = vec![vote(true), vote(false), vote(true)];
    assert!(write_confirmed(&votes, 2));
    assert!(!write_confirmed(&votes, 3));
    // Causally ordered versions, and copies of one version, agree.
    let ordered = vec![vc(&[("a", 1)]), vc(&[("a", 2)])];
    assert!(verify_version_agreement(&ordered));
    assert!(read_is_consistent(&ordered, 2));
    assert!(verify_version_agreement(&vec![vc(&[("a", 1)]), vc(&[("a", 1)])]));
    // Two later versions that conflict with each other do not agree, even
    // though both follow the first.
    let split = vec![vc(&[]), vc(&[("a", 1)]), vc(&[("b", 1)])];
    assert!(!verify_version_agreement(&split));
    assert!(read_is_consistent(&Vec::new(), 0));
    assert!(!read_is_consistent(&Vec::new(), 1));
    let disagree = vec![vc(&[("a", 2), ("b", 1)]), vc(&[("a", 1), ("b", 2)])];
    assert!(!verify_version_agreement(&disagree));
    assert!(verify_version_agreement(&Vec::new()));
}

#[test]
fn defaults() {
    let s = SyncConfig::default();
    assert_eq!(s.replication_factor, 3);
    assert_eq!(s.write_quorum, 2);
    let c = ConsensusConfig::default();
    assert_eq!(c.election_timeout_min_ms, 150);
    assert_eq!(c.snapshot_interval_entries, 10000);
    let st = ConsensusState::default();
    assert_eq!(st.role, ConsensusRole::Follower);
    assert_eq!(st.term, 0);
    let stats = ReconciliationStats::default();
    assert_eq!(stats.conflicts_found, 0);
}

#[test]
fn clock_readings_before_the_epoch_count_as_zero() {
    assert_eq!(millis_from_reading(-5), 0);
    assert_eq!(millis_from_reading(0), 0);
    assert_eq!(millis_from_reading(1_700_000_000_123), 1_700_000_000_123);
}

#[test]
fn clock_stamps_come_from_the_reading_given() {
    let mut c = VectorClock::new_at("a", 100);
    assert_eq!(c.timestamp, 100);
    assert_eq!(c.clocks.get(&"a".to_string()), Some(&1));
    c.increment_at("a", 250);
    assert_eq!(c.timestamp, 250);
    assert_eq!(c.clocks.get(&"a".to_string()), Some(&2));
    let v = RecordVersion::new_at("k", "n1", clock(&[("n1", 1)]), 77);
    assert_eq!(v.timestamp, 77);
    assert_eq!(v.version, 1);
}

#[test]
fn swapping_sides_swaps_pushes_and_pulls() {
    let mut local = StrMap::new();
    local.insert("a".to_string(), version("a", "l", &[("l", 2)], 1));
    local.insert("b".to_string(), version("b", "l", &[("l", 1), ("r", 1)], 1));
    local.insert("c".to_string(), version("c", "l", &[("l", 1)], 1));
    let mut remote = StrMap::new();
    remote.insert("a".to_string(), version("a", "r", &[("l", 1)], 1));
    remote.insert("b".to_string(), version("b", "r", &[("r", 2)], 1));
    remote.insert("d".to_string(), version("d", "r", &[("r", 1)], 1));
    let p = build_cross_cluster_reconciliation_plan(&local, &remote);
    let q = build_cross_cluster_reconciliation_plan(&remote, &local);
    let sorted = |v: &Vec<String>| {
        let mut v = v.clone();
        v.sort();
        v
    };
    assert_eq!(sorted(&p.push_records), vec!["a".to_string(), "c".to_string()]);
    assert_eq!(sorted(&q.pull_records), sorted(&p.push_records));
    assert_eq!(sorted(&q.push_records), sorted(&p.pull_records));
    assert_eq!(p.conflicts.len(), 1);
    assert_eq!(q.conflicts[0].key, p.conflicts[0].key);
    assert_eq!(q.estimated_bytes, p.estimated_bytes);
}

#[test]
fn table_and_record_plans_agree_without_zero_counters() {
    let row = |id: &str, entries: &[(&str, u64)]| (id.to_string(), clock(entries), 1u64, String::new());
    let rows_local = vec![row("a", &[("n", 2)]), row("b", &[("n", 1)]), row("c", &[("x", 1)]), row("e", &[("n", 1)])];
    let rows_remote = vec![row("a", &[("n", 1)]), row("b", &[("n", 3)]), row("c", &[("y", 1)]), row("f", &[("n", 1)])];
    let table = reconcile_table("t", &rows_local, &rows_remote, "L", "R");
    let as_versions = |rows: &Vec<(String, StrMap<u64>, u64, String)>, by: &str| {
        let mut m = StrMap::new();
        for (id, c, _, _) in rows {
            m.insert(id.clone(), RecordVersion::new_at(id, by, c.clone(), 0));
        }
        m
    };
    let plan = build_cross_cluster_reconciliation_plan(&as_versions(&rows_local, "L"), &as_versions(&rows_remote, "R"));
    let sorted = |v: &Vec<String>| {
        let mut v = v.clone();
        v.sort();
        v
    };
    assert_eq!(sorted(&table.push_records), sorted(&plan.push_records));
    assert_eq!(sorted(&table.pull_records), sorted(&plan.pull_records));
    let keys = |cs: &Vec<primusdb::cluster::sync::reconciliation::DataConflict>| {
        let mut k: Vec<String> = cs.iter().map(|c| c.key.clone()).collect();
        k.sort();
        k
    };
    assert_eq!(keys(&table.conflicts), keys(&plan.conflicts));
    assert_eq!(sorted(&table.push_records), vec!["a".to_string(), "e".to_string()]);
    assert_eq!(keys(&table.conflicts), vec!["c".to_string()]);
}
