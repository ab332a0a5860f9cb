use primusdb::cluster::replication::{acknowledgements, summarize_replication, ReplicationConfig, ReplicationMode, ReplicationStatus};

fn strings(v: &[&str]) -> Vec<String> {
    v.iter().map(|s| s.to_string()).collect()
}

#[test]
fn default_config() {
    let c = ReplicationConfig::default();
    assert_eq!(c.mode, ReplicationMode::Quorum);
    assert_eq!(c.replication_factor, 3);
    assert_eq!(c.max_batch_size, 100);
}

#[test]
fn quorum_commits_with_majority() {
    let c = ReplicationConfig::default();
    let r = summarize_replication(&c, "op", &strings(&["a", "b", "c"]), &vec![true, false, true], 7);
    assert_eq!(r.status, ReplicationStatus::Committed);
    assert_eq!(r.successes, 2);
    assert_eq!(r.failures, strings(&["b"]));
    assert_eq!(r.total_targets, 3);
    assert_eq!(r.timestamp, 7);
    assert_eq!(r.operation_id, "op");
    let r = summarize_replication(&c, "op", &strings(&["a", "b", "c"]), &vec![true, false, false], 7);
    assert_eq!(r.status, ReplicationStatus::Failed);
}

#[test]
fn quorum_is_a_majority_of_the_targets() {
    let mut c = ReplicationConfig::default();
    c.replication_factor = 9;
    let r = summarize_replication(&c, "op", &strings(&["a", "b"]), &vec![true, true], 0);
    assert_eq!(r.status, ReplicationStatus::Committed);
    c.replication_factor = 1;
    let r = summarize_replication(&c, "op", &strings(&["a", "b", "c"]), &vec![true, false, false], 0);
    assert_eq!(r.status, ReplicationStatus::Failed);
}

#[test]
fn the_local_node_and_positive_answers_acknowledge() {
    let targets = strings(&["me", "b", "c", "d"]);
    let acked = acknowledgements(&targets, "me", &vec![None, Some(true), Some(false), None]);
    assert_eq!(acked, vec![true, true, false, false]);
}

#[test]
fn sync_needs_everyone() {
    let mut c = ReplicationConfig::default();
    c.mode = ReplicationMode::Sync;
    let r = summarize_replication(&c, "op", &strings(&["a", "b"]), &vec![true, false], 0);
    assert_eq!(r.status, ReplicationStatus::Failed);
    let r = summarize_replication(&c, "op", &strings(&["a", "b"]), &vec![true, true], 0);
    assert_eq!(r.status, ReplicationStatus::Committed);
}

#[test]
fn async_needs_one() {
    let mut c = ReplicationConfig::default();
    c.mode = ReplicationMode::Async;
    let r = summarize_replication(&c, "op", &strings(&["a", "b"]), &vec![false, true], 0);
    assert_eq!(r.status, ReplicationStatus::Accepted);
    let r = summarize_replication(&c, "op", &strings(&["a"]), &vec![false], 0);
    assert_eq!(r.status, ReplicationStatus::Failed);
}
