use primusdb::state_machine::ConsensusStateMachine;

fn ids(v: &[&str]) -> Vec<String> {
    v.iter().map(|s| s.to_string()).collect()
}

#[test]
fn a_block_is_applied_once() {
    let mut sm = ConsensusStateMachine::new();
    assert_eq!(sm.last_applied_height(), 0);
    let block = ids(&["t1", "t2", "t1", "t3"]);
    let todo = sm.to_apply(&block);
    assert_eq!(todo, ids(&["t1", "t2", "t3"]));
    for id in &todo {
        sm.record_applied(id);
    }
    sm.finish_block(5);
    assert_eq!(sm.last_applied_height(), 5);
    assert!(sm.to_apply(&block).is_empty());
    assert!(sm.is_applied("t2"));
    assert!(!sm.is_applied("t4"));
    assert_eq!(sm.to_apply(&ids(&["t2", "t4"])), ids(&["t4"]));
}
