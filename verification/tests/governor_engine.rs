use primusdb::governor::engine::GovernorEngine;
use primusdb::governor::{default_policy_config, EnforcementAction, GovernorConfig, PolicyConfig, WorkloadType};

fn engine_with(policy: PolicyConfig) -> GovernorEngine {
    let mut config = GovernorConfig::default();
    config.policies.insert("default".to_string(), policy);
    GovernorEngine::new(config)
}

#[test]
fn test_start_and_finish_execution() {
    let mut engine = GovernorEngine::new(GovernorConfig::default());
    let handle = engine.start_execution("test".to_string(), WorkloadType::Sql, None, None).unwrap();
    let id = handle.id();
    assert!(engine.get_execution(id).is_some());
    handle.finish(&mut engine);
    assert!(engine.get_execution(id).is_none());
}

#[test]
fn test_disabled_engine() {
    let mut engine = GovernorEngine::new_disabled();
    assert!(!engine.is_enabled());
    let handle = engine.start_execution("test".to_string(), WorkloadType::Sql, None, None).unwrap();
    let result = handle.check_memory(&mut engine, 999_999).unwrap();
    assert_eq!(result, EnforcementAction::Monitor);
    handle.finish(&mut engine);
}

#[test]
fn test_memory_limit_blocked() {
    let mut engine = engine_with(PolicyConfig {
        max_memory_mb: Some(100),
        action: Some("block".to_string()),
        ..default_policy_config()
    });
    let handle = engine.start_execution("test".to_string(), WorkloadType::Sql, None, None).unwrap();
    let result = handle.check_memory(&mut engine, 150);
    assert_eq!(
        result,
        Err("Resource limit exceeded: max_memory_mb (limit: 100, usage: 150). Action: blocked".to_string())
    );
    handle.finish(&mut engine);
}

#[test]
fn test_execution_steps_limit() {
    let mut engine = engine_with(PolicyConfig {
        max_execution_steps: Some(100),
        action: Some("block".to_string()),
        ..default_policy_config()
    });
    let handle = engine.start_execution("test".to_string(), WorkloadType::Sql, None, None).unwrap();
    assert!(handle.check_steps(&mut engine, 200).is_err());
    assert!(handle.check_steps(&mut engine, 100).is_err());
    assert_eq!(handle.check_steps(&mut engine, 99), Ok(EnforcementAction::Monitor));
    handle.finish(&mut engine);
}

#[test]
fn test_no_limit_exceeded() {
    let mut engine = GovernorEngine::new(GovernorConfig::default());
    let handle = engine.start_execution("test".to_string(), WorkloadType::Sql, None, None).unwrap();
    let result = handle.check_steps(&mut engine, 5).unwrap();
    assert_eq!(result, EnforcementAction::Monitor);
    handle.finish(&mut engine);
}

#[test]
fn test_violations_recorded() {
    let mut engine = engine_with(PolicyConfig {
        max_execution_steps: Some(10),
        action: Some("warn".to_string()),
        ..default_policy_config()
    });
    let handle = engine.start_execution("violation-test".to_string(), WorkloadType::Sql, None, None).unwrap();
    assert_eq!(handle.check_steps(&mut engine, 20), Ok(EnforcementAction::Warn));
    let violations = engine.list_violations();
    assert!(!violations.is_empty());
    assert_eq!(violations[0].namespace, "violation-test");
    assert_eq!(violations[0].limit_name, "max_execution_steps");
    assert_eq!(violations[0].limit_value, "10");
    assert_eq!(violations[0].usage_value, "20");
    handle.finish(&mut engine);
}

#[test]
fn test_throttle_action() {
    let mut engine = engine_with(PolicyConfig {
        max_memory_mb: Some(100),
        action: Some("throttle".to_string()),
        ..default_policy_config()
    });
    let handle = engine.start_execution("throttle-test".to_string(), WorkloadType::Sql, None, None).unwrap();
    let result = handle.check_memory(&mut engine, 150).unwrap();
    assert_eq!(result, EnforcementAction::Throttle);
    assert_eq!(engine.status().throttled_count, 1);
    handle.finish(&mut engine);
}

#[test]
fn test_status() {
    let engine = GovernorEngine::new(GovernorConfig::default());
    let status = engine.status();
    assert!(status.enabled);
    assert_eq!(status.active_executions, 0);
    assert_eq!(status.policies_loaded, 1);
}

#[test]
fn test_metrics_snapshot() {
    let engine = GovernorEngine::new(GovernorConfig::default());
    let metrics = engine.metrics_snapshot();
    assert_eq!(metrics.active_executions, 0);
    assert_eq!(metrics.memory_usage_bytes, 0);
}

#[test]
fn test_list_policies() {
    let engine = GovernorEngine::new(GovernorConfig::default());
    let policies = engine.policies();
    assert!(!policies.is_empty());
}

#[test]
fn test_cpu_time_limit() {
    let mut engine = engine_with(PolicyConfig {
        max_cpu_time_ms: Some(50),
        action: Some("block".to_string()),
        ..default_policy_config()
    });
    let handle = engine.start_execution("cpu-test".to_string(), WorkloadType::Sql, None, None).unwrap();
    assert!(handle.check_cpu_time(&mut engine, 100).is_err());
    handle.finish(&mut engine);
}

#[test]
fn test_query_complexity_limit() {
    let mut engine = engine_with(PolicyConfig {
        max_query_complexity: Some(5),
        action: Some("block".to_string()),
        ..default_policy_config()
    });
    let handle = engine.start_execution("qc-test".to_string(), WorkloadType::Sql, None, None).unwrap();
    assert!(handle.check_query_complexity(&mut engine, 10).is_err());
    handle.finish(&mut engine);
}

#[test]
fn test_join_count_limit() {
    let mut engine = engine_with(PolicyConfig {
        max_join_count: Some(3),
        action: Some("block".to_string()),
        ..default_policy_config()
    });
    let handle = engine.start_execution("join-test".to_string(), WorkloadType::Sql, None, None).unwrap();
    assert!(handle.check_join_count(&mut engine, 5).is_err());
    handle.finish(&mut engine);
}

#[test]
fn test_ffi_calls_limit() {
    let mut engine = engine_with(PolicyConfig {
        max_ffi_calls: Some(10),
        action: Some("block".to_string()),
        ..default_policy_config()
    });
    let handle = engine.start_execution("ffi-test".to_string(), WorkloadType::Ffi, None, None).unwrap();
    assert!(handle.check_ffi_calls(&mut engine, 20).is_err());
    handle.finish(&mut engine);
}

#[test]
fn test_vector_candidates_limit() {
    let mut engine = engine_with(PolicyConfig {
        max_vector_candidates: Some(100),
        action: Some("block".to_string()),
        ..default_policy_config()
    });
    let handle = engine.start_execution("vec-test".to_string(), WorkloadType::VectorSearch, None, None).unwrap();
    assert!(handle.check_vector_candidates(&mut engine, 200).is_err());
    handle.finish(&mut engine);
}

#[test]
fn test_graph_depth_limit() {
    let mut engine = engine_with(PolicyConfig {
        max_graph_depth: Some(5),
        action: Some("block".to_string()),
        ..default_policy_config()
    });
    let handle = engine.start_execution("graph-test".to_string(), WorkloadType::GraphTraversal, None, None).unwrap();
    assert!(handle.check_graph_depth(&mut engine, 10).is_err());
    handle.finish(&mut engine);
}

#[test]
fn test_import_rows_limit() {
    let mut engine = engine_with(PolicyConfig {
        max_import_rows: Some(1000),
        action: Some("block".to_string()),
        ..default_policy_config()
    });
    let handle = engine.start_execution("import-test".to_string(), WorkloadType::Migration, None, None).unwrap();
    assert!(handle.check_import_rows(&mut engine, 2000).is_err());
    handle.finish(&mut engine);
}

#[test]
fn test_backup_size_limit() {
    let mut engine = engine_with(PolicyConfig {
        max_backup_size: Some(500),
        action: Some("block".to_string()),
        ..default_policy_config()
    });
    let handle = engine.start_execution("backup-test".to_string(), WorkloadType::Backup, None, None).unwrap();
    assert!(handle.check_backup_size(&mut engine, 1000).is_err());
    assert_eq!(engine.status().blocked_count, 1);
    handle.finish(&mut engine);
}

#[test]
fn unknown_execution_is_not_checked() {
    let mut engine = engine_with(PolicyConfig {
        max_memory_mb: Some(1),
        action: Some("block".to_string()),
        ..default_policy_config()
    });
    assert_eq!(engine.check_memory(12345, 10), Ok(EnforcementAction::Monitor));
    assert!(engine.list_violations().is_empty());
}

#[test]
fn disabled_engine_holds_the_default_monitor_policy() {
    let engine = GovernorEngine::new_disabled();
    let policies = engine.policies();
    assert_eq!(policies.len(), 1);
    assert_eq!(policies[0].name, "default");
    assert_eq!(policies[0].action, EnforcementAction::Monitor);
}

#[test]
fn execution_ids_are_version_four_uuids() {
    let mut engine = GovernorEngine::new(GovernorConfig::default());
    for _ in 0..8 {
        let handle = engine.start_execution("test".to_string(), WorkloadType::Sql, None, None).unwrap();
        let id = handle.id();
        assert_eq!((id >> 76) & 0xf, 4);
        assert_eq!((id >> 62) & 0x3, 2);
    }
}
