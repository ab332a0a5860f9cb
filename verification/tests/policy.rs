use primusdb::governor::policy::PolicyManager;
use primusdb::governor::{EnforcementAction, PolicyConfig, PolicyScope, WorkloadType};
use primusdb::strmap::StrMap;

#[test]
fn test_default_policy() {
    let mgr = PolicyManager::new();
    let policy = mgr.get_policy("default");
    assert!(policy.is_some());
    assert_eq!(policy.unwrap().name, "default");
}

#[test]
fn test_resolve_global() {
    let mgr = PolicyManager::new();
    let policy = mgr.resolve_policy("analytics", WorkloadType::Sql, None, None);
    assert_eq!(policy.name, "default");
}

#[test]
fn test_policy_inheritance() {
    let mut policies = StrMap::new();
    policies.insert(
        "base".to_string(),
        PolicyConfig {
            scope: "global".to_string(),
            max_memory_mb: Some(1024),
            max_execution_steps: Some(1_000_000),
            max_cpu_time_ms: Some(60_000),
            max_query_complexity: None,
            max_join_count: None,
            max_sort_rows: None,
            max_pipeline_depth: None,
            max_pipeline_stages: None,
            max_ffi_calls: None,
            max_ffi_memory_mb: None,
            max_ffi_time_ms: None,
            max_training_iterations: None,
            max_prediction_batch_size: None,
            max_embedding_batch_size: None,
            max_vector_candidates: None,
            max_vector_expansions: None,
            max_graph_depth: None,
            max_graph_nodes: None,
            max_graph_edges: None,
            max_import_rows: None,
            max_import_batches: None,
            max_backup_size: None,
            max_restore_size: None,
            action: None,
        },
    );
    policies.insert(
        "override".to_string(),
        PolicyConfig {
            scope: "namespace:analytics".to_string(),
            max_memory_mb: Some(2048),
            max_execution_steps: None,
            max_cpu_time_ms: None,
            max_query_complexity: None,
            max_join_count: None,
            max_sort_rows: None,
            max_pipeline_depth: None,
            max_pipeline_stages: None,
            max_ffi_calls: None,
            max_ffi_memory_mb: None,
            max_ffi_time_ms: None,
            max_training_iterations: None,
            max_prediction_batch_size: None,
            max_embedding_batch_size: None,
            max_vector_candidates: None,
            max_vector_expansions: None,
            max_graph_depth: None,
            max_graph_nodes: None,
            max_graph_edges: None,
            max_import_rows: None,
            max_import_batches: None,
            max_backup_size: None,
            max_restore_size: None,
            action: Some("block".to_string()),
        },
    );
    let mgr = PolicyManager::from_config(&policies, "base");
    let policy = mgr.resolve_policy("analytics", WorkloadType::Sql, None, None);
    assert!(policy.name.contains("base"));
    assert!(policy.name.contains("override"));
    assert_eq!(policy.limits.memory.max_memory_mb, Some(2048));
    assert_eq!(policy.limits.cpu.max_execution_steps, Some(1_000_000));
    assert_eq!(policy.action, EnforcementAction::Block);
}

#[test]
fn test_scope_parsing() {
    assert!(matches!(PolicyManager::parse_scope("global"), Some(PolicyScope::Global)));
    assert!(matches!(
        PolicyManager::parse_scope("namespace:analytics"),
        Some(PolicyScope::Namespace(n)) if n == "analytics"
    ));
    assert!(matches!(
        PolicyManager::parse_scope("sql"),
        Some(PolicyScope::WorkloadType(WorkloadType::Sql))
    ));
    assert!(PolicyManager::parse_scope("invalid").is_none());
}

#[test]
fn test_from_config() {
    let mut config = StrMap::new();
    config.insert(
        "dev".to_string(),
        PolicyConfig {
            scope: "namespace:dev".to_string(),
            max_memory_mb: Some(4096),
            max_execution_steps: None,
            max_cpu_time_ms: None,
            max_query_complexity: None,
            max_join_count: None,
            max_sort_rows: None,
            max_pipeline_depth: None,
            max_pipeline_stages: None,
            max_ffi_calls: None,
            max_ffi_memory_mb: None,
            max_ffi_time_ms: None,
            max_training_iterations: None,
            max_prediction_batch_size: None,
            max_embedding_batch_size: None,
            max_vector_candidates: None,
            max_vector_expansions: None,
            max_graph_depth: None,
            max_graph_nodes: None,
            max_graph_edges: None,
            max_import_rows: None,
            max_import_batches: None,
            max_backup_size: None,
            max_restore_size: None,
            action: Some("warn".to_string()),
        },
    );
    let mgr = PolicyManager::from_config(&config, "dev");
    assert!(mgr.get_policy("dev").is_some());
    let policy = mgr.resolve_policy("other", WorkloadType::Sql, None, None);
    assert_eq!(policy.name, "dev");
}

#[test]
fn scope_workload_and_action_names_read_back() {
    for scope in [
        PolicyScope::Cluster("c1".to_string()),
        PolicyScope::Node("n:1".to_string()),
        PolicyScope::User("u".to_string()),
    ] {
        let text = format!("{}:{}", scope.as_str(), scope.name());
        let parsed = PolicyManager::parse_scope(&text).unwrap();
        assert_eq!(parsed.as_str(), scope.as_str());
        assert_eq!(parsed.name(), scope.name());
    }
    for w in [WorkloadType::Sql, WorkloadType::AIML, WorkloadType::Ffi, WorkloadType::Migration] {
        let parsed = PolicyManager::parse_scope(w.as_str()).unwrap();
        assert_eq!(parsed.name(), w.as_str());
    }
    for a in [EnforcementAction::Monitor, EnforcementAction::Warn, EnforcementAction::Throttle, EnforcementAction::Block] {
        let cfg = PolicyConfig { action: Some(a.as_str().to_string()), ..primusdb::governor::default_policy_config() };
        let p = PolicyManager::config_to_policy("p", &cfg).unwrap();
        assert_eq!(p.action, a);
    }
}
