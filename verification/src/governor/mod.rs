//! Resource usage governance: workload categories, per-execution usage
//! meters, limits, enforcement actions, scoped policies and the governor's
//! configuration.
//!
//! [`policy::PolicyManager`] resolves which limits apply to an execution;
//! [`engine::GovernorEngine`] tracks executions and enforces those limits.

pub mod engine;
pub mod policy;

use vstd::prelude::*;
use crate::strmap::StrMap;
use crate::text::owned;

verus! {

// ── Workload types ─────────────────────────────────────────────

/// Category of work an execution represents, used for policy scoping.
#[derive(Debug, Clone, Copy, PartialEq, Eq, Hash, Structural)]
pub enum WorkloadType {
    Sql,
    VectorSearch,
    AIML,
    GraphTraversal,
    CdcPipeline,
    Backup,
    Restore,
    Migration,
    ClusterOperation,
    ProtocolProcessing,
    UserDefinedFunction,
    StoredProcedure,
    Plugin,
    Ffi,
}

/// The stable name of a workload type.
pub open spec fn workload_name(w: WorkloadType) -> Seq<char> {
    match w {
        WorkloadType::Sql => "sql"@,
        WorkloadType::VectorSearch => "vector_search"@,
        WorkloadType::AIML => "ai_ml"@,
        WorkloadType::GraphTraversal => "graph_traversal"@,
        WorkloadType::CdcPipeline => "cdc_pipeline"@,
        WorkloadType::Backup => "backup"@,
        WorkloadType::Restore => "restore"@,
        WorkloadType::Migration => "migration"@,
        WorkloadType::ClusterOperation => "cluster_operation"@,
        WorkloadType::ProtocolProcessing => "protocol_processing"@,
        WorkloadType::UserDefinedFunction => "udf"@,
        WorkloadType::StoredProcedure => "stored_procedure"@,
        WorkloadType::Plugin => "plugin"@,
        WorkloadType::Ffi => "ffi"@,
    }
}

impl WorkloadType {
    /// Returns the stable string name of this workload type.
    pub fn as_str(&self) -> (r: &'static str)
        ensures
            r@ == workload_name(*self),
    {
        match self {
            WorkloadType::Sql => "sql",
            WorkloadType::VectorSearch => "vector_search",
            WorkloadType::AIML => "ai_ml",
            WorkloadType::GraphTraversal => "graph_traversal",
            WorkloadType::CdcPipeline => "cdc_pipeline",
            WorkloadType::Backup => "backup",
            WorkloadType::Restore => "restore",
            WorkloadType::Migration => "migration",
            WorkloadType::ClusterOperation => "cluster_operation",
            WorkloadType::ProtocolProcessing => "protocol_processing",
            WorkloadType::UserDefinedFunction => "udf",
            WorkloadType::StoredProcedure => "stored_procedure",
            WorkloadType::Plugin => "plugin",
            WorkloadType::Ffi => "ffi",
        }
    }
}

// ── Resource usage tracking ────────────────────────────────────

/// CPU usage meters for an execution.
#[derive(Debug, Clone, Copy, PartialEq, Eq, Structural)]
pub struct CpuUsage {
    pub execution_steps: u64,
    pub cpu_time_ms: u64,
}

impl Default for CpuUsage {
    fn default() -> (r: Self)
        ensures
            r.execution_steps == 0 && r.cpu_time_ms == 0,
    {
        CpuUsage { execution_steps: 0, cpu_time_ms: 0 }
    }
}

/// Memory usage meters for an execution.
#[derive(Debug, Clone, Copy, PartialEq, Eq, Structural)]
pub struct MemoryUsage {
    pub allocated_bytes: u64,
    pub peak_memory_bytes: u64,
    pub temporary_memory_bytes: u64,
}

impl Default for MemoryUsage {
    fn default() -> (r: Self)
        ensures
            r.allocated_bytes == 0 && r.peak_memory_bytes == 0 && r.temporary_memory_bytes == 0,
    {
        MemoryUsage { allocated_bytes: 0, peak_memory_bytes: 0, temporary_memory_bytes: 0 }
    }
}

/// Query complexity meters for an execution.
#[derive(Debug, Clone, Copy, PartialEq, Eq, Structural)]
pub struct QueryComplexityUsage {
    pub joins: u32,
    pub nested_queries: u32,
    pub graph_depth: u32,
    pub vector_candidates: u32,
    pub sort_operations: u32,
}

impl Default for QueryComplexityUsage {
    fn default() -> (r: Self)
        ensures
            r.joins == 0 && r.nested_queries == 0 && r.graph_depth == 0 && r.vector_candidates == 0
                && r.sort_operations == 0,
    {
        QueryComplexityUsage {
            joins: 0,
            nested_queries: 0,
            graph_depth: 0,
            vector_candidates: 0,
            sort_operations: 0,
        }
    }
}

/// Pipeline processing meters for an execution.
#[derive(Debug, Clone, Copy, PartialEq, Eq, Structural)]
pub struct PipelineUsage {
    pub stages: u32,
    pub transform_steps: u32,
    pub operators: u32,
}

impl Default for PipelineUsage {
    fn default() -> (r: Self)
        ensures
            r.stages == 0 && r.transform_steps == 0 && r.operators == 0,
    {
        PipelineUsage { stages: 0, transform_steps: 0, operators: 0 }
    }
}

/// FFI invocation meters for an execution.
#[derive(Debug, Clone, Copy, PartialEq, Eq, Structural)]
pub struct FfiUsage {
    pub calls: u64,
    pub memory_allocations: u64,
    pub execution_time_ms: u64,
}

impl Default for FfiUsage {
    fn default() -> (r: Self)
        ensures
            r.calls == 0 && r.memory_allocations == 0 && r.execution_time_ms == 0,
    {
        FfiUsage { calls: 0, memory_allocations: 0, execution_time_ms: 0 }
    }
}

/// AI/ML operation meters for an execution.
#[derive(Debug, Clone, Copy, PartialEq, Eq, Structural)]
pub struct AimlUsage {
    pub training_iterations: u64,
    pub prediction_batches: u64,
    pub embedding_generations: u64,
}

impl Default for AimlUsage {
    fn default() -> (r: Self)
        ensures
            r.training_iterations == 0 && r.prediction_batches == 0 && r.embedding_generations
                == 0,
    {
        AimlUsage { training_iterations: 0, prediction_batches: 0, embedding_generations: 0 }
    }
}

/// Vector search meters for an execution.
#[derive(Debug, Clone, Copy, PartialEq, Eq, Structural)]
pub struct VectorUsage {
    pub candidate_expansions: u64,
    pub hnsw_traversals: u64,
    pub ivf_probes: u64,
}

impl Default for VectorUsage {
    fn default() -> (r: Self)
        ensures
            r.candidate_expansions == 0 && r.hnsw_traversals == 0 && r.ivf_probes == 0,
    {
        VectorUsage { candidate_expansions: 0, hnsw_traversals: 0, ivf_probes: 0 }
    }
}

/// Graph traversal meters for an execution.
#[derive(Debug, Clone, Copy, PartialEq, Eq, Structural)]
pub struct GraphUsage {
    pub depth: u32,
    pub visited_nodes: u64,
    pub visited_edges: u64,
}

impl Default for GraphUsage {
    fn default() -> (r: Self)
        ensures
            r.depth == 0 && r.visited_nodes == 0 && r.visited_edges == 0,
    {
        GraphUsage { depth: 0, visited_nodes: 0, visited_edges: 0 }
    }
}

/// Migration meters for an execution.
#[derive(Debug, Clone, Copy, PartialEq, Eq, Structural)]
pub struct MigrationUsage {
    pub rows_imported: u64,
    pub documents_imported: u64,
    pub batches_processed: u64,
}

impl Default for MigrationUsage {
    fn default() -> (r: Self)
        ensures
            r.rows_imported == 0 && r.documents_imported == 0 && r.batches_processed == 0,
    {
        MigrationUsage { rows_imported: 0, documents_imported: 0, batches_processed: 0 }
    }
}

/// Backup/restore meters for an execution.
#[derive(Debug, Clone, Copy, PartialEq, Eq, Structural)]
pub struct BackupUsage {
    pub objects_processed: u64,
    pub bytes_processed: u64,
    pub duration_ms: u64,
}

impl Default for BackupUsage {
    fn default() -> (r: Self)
        ensures
            r.objects_processed == 0 && r.bytes_processed == 0 && r.duration_ms == 0,
    {
        BackupUsage { objects_processed: 0, bytes_processed: 0, duration_ms: 0 }
    }
}

/// Aggregated resource usage for a single execution, one meter per subsystem.
#[derive(Debug, Clone, Copy, PartialEq, Eq, Structural)]
pub struct ExecutionUsage {
    pub cpu: CpuUsage,
    pub memory: MemoryUsage,
    pub query_complexity: QueryComplexityUsage,
    pub pipeline: PipelineUsage,
    pub ffi: FfiUsage,
    pub aiml: AimlUsage,
    pub vector: VectorUsage,
    pub graph: GraphUsage,
    pub migration: MigrationUsage,
    pub backup: BackupUsage,
}

/// The usage record with every meter at zero.
pub open spec fn zero_usage() -> ExecutionUsage {
    ExecutionUsage {
        cpu: CpuUsage { execution_steps: 0, cpu_time_ms: 0 },
        memory: MemoryUsage { allocated_bytes: 0, peak_memory_bytes: 0, temporary_memory_bytes: 0 },
        query_complexity: QueryComplexityUsage {
            joins: 0,
            nested_queries: 0,
            graph_depth: 0,
            vector_candidates: 0,
            sort_operations: 0,
        },
        pipeline: PipelineUsage { stages: 0, transform_steps: 0, operators: 0 },
        ffi: FfiUsage { calls: 0, memory_allocations: 0, execution_time_ms: 0 },
        aiml: AimlUsage { training_iterations: 0, prediction_batches: 0, embedding_generations: 0 },
        vector: VectorUsage { candidate_expansions: 0, hnsw_traversals: 0, ivf_probes: 0 },
        graph: GraphUsage { depth: 0, visited_nodes: 0, visited_edges: 0 },
        migration: MigrationUsage { rows_imported: 0, documents_imported: 0, batches_processed: 0 },
        backup: BackupUsage { objects_processed: 0, bytes_processed: 0, duration_ms: 0 },
    }
}

impl Default for ExecutionUsage {
    fn default() -> (r: Self)
        ensures
            r == zero_usage(),
    {
        ExecutionUsage {
            cpu: CpuUsage::default(),
            memory: MemoryUsage::default(),
            query_complexity: QueryComplexityUsage::default(),
            pipeline: PipelineUsage::default(),
            ffi: FfiUsage::default(),
            aiml: AimlUsage::default(),
            vector: VectorUsage::default(),
            graph: GraphUsage::default(),
            migration: MigrationUsage::default(),
            backup: BackupUsage::default(),
        }
    }
}

impl ExecutionUsage {
    /// Resets all meters to zero.
    pub fn reset(&mut self)
        ensures
            *final(self) == zero_usage(),
    {
        *self = ExecutionUsage::default();
    }
}

// ── Execution limits ──────────────────────────────────────────

/// CPU limits enforced against [`CpuUsage`].
#[derive(Debug, Clone, Copy, PartialEq, Eq, Structural)]
pub struct CpuLimits {
    pub max_execution_steps: Option<u64>,
    pub max_cpu_time_ms: Option<u64>,
}

impl Default for CpuLimits {
    fn default() -> (r: Self)
        ensures
            r == (CpuLimits { max_execution_steps: Some(10_000_000), max_cpu_time_ms: Some(300_000) }),
    {
        CpuLimits { max_execution_steps: Some(10_000_000), max_cpu_time_ms: Some(300_000) }
    }
}

/// Memory limits enforced against [`MemoryUsage`].
#[derive(Debug, Clone, Copy, PartialEq, Eq, Structural)]
pub struct MemoryLimits {
    pub max_memory_mb: Option<u64>,
}

impl Default for MemoryLimits {
    fn default() -> (r: Self)
        ensures
            r == (MemoryLimits { max_memory_mb: Some(2048) }),
    {
        MemoryLimits { max_memory_mb: Some(2048) }
    }
}

/// Query complexity limits enforced against [`QueryComplexityUsage`].
#[derive(Debug, Clone, Copy, PartialEq, Eq, Structural)]
pub struct QueryComplexityLimits {
    pub max_query_complexity: Option<u32>,
    pub max_join_count: Option<u32>,
    pub max_sort_rows: Option<u64>,
}

impl Default for QueryComplexityLimits {
    fn default() -> (r: Self)
        ensures
            r == (QueryComplexityLimits {
                max_query_complexity: Some(100),
                max_join_count: Some(10),
                max_sort_rows: Some(1_000_000),
            }),
    {
        QueryComplexityLimits {
            max_query_complexity: Some(100),
            max_join_count: Some(10),
            max_sort_rows: Some(1_000_000),
        }
    }
}

/// Pipeline limits enforced against [`PipelineUsage`].
#[derive(Debug, Clone, Copy, PartialEq, Eq, Structural)]
pub struct PipelineLimits {
    pub max_pipeline_depth: Option<u32>,
    pub max_pipeline_stages: Option<u32>,
}

impl Default for PipelineLimits {
    fn default() -> (r: Self)
        ensures
            r == (PipelineLimits { max_pipeline_depth: Some(100), max_pipeline_stages: Some(50) }),
    {
        PipelineLimits { max_pipeline_depth: Some(100), max_pipeline_stages: Some(50) }
    }
}

/// FFI limits enforced against [`FfiUsage`].
#[derive(Debug, Clone, Copy, PartialEq, Eq, Structural)]
pub struct FfiLimits {
    pub max_ffi_calls: Option<u64>,
    pub max_ffi_memory_mb: Option<u64>,
    pub max_ffi_time_ms: Option<u64>,
}

impl Default for FfiLimits {
    fn default() -> (r: Self)
        ensures
            r == (FfiLimits {
                max_ffi_calls: Some(10_000),
                max_ffi_memory_mb: Some(512),
                max_ffi_time_ms: Some(30_000),
            }),
    {
        FfiLimits {
            max_ffi_calls: Some(10_000),
            max_ffi_memory_mb: Some(512),
            max_ffi_time_ms: Some(30_000),
        }
    }
}

/// AI/ML limits enforced against [`AimlUsage`].
#[derive(Debug, Clone, Copy, PartialEq, Eq, Structural)]
pub struct AimlLimits {
    pub max_training_iterations: Option<u64>,
    pub max_prediction_batch_size: Option<u64>,
    pub max_embedding_batch_size: Option<u64>,
}

impl Default for AimlLimits {
    fn default() -> (r: Self)
        ensures
            r == (AimlLimits {
                max_training_iterations: Some(100_000),
                max_prediction_batch_size: Some(10_000),
                max_embedding_batch_size: Some(10_000),
            }),
    {
        AimlLimits {
            max_training_iterations: Some(100_000),
            max_prediction_batch_size: Some(10_000),
            max_embedding_batch_size: Some(10_000),
        }
    }
}

/// Vector search limits enforced against [`VectorUsage`].
#[derive(Debug, Clone, Copy, PartialEq, Eq, Structural)]
pub struct VectorLimits {
    pub max_vector_candidates: Option<u64>,
    pub max_vector_expansions: Option<u64>,
}

impl Default for VectorLimits {
    fn default() -> (r: Self)
        ensures
            r == (VectorLimits { max_vector_candidates: Some(100_000), max_vector_expansions: Some(100) }),
    {
        VectorLimits { max_vector_candidates: Some(100_000), max_vector_expansions: Some(100) }
    }
}

/// Graph traversal limits enforced against [`GraphUsage`].
#[derive(Debug, Clone, Copy, PartialEq, Eq, Structural)]
pub struct GraphLimits {
    pub max_graph_depth: Option<u32>,
    pub max_graph_nodes: Option<u64>,
    pub max_graph_edges: Option<u64>,
}

impl Default for GraphLimits {
    fn default() -> (r: Self)
        ensures
            r == (GraphLimits {
                max_graph_depth: Some(100),
                max_graph_nodes: Some(1_000_000),
                max_graph_edges: Some(10_000_000),
            }),
    {
        GraphLimits {
            max_graph_depth: Some(100),
            max_graph_nodes: Some(1_000_000),
            max_graph_edges: Some(10_000_000),
        }
    }
}

/// Migration limits enforced against [`MigrationUsage`].
#[derive(Debug, Clone, Copy, PartialEq, Eq, Structural)]
pub struct MigrationLimits {
    pub max_import_rows: Option<u64>,
    pub max_import_batches: Option<u64>,
}

impl Default for MigrationLimits {
    fn default() -> (r: Self)
        ensures
            r == (MigrationLimits { max_import_rows: Some(10_000_000), max_import_batches: Some(10_000) }),
    {
        MigrationLimits { max_import_rows: Some(10_000_000), max_import_batches: Some(10_000) }
    }
}

/// Backup/restore limits enforced against [`BackupUsage`]; sizes in bytes.
#[derive(Debug, Clone, Copy, PartialEq, Eq, Structural)]
pub struct BackupLimits {
    pub max_backup_size: Option<u64>,
    pub max_restore_size: Option<u64>,
}

impl Default for BackupLimits {
    fn default() -> (r: Self)
        ensures
            r == (BackupLimits {
                max_backup_size: Some(107_374_182_400),
                max_restore_size: Some(107_374_182_400),
            }),
    {
        BackupLimits {
            max_backup_size: Some(100 * 1024 * 1024 * 1024),
            max_restore_size: Some(100 * 1024 * 1024 * 1024),
        }
    }
}

/// Aggregated limits across all governed subsystems.
#[derive(Debug, Clone, Copy, PartialEq, Eq, Structural)]
pub struct ExecutionLimits {
    pub cpu: CpuLimits,
    pub memory: MemoryLimits,
    pub query_complexity: QueryComplexityLimits,
    pub pipeline: PipelineLimits,
    pub ffi: FfiLimits,
    pub aiml: AimlLimits,
    pub vector: VectorLimits,
    pub graph: GraphLimits,
    pub migration: MigrationLimits,
    pub backup: BackupLimits,
}

/// The built-in limits of the default policy.
pub open spec fn default_limits() -> ExecutionLimits {
    ExecutionLimits {
        cpu: CpuLimits { max_execution_steps: Some(10_000_000), max_cpu_time_ms: Some(300_000) },
        memory: MemoryLimits { max_memory_mb: Some(2048) },
        query_complexity: QueryComplexityLimits {
            max_query_complexity: Some(100),
            max_join_count: Some(10),
            max_sort_rows: Some(1_000_000),
        },
        pipeline: PipelineLimits { max_pipeline_depth: Some(100), max_pipeline_stages: Some(50) },
        ffi: FfiLimits {
            max_ffi_calls: Some(10_000),
            max_ffi_memory_mb: Some(512),
            max_ffi_time_ms: Some(30_000),
        },
        aiml: AimlLimits {
            max_training_iterations: Some(100_000),
            max_prediction_batch_size: Some(10_000),
            max_embedding_batch_size: Some(10_000),
        },
        vector: VectorLimits { max_vector_candidates: Some(100_000), max_vector_expansions: Some(100) },
        graph: GraphLimits {
            max_graph_depth: Some(100),
            max_graph_nodes: Some(1_000_000),
            max_graph_edges: Some(10_000_000),
        },
        migration: MigrationLimits { max_import_rows: Some(10_000_000), max_import_batches: Some(10_000) },
        backup: BackupLimits {
            max_backup_size: Some(107_374_182_400),
            max_restore_size: Some(107_374_182_400),
        },
    }
}

impl Default for ExecutionLimits {
    fn default() -> (r: Self)
        ensures
            r == default_limits(),
    {
        ExecutionLimits {
            cpu: CpuLimits::default(),
            memory: MemoryLimits::default(),
            query_complexity: QueryComplexityLimits::default(),
            pipeline: PipelineLimits::default(),
            ffi: FfiLimits::default(),
            aiml: AimlLimits::default(),
            vector: VectorLimits::default(),
            graph: GraphLimits::default(),
            migration: MigrationLimits::default(),
            backup: BackupLimits::default(),
        }
    }
}

// ── Enforcement action ────────────────────────────────────────

/// What the governor does when a limit is exceeded.
#[derive(Debug, Clone, Copy, PartialEq, Eq, Structural)]
pub enum EnforcementAction {
    /// Record usage without any enforcement.
    Monitor,
    /// Log a warning but continue execution.
    Warn,
    /// Allow execution but signal throttling to the caller.
    Throttle,
    /// Abort the execution with an error.
    Block,
}

/// The stable name of an enforcement action.
pub open spec fn action_name(a: EnforcementAction) -> Seq<char> {
    match a {
        EnforcementAction::Monitor => "monitor"@,
        EnforcementAction::Warn => "warn"@,
        EnforcementAction::Throttle => "throttle"@,
        EnforcementAction::Block => "block"@,
    }
}

impl EnforcementAction {
    /// Returns the stable string name of this action.
    pub fn as_str(&self) -> (r: &'static str)
        ensures
            r@ == action_name(*self),
    {
        match self {
            EnforcementAction::Monitor => "monitor",
            EnforcementAction::Warn => "warn",
            EnforcementAction::Throttle => "throttle",
            EnforcementAction::Block => "block",
        }
    }
}

// ── Policy ─────────────────────────────────────────────────────

/// Defines which workloads a policy applies to.
#[derive(Debug)]
pub enum PolicyScope {
    Global,
    Cluster(String),
    Node(String),
    Namespace(String),
    Database(String),
    Role(String),
    User(String),
    WorkloadType(WorkloadType),
}

/// A policy scope with its names taken as character sequences.
pub enum ScopeView {
    Global,
    Cluster(Seq<char>),
    Node(Seq<char>),
    Namespace(Seq<char>),
    Database(Seq<char>),
    Role(Seq<char>),
    User(Seq<char>),
    WorkloadType(WorkloadType),
}

impl View for PolicyScope {
    type V = ScopeView;

    open spec fn view(&self) -> ScopeView {
        match self {
            PolicyScope::Global => ScopeView::Global,
            PolicyScope::Cluster(n) => ScopeView::Cluster(n@),
            PolicyScope::Node(n) => ScopeView::Node(n@),
            PolicyScope::Namespace(n) => ScopeView::Namespace(n@),
            PolicyScope::Database(n) => ScopeView::Database(n@),
            PolicyScope::Role(n) => ScopeView::Role(n@),
            PolicyScope::User(n) => ScopeView::User(n@),
            PolicyScope::WorkloadType(w) => ScopeView::WorkloadType(*w),
        }
    }
}

/// The category label of a scope.
pub open spec fn scope_category(s: ScopeView) -> Seq<char> {
    match s {
        ScopeView::Global => "global"@,
        ScopeView::Cluster(_) => "cluster"@,
        ScopeView::Node(_) => "node"@,
        ScopeView::Namespace(_) => "namespace"@,
        ScopeView::Database(_) => "database"@,
        ScopeView::Role(_) => "role"@,
        ScopeView::User(_) => "user"@,
        ScopeView::WorkloadType(_) => "workload_type"@,
    }
}

/// The target named by a scope (`global` for the global scope).
pub open spec fn scope_target(s: ScopeView) -> Seq<char> {
    match s {
        ScopeView::Global => "global"@,
        ScopeView::Cluster(n) => n,
        ScopeView::Node(n) => n,
        ScopeView::Namespace(n) => n,
        ScopeView::Database(n) => n,
        ScopeView::Role(n) => n,
        ScopeView::User(n) => n,
        ScopeView::WorkloadType(w) => workload_name(w),
    }
}

impl Clone for PolicyScope {
    fn clone(&self) -> (r: Self)
        ensures
            r@ == self@,
    {
        match self {
            PolicyScope::Global => PolicyScope::Global,
            PolicyScope::Cluster(n) => PolicyScope::Cluster(n.clone()),
            PolicyScope::Node(n) => PolicyScope::Node(n.clone()),
            PolicyScope::Namespace(n) => PolicyScope::Namespace(n.clone()),
            PolicyScope::Database(n) => PolicyScope::Database(n.clone()),
            PolicyScope::Role(n) => PolicyScope::Role(n.clone()),
            PolicyScope::User(n) => PolicyScope::User(n.clone()),
            PolicyScope::WorkloadType(w) => PolicyScope::WorkloadType(*w),
        }
    }
}

impl PolicyScope {
    /// Returns the category label of this scope.
    pub fn as_str(&self) -> (r: &str)
        ensures
            r@ == scope_category(self@),
    {
        match self {
            PolicyScope::Global => "global",
            PolicyScope::Cluster(_) => "cluster",
            PolicyScope::Node(_) => "node",
            PolicyScope::Namespace(_) => "namespace",
            PolicyScope::Database(_) => "database",
            PolicyScope::Role(_) => "role",
            PolicyScope::User(_) => "user",
            PolicyScope::WorkloadType(_) => "workload_type",
        }
    }

    /// Returns the target name embedded in this scope (`global` for
    /// [`PolicyScope::Global`]).
    pub fn name(&self) -> (r: &str)
        ensures
            r@ == scope_target(self@),
    {
        match self {
            PolicyScope::Global => "global",
            PolicyScope::Cluster(n) => n.as_str(),
            PolicyScope::Node(n) => n.as_str(),
            PolicyScope::Namespace(n) => n.as_str(),
            PolicyScope::Database(n) => n.as_str(),
            PolicyScope::Role(n) => n.as_str(),
            PolicyScope::User(n) => n.as_str(),
            PolicyScope::WorkloadType(w) => w.as_str(),
        }
    }
}

/// A named governance policy with a scope, limits and enforcement action.
#[derive(Debug)]
pub struct Policy {
    /// Unique policy name.
    pub name: String,
    /// Scope the policy applies to.
    pub scope: PolicyScope,
    /// Limits enforced by the policy.
    pub limits: ExecutionLimits,
    /// Enforcement action taken when a limit is exceeded.
    pub action: EnforcementAction,
}

/// A policy with its strings taken as character sequences.
pub struct PolicyView {
    pub name: Seq<char>,
    pub scope: ScopeView,
    pub limits: ExecutionLimits,
    pub action: EnforcementAction,
}

impl View for Policy {
    type V = PolicyView;

    open spec fn view(&self) -> PolicyView {
        PolicyView { name: self.name@, scope: self.scope@, limits: self.limits, action: self.action }
    }
}

impl Clone for Policy {
    fn clone(&self) -> (r: Self)
        ensures
            r@ == self@,
    {
        Policy {
            name: self.name.clone(),
            scope: self.scope.clone(),
            limits: self.limits,
            action: self.action,
        }
    }
}

/// The built-in policy named `default`: global scope, default limits,
/// monitor only.
pub open spec fn builtin_default_policy() -> PolicyView {
    PolicyView {
        name: "default"@,
        scope: ScopeView::Global,
        limits: default_limits(),
        action: EnforcementAction::Monitor,
    }
}

/// The global, monitor-only policy with default limits under `name`.
pub fn global_default_policy(name: &str) -> (p: Policy)
    ensures
        p@ == (PolicyView {
            name: name@,
            scope: ScopeView::Global,
            limits: default_limits(),
            action: EnforcementAction::Monitor,
        }),
{
    Policy {
        name: owned(name),
        scope: PolicyScope::Global,
        limits: ExecutionLimits::default(),
        action: EnforcementAction::Monitor,
    }
}

// ── Policy config ─────────────────────────────────────────────

/// Flat representation of a policy's limits, as written in configuration.
#[derive(Debug)]
pub struct PolicyConfig {
    /// Scope string, e.g. `global`, `namespace:analytics`, `sql`.
    pub scope: String,
    pub max_memory_mb: Option<u64>,
    pub max_execution_steps: Option<u64>,
    pub max_cpu_time_ms: Option<u64>,
    pub max_query_complexity: Option<u32>,
    pub max_join_count: Option<u32>,
    pub max_sort_rows: Option<u64>,
    pub max_pipeline_depth: Option<u32>,
    pub max_pipeline_stages: Option<u32>,
    pub max_ffi_calls: Option<u64>,
    pub max_ffi_memory_mb: Option<u64>,
    pub max_ffi_time_ms: Option<u64>,
    pub max_training_iterations: Option<u64>,
    pub max_prediction_batch_size: Option<u64>,
    pub max_embedding_batch_size: Option<u64>,
    pub max_vector_candidates: Option<u64>,
    pub max_vector_expansions: Option<u64>,
    pub max_graph_depth: Option<u32>,
    pub max_graph_nodes: Option<u64>,
    pub max_graph_edges: Option<u64>,
    pub max_import_rows: Option<u64>,
    pub max_import_batches: Option<u64>,
    pub max_backup_size: Option<u64>,
    pub max_restore_size: Option<u64>,
    /// Enforcement action: `monitor`, `warn`, `throttle` or `block`.
    pub action: Option<String>,
}

/// The limits a policy configuration states, field by field.
pub open spec fn config_limits(cfg: PolicyConfig) -> ExecutionLimits {
    ExecutionLimits {
        cpu: CpuLimits {
            max_execution_steps: cfg.max_execution_steps,
            max_cpu_time_ms: cfg.max_cpu_time_ms,
        },
        memory: MemoryLimits { max_memory_mb: cfg.max_memory_mb },
        query_complexity: QueryComplexityLimits {
            max_query_complexity: cfg.max_query_complexity,
            max_join_count: cfg.max_join_count,
            max_sort_rows: cfg.max_sort_rows,
        },
        pipeline: PipelineLimits {
            max_pipeline_depth: cfg.max_pipeline_depth,
            max_pipeline_stages: cfg.max_pipeline_stages,
        },
        ffi: FfiLimits {
            max_ffi_calls: cfg.max_ffi_calls,
            max_ffi_memory_mb: cfg.max_ffi_memory_mb,
            max_ffi_time_ms: cfg.max_ffi_time_ms,
        },
        aiml: AimlLimits {
            max_training_iterations: cfg.max_training_iterations,
            max_prediction_batch_size: cfg.max_prediction_batch_size,
            max_embedding_batch_size: cfg.max_embedding_batch_size,
        },
        vector: VectorLimits {
            max_vector_candidates: cfg.max_vector_candidates,
            max_vector_expansions: cfg.max_vector_expansions,
        },
        graph: GraphLimits {
            max_graph_depth: cfg.max_graph_depth,
            max_graph_nodes: cfg.max_graph_nodes,
            max_graph_edges: cfg.max_graph_edges,
        },
        migration: MigrationLimits {
            max_import_rows: cfg.max_import_rows,
            max_import_batches: cfg.max_import_batches,
        },
        backup: BackupLimits {
            max_backup_size: cfg.max_backup_size,
            max_restore_size: cfg.max_restore_size,
        },
    }
}

/// The configuration of the built-in `default` policy: global scope, the
/// default limits, monitor only.
pub fn default_policy_config() -> (cfg: PolicyConfig)
    ensures
        cfg.scope@ == "global"@,
        config_limits(cfg) == default_limits(),
        cfg.action matches Some(a) && a@ == "monitor"@,
{
    PolicyConfig {
        scope: owned("global"),
        max_memory_mb: Some(2048),
        max_execution_steps: Some(10_000_000),
        max_cpu_time_ms: Some(300_000),
        max_query_complexity: Some(100),
        max_join_count: Some(10),
        max_sort_rows: Some(1_000_000),
        max_pipeline_depth: Some(100),
        max_pipeline_stages: Some(50),
        max_ffi_calls: Some(10_000),
        max_ffi_memory_mb: Some(512),
        max_ffi_time_ms: Some(30_000),
        max_training_iterations: Some(100_000),
        max_prediction_batch_size: Some(10_000),
        max_embedding_batch_size: Some(10_000),
        max_vector_candidates: Some(100_000),
        max_vector_expansions: Some(100),
        max_graph_depth: Some(100),
        max_graph_nodes: Some(1_000_000),
        max_graph_edges: Some(10_000_000),
        max_import_rows: Some(10_000_000),
        max_import_batches: Some(10_000),
        max_backup_size: Some(100 * 1024 * 1024 * 1024),
        max_restore_size: Some(100 * 1024 * 1024 * 1024),
        action: Some(owned("monitor")),
    }
}

/// Governor configuration.
pub struct GovernorConfig {
    /// Whether the governor is active.
    pub enabled: bool,
    /// Name of the policy used when no policy matches.
    pub default_policy: String,
    /// Named policy definitions keyed by policy name.
    pub policies: StrMap<PolicyConfig>,
}

impl Default for GovernorConfig {
    fn default() -> (r: Self)
        ensures
            r.enabled,
            r.default_policy@ == "default"@,
            r.policies.wf(),
            r.policies@.dom() == set!["default"@],
            r.policies@["default"@].scope@ == "global"@,
            config_limits(r.policies@["default"@]) == default_limits(),
            r.policies@["default"@].action matches Some(a) && a@ == "monitor"@,
    {
        let mut policies = StrMap::new();
        policies.insert(owned("default"), default_policy_config());
        proof {
            assert(policies@.dom() =~= set!["default"@]);
        }
        GovernorConfig { enabled: true, default_policy: owned("default"), policies }
    }
}

/// High-level snapshot of the governor's state for observability.
#[derive(Debug, Clone, Copy, PartialEq, Eq, Structural)]
pub struct GovernorStatus {
    pub enabled: bool,
    pub active_executions: usize,
    pub total_violations: u64,
    pub blocked_count: u64,
    pub throttled_count: u64,
    pub policies_loaded: usize,
    pub uptime_seconds: u64,
}

/// Aggregated metric counters sampled from the governor.
#[derive(Debug, Clone, Copy, PartialEq, Eq, Structural)]
pub struct GovernorMetricsSnapshot {
    pub active_executions: usize,
    pub blocked_total: u64,
    pub throttled_total: u64,
    pub policy_violations_total: u64,
    /// Sum of allocated bytes across active executions.
    pub memory_usage_bytes: u64,
    /// Sum of CPU time across active executions.
    pub cpu_time_ms: u64,
    /// Sum of FFI calls across active executions.
    pub ffi_calls_total: u64,
}


// ── Violations and execution contexts ─────────────────────────

/// A recorded enforcement event for a limit that was exceeded.
#[derive(Debug)]
pub struct Violation {
    /// Randomly generated violation id (a UUID's 128-bit value).
    pub id: u128,
    /// When the violation was recorded, in milliseconds since the Unix epoch.
    pub timestamp_ms: i64,
    /// Id of the offending execution.
    pub execution_id: u128,
    /// Namespace the execution ran in.
    pub namespace: String,
    /// Workload type of the execution.
    pub workload_type: WorkloadType,
    /// Name of the resolved policy.
    pub policy_name: String,
    /// Name of the limit that was exceeded.
    pub limit_name: String,
    /// Configured limit value.
    pub limit_value: String,
    /// Observed usage value.
    pub usage_value: String,
    /// Enforcement action taken.
    pub action: EnforcementAction,
}

impl Clone for Violation {
    fn clone(&self) -> (r: Self)
        ensures
            r == *self,
    {
        Violation {
            id: self.id,
            timestamp_ms: self.timestamp_ms,
            execution_id: self.execution_id,
            namespace: self.namespace.clone(),
            workload_type: self.workload_type,
            policy_name: self.policy_name.clone(),
            limit_name: self.limit_name.clone(),
            limit_value: self.limit_value.clone(),
            usage_value: self.usage_value.clone(),
            action: self.action,
        }
    }
}

/// Per-execution state held by the governor while a workload is running.
#[derive(Debug)]
pub struct ExecutionContext {
    /// Unique execution id (a UUID's 128-bit value).
    pub execution_id: u128,
    /// Namespace the execution belongs to.
    pub namespace: String,
    /// Workload type of the execution.
    pub workload_type: WorkloadType,
    /// Resolved limits for this execution.
    pub limits: ExecutionLimits,
    /// Accumulated resource usage.
    pub usage: ExecutionUsage,
    /// Enforcement action resolved from the applicable policy.
    pub action: EnforcementAction,
    /// When the execution started, in milliseconds since the Unix epoch.
    pub created_at_ms: i64,
    /// Last time the context was updated, in milliseconds since the epoch.
    pub last_updated_ms: i64,
}

impl Clone for ExecutionContext {
    fn clone(&self) -> (r: Self)
        ensures
            r == *self,
    {
        ExecutionContext {
            execution_id: self.execution_id,
            namespace: self.namespace.clone(),
            workload_type: self.workload_type,
            limits: self.limits,
            usage: self.usage,
            action: self.action,
            created_at_ms: self.created_at_ms,
            last_updated_ms: self.last_updated_ms,
        }
    }
}

impl ExecutionContext {
    /// A fresh context with a new random id, started now, with zero usage and
    /// the `Monitor` action; an error when no random id could be made.
    pub fn new(namespace: String, workload_type: WorkloadType, limits: ExecutionLimits) -> (r: Result<Self, String>)
        ensures
            r matches Ok(c) ==> {
                &&& c.namespace == namespace
                &&& c.workload_type == workload_type
                &&& c.limits == limits
                &&& c.usage == zero_usage()
                &&& c.action == EnforcementAction::Monitor
                &&& c.created_at_ms == c.last_updated_ms
            },
            r matches Err(e) ==> e@ == crate::clock::id_failure_message(),
    {
        let id = match crate::clock::fresh_uuid() {
            Ok(id) => id,
            Err(e) => {
                return Err(e);
            },
        };
        let now = crate::clock::now_millis();
        Ok(Self::with_identity(namespace, workload_type, limits, id, now))
    }

    /// A fresh context with the given id and start time, zero usage and the
    /// `Monitor` action.
    pub fn with_identity(
        namespace: String,
        workload_type: WorkloadType,
        limits: ExecutionLimits,
        execution_id: u128,
        now_ms: i64,
    ) -> (c: Self)
        ensures
            c == (ExecutionContext {
                execution_id,
                namespace,
                workload_type,
                limits,
                usage: zero_usage(),
                action: EnforcementAction::Monitor,
                created_at_ms: now_ms,
                last_updated_ms: now_ms,
            }),
    {
        ExecutionContext {
            execution_id,
            namespace,
            workload_type,
            limits,
            usage: ExecutionUsage::default(),
            action: EnforcementAction::Monitor,
            created_at_ms: now_ms,
            last_updated_ms: now_ms,
        }
    }

    /// The context with an explicit enforcement action.
    pub fn with_action(self, action: EnforcementAction) -> (c: Self)
        ensures
            c == (ExecutionContext { action, ..self }),
    {
        let mut c = self;
        c.action = action;
        c
    }

    /// Milliseconds between the context's creation and `now_ms`, saturating
    /// at the bounds of `i64`.
    pub fn elapsed_ms_at(&self, now_ms: i64) -> (d: i64)
        ensures
            d == (if now_ms - self.created_at_ms > i64::MAX {
                i64::MAX as int
            } else if now_ms - self.created_at_ms < i64::MIN {
                i64::MIN as int
            } else {
                now_ms - self.created_at_ms
            }),
    {
        let d: i128 = now_ms as i128 - self.created_at_ms as i128;
        if d > i64::MAX as i128 {
            i64::MAX
        } else if d < i64::MIN as i128 {
            i64::MIN
        } else {
            d as i64
        }
    }

    /// Milliseconds elapsed since the context was created.
    pub fn elapsed_ms(&self) -> (d: i64) {
        self.elapsed_ms_at(crate::clock::now_millis())
    }
}
} // verus!
