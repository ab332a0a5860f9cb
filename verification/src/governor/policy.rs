//! Policy resolution for the governor.
//!
//! A [`PolicyManager`] holds named policies. For a request it collects the
//! policies whose scope applies, orders them from least to most specific
//! (global, cluster, node, namespace, database, role, user, workload type) and
//! merges them in that order, so that a more specific policy overrides each
//! limit it sets and decides the enforcement action.

use vstd::prelude::*;
use vstd::string::StringExecFns;
use crate::strmap::StrMap;
use crate::text::{find_char, first_index_of, owned, str_eq, substring};
use super::{
    action_name, builtin_default_policy, scope_category, scope_target, config_limits, default_limits, global_default_policy, workload_name,
    AimlLimits, BackupLimits, CpuLimits, EnforcementAction, ExecutionLimits, FfiLimits,
    GraphLimits, MemoryLimits, MigrationLimits, PipelineLimits, Policy, PolicyConfig, PolicyScope,
    PolicyView, QueryComplexityLimits, ScopeView, VectorLimits, WorkloadType,
};

verus! {

// ── Scope parsing ─────────────────────────────────────────────

/// The part of a scope string before its first `:` (all of it when there is
/// none).
pub open spec fn scope_head(s: Seq<char>) -> Seq<char> {
    match first_index_of(s, ':') {
        Some(i) => s.take(i),
        None => s,
    }
}

/// The part of a scope string after its first `:`, if it has one.
pub open spec fn scope_tail(s: Seq<char>) -> Option<Seq<char>> {
    match first_index_of(s, ':') {
        Some(i) => Some(s.skip(i + 1)),
        None => None,
    }
}

/// A scope that takes a target name: present only when the string has one.
pub open spec fn named_scope(tail: Option<Seq<char>>, make: spec_fn(Seq<char>) -> ScopeView) -> Option<
    ScopeView,
> {
    match tail {
        Some(n) => Some(make(n)),
        None => None,
    }
}

/// The scope a configuration string denotes: `global`, a category and a name
/// separated by the first `:` (`cluster`, `node`, `namespace`, `database`,
/// `role`, `user`), or a workload type name.
pub open spec fn parse_scope_spec(s: Seq<char>) -> Option<ScopeView> {
    let head = scope_head(s);
    let tail = scope_tail(s);
    if head == "global"@ {
        Some(ScopeView::Global)
    } else if head == "cluster"@ {
        named_scope(tail, |n: Seq<char>| ScopeView::Cluster(n))
    } else if head == "node"@ {
        named_scope(tail, |n: Seq<char>| ScopeView::Node(n))
    } else if head == "namespace"@ {
        named_scope(tail, |n: Seq<char>| ScopeView::Namespace(n))
    } else if head == "database"@ {
        named_scope(tail, |n: Seq<char>| ScopeView::Database(n))
    } else if head == "role"@ {
        named_scope(tail, |n: Seq<char>| ScopeView::Role(n))
    } else if head == "user"@ {
        named_scope(tail, |n: Seq<char>| ScopeView::User(n))
    } else if head == "sql"@ {
        Some(ScopeView::WorkloadType(WorkloadType::Sql))
    } else if head == "vector_search"@ {
        Some(ScopeView::WorkloadType(WorkloadType::VectorSearch))
    } else if head == "ai_ml"@ {
        Some(ScopeView::WorkloadType(WorkloadType::AIML))
    } else if head == "graph_traversal"@ {
        Some(ScopeView::WorkloadType(WorkloadType::GraphTraversal))
    } else if head == "cdc_pipeline"@ {
        Some(ScopeView::WorkloadType(WorkloadType::CdcPipeline))
    } else if head == "backup"@ {
        Some(ScopeView::WorkloadType(WorkloadType::Backup))
    } else if head == "restore"@ {
        Some(ScopeView::WorkloadType(WorkloadType::Restore))
    } else if head == "migration"@ {
        Some(ScopeView::WorkloadType(WorkloadType::Migration))
    } else if head == "ffi"@ {
        Some(ScopeView::WorkloadType(WorkloadType::Ffi))
    } else {
        None
    }
}

/// The view of an optional scope.
pub open spec fn scope_option_view(o: Option<PolicyScope>) -> Option<ScopeView> {
    match o {
        Some(s) => Some(s@),
        None => None,
    }
}

/// The enforcement action a configuration names; anything else monitors.
pub open spec fn config_action(a: Option<Seq<char>>) -> EnforcementAction {
    match a {
        Some(s) => if s == "block"@ {
            EnforcementAction::Block
        } else if s == "throttle"@ {
            EnforcementAction::Throttle
        } else if s == "warn"@ {
            EnforcementAction::Warn
        } else {
            EnforcementAction::Monitor
        },
        None => EnforcementAction::Monitor,
    }
}

/// The view of an optional string.
pub open spec fn string_option_view(o: Option<String>) -> Option<Seq<char>> {
    match o {
        Some(s) => Some(s@),
        None => None,
    }
}

/// The view of an optional string slice.
pub open spec fn str_option_view(o: Option<&str>) -> Option<Seq<char>> {
    match o {
        Some(s) => Some(s@),
        None => None,
    }
}

/// The policy a named configuration entry describes, if its scope parses.
pub open spec fn config_policy(name: Seq<char>, cfg: PolicyConfig) -> Option<PolicyView> {
    match parse_scope_spec(cfg.scope@) {
        Some(scope) => Some(
            PolicyView {
                name,
                scope,
                limits: config_limits(cfg),
                action: config_action(string_option_view(cfg.action)),
            },
        ),
        None => None,
    }
}

/// The view of an optional policy.
pub open spec fn policy_option_view(o: Option<Policy>) -> Option<PolicyView> {
    match o {
        Some(p) => Some(p@),
        None => None,
    }
}

// ── Merging ───────────────────────────────────────────────────

/// The override's value when it has one, else the base's.
pub open spec fn prefer<T>(base: Option<T>, over: Option<T>) -> Option<T> {
    match over {
        Some(x) => Some(x),
        None => base,
    }
}

/// Limits where each field set in `over` replaces the one in `base`.
pub open spec fn merge_limits(base: ExecutionLimits, over: ExecutionLimits) -> ExecutionLimits {
    ExecutionLimits {
        cpu: CpuLimits {
            max_execution_steps: prefer(base.cpu.max_execution_steps, over.cpu.max_execution_steps),
            max_cpu_time_ms: prefer(base.cpu.max_cpu_time_ms, over.cpu.max_cpu_time_ms),
        },
        memory: MemoryLimits {
            max_memory_mb: prefer(base.memory.max_memory_mb, over.memory.max_memory_mb),
        },
        query_complexity: QueryComplexityLimits {
            max_query_complexity: prefer(
                base.query_complexity.max_query_complexity,
                over.query_complexity.max_query_complexity,
            ),
            max_join_count: prefer(
                base.query_complexity.max_join_count,
                over.query_complexity.max_join_count,
            ),
            max_sort_rows: prefer(
                base.query_complexity.max_sort_rows,
                over.query_complexity.max_sort_rows,
            ),
        },
        pipeline: PipelineLimits {
            max_pipeline_depth: prefer(
                base.pipeline.max_pipeline_depth,
                over.pipeline.max_pipeline_depth,
            ),
            max_pipeline_stages: prefer(
                base.pipeline.max_pipeline_stages,
                over.pipeline.max_pipeline_stages,
            ),
        },
        ffi: FfiLimits {
            max_ffi_calls: prefer(base.ffi.max_ffi_calls, over.ffi.max_ffi_calls),
            max_ffi_memory_mb: prefer(base.ffi.max_ffi_memory_mb, over.ffi.max_ffi_memory_mb),
            max_ffi_time_ms: prefer(base.ffi.max_ffi_time_ms, over.ffi.max_ffi_time_ms),
        },
        aiml: AimlLimits {
            max_training_iterations: prefer(
                base.aiml.max_training_iterations,
                over.aiml.max_training_iterations,
            ),
            max_prediction_batch_size: prefer(
                base.aiml.max_prediction_batch_size,
                over.aiml.max_prediction_batch_size,
            ),
            max_embedding_batch_size: prefer(
                base.aiml.max_embedding_batch_size,
                over.aiml.max_embedding_batch_size,
            ),
        },
        vector: VectorLimits {
            max_vector_candidates: prefer(
                base.vector.max_vector_candidates,
                over.vector.max_vector_candidates,
            ),
            max_vector_expansions: prefer(
                base.vector.max_vector_expansions,
                over.vector.max_vector_expansions,
            ),
        },
        graph: GraphLimits {
            max_graph_depth: prefer(base.graph.max_graph_depth, over.graph.max_graph_depth),
            max_graph_nodes: prefer(base.graph.max_graph_nodes, over.graph.max_graph_nodes),
            max_graph_edges: prefer(base.graph.max_graph_edges, over.graph.max_graph_edges),
        },
        migration: MigrationLimits {
            max_import_rows: prefer(base.migration.max_import_rows, over.migration.max_import_rows),
            max_import_batches: prefer(
                base.migration.max_import_batches,
                over.migration.max_import_batches,
            ),
        },
        backup: BackupLimits {
            max_backup_size: prefer(base.backup.max_backup_size, over.backup.max_backup_size),
            max_restore_size: prefer(base.backup.max_restore_size, over.backup.max_restore_size),
        },
    }
}

/// The merge of two policies: names joined by `+`, global scope, the
/// override's limits where it sets them, and the override's action.
pub open spec fn merge_policy_views(base: PolicyView, over: PolicyView) -> PolicyView {
    PolicyView {
        name: base.name + "+"@ + over.name,
        scope: ScopeView::Global,
        limits: merge_limits(base.limits, over.limits),
        action: over.action,
    }
}

/// The merge of a non-empty sequence of policies, from first to last.
pub open spec fn merge_all(c: Seq<PolicyView>) -> PolicyView
    decreases c.len(),
{
    if c.len() <= 1 {
        c[0]
    } else {
        merge_policy_views(merge_all(c.drop_last()), c.last())
    }
}

/// The merge of a sequence of policies, if it has any.
pub open spec fn merge_opt(c: Seq<PolicyView>) -> Option<PolicyView> {
    if c.len() == 0 {
        None
    } else {
        Some(merge_all(c))
    }
}

// ── Resolution ────────────────────────────────────────────────

/// What a request to resolve a policy is about.
pub struct ResolveRequest {
    pub namespace: Seq<char>,
    pub workload: WorkloadType,
    pub user: Option<Seq<char>>,
    pub role: Option<Seq<char>>,
}

/// Specificity of a scope: higher values override lower ones.
pub open spec fn scope_rank(s: ScopeView) -> nat {
    match s {
        ScopeView::Global => 0,
        ScopeView::Cluster(_) => 1,
        ScopeView::Node(_) => 2,
        ScopeView::Namespace(_) => 3,
        ScopeView::Database(_) => 4,
        ScopeView::Role(_) => 5,
        ScopeView::User(_) => 6,
        ScopeView::WorkloadType(_) => 7,
    }
}

/// Whether a scope applies to a request. Cluster, node and database scopes
/// never apply to a request.
pub open spec fn scope_applies(s: ScopeView, req: ResolveRequest) -> bool {
    match s {
        ScopeView::Global => true,
        ScopeView::Namespace(n) => n == req.namespace,
        ScopeView::WorkloadType(w) => w == req.workload,
        ScopeView::User(u) => req.user == Some(u),
        ScopeView::Role(r) => req.role == Some(r),
        ScopeView::Cluster(_) => false,
        ScopeView::Node(_) => false,
        ScopeView::Database(_) => false,
    }
}

/// Whether policy `p` is a candidate of rank `q` for the request.
pub open spec fn selected(p: PolicyView, q: nat, req: ResolveRequest) -> bool {
    scope_rank(p.scope) == q && scope_applies(p.scope, req)
}

/// The candidates of rank `q` among the first `n` policies, in order.
pub open spec fn rank_candidates(s: Seq<PolicyView>, n: int, q: nat, req: ResolveRequest) -> Seq<
    PolicyView,
>
    decreases n,
{
    if n <= 0 {
        Seq::empty()
    } else {
        let r = rank_candidates(s, n - 1, q, req);
        if selected(s[n - 1], q, req) {
            r.push(s[n - 1])
        } else {
            r
        }
    }
}

/// The candidates of rank below `q`, least specific first; within a rank
/// they keep the order of `s`.
pub open spec fn candidates_below(s: Seq<PolicyView>, q: nat, req: ResolveRequest) -> Seq<
    PolicyView,
>
    decreases q,
{
    if q == 0 {
        Seq::empty()
    } else {
        candidates_below(s, (q - 1) as nat, req) + rank_candidates(s, s.len() as int, (q - 1) as nat, req)
    }
}

/// All candidates for the request, least specific first.
pub open spec fn resolution_candidates(s: Seq<PolicyView>, req: ResolveRequest) -> Seq<PolicyView> {
    candidates_below(s, 8, req)
}

proof fn lemma_merge_opt_push(c: Seq<PolicyView>, x: PolicyView)
    ensures
        merge_opt(c.push(x)) == Some(
            match merge_opt(c) {
                Some(m) => merge_policy_views(m, x),
                None => x,
            },
        ),
{
    let d = c.push(x);
    assert(d.drop_last() =~= c);
    if c.len() > 0 {
        assert(merge_all(d) == merge_policy_views(merge_all(d.drop_last()), d.last()));
    }
}

// ── Policy manager ────────────────────────────────────────────

/// Holds the named policies and the name of the fallback policy.
pub struct PolicyManager {
    policies: StrMap<Policy>,
    default_policy: String,
}

impl View for PolicyManager {
    type V = Map<Seq<char>, PolicyView>;

    closed spec fn view(&self) -> Map<Seq<char>, PolicyView> {
        self.policies@.map_values(|p: Policy| p@)
    }
}

impl PolicyManager {
    /// The policies in the order in which their names were first added.
    pub closed spec fn policy_seq(&self) -> Seq<PolicyView> {
        self.policies.entry_seq().map_values(|e: (String, Policy)| e.1@)
    }

    /// The policy names in the same order.
    pub closed spec fn name_seq(&self) -> Seq<Seq<char>> {
        self.policies.key_seq()
    }

    /// The name of the fallback policy.
    pub closed spec fn default_name(&self) -> Seq<char> {
        self.default_policy@
    }

    /// The fallback policy is present and names are distinct.
    pub closed spec fn wf(&self) -> bool {
        &&& self.policies.wf()
        &&& self.policies@.contains_key(self.default_policy@)
    }

    proof fn lemma_seq_view(&self)
        requires
            self.policies.wf(),
        ensures
            self.policy_seq().len() == self.name_seq().len(),
            forall|i: int|
                0 <= i < self.policy_seq().len() ==> #[trigger] self@.contains_key(
                    self.name_seq()[i],
                ) && self@[self.name_seq()[i]] == self.policy_seq()[i],
            forall|k: Seq<char>| #[trigger] self@.contains_key(k) ==> self.name_seq().contains(k),
            self@.dom() == self.name_seq().to_set(),
            self@.len() == self.name_seq().len(),
            self.name_seq().no_duplicates(),
    {
        self.policies.lemma_view();
        assert forall|k: Seq<char>| #[trigger] self@.contains_key(k) implies self.name_seq().contains(k) by {
            assert(self.policies@.dom().contains(k));
            assert(self.name_seq().to_set().contains(k));
        }
        assert forall|i: int| 0 <= i < self.policy_seq().len() implies #[trigger] self@.contains_key(
            self.name_seq()[i],
        ) && self@[self.name_seq()[i]] == self.policy_seq()[i] by {
            assert(self.name_seq()[i] == self.policies.entry_seq()[i].0@);
        }
        assert(self@.dom() =~= self.policies@.dom());
    }

    /// A manager holding only the built-in `default` policy.
    pub fn new() -> (m: Self)
        ensures
            m.wf(),
            m.default_name() == "default"@,
            m@ == map!["default"@ => builtin_default_policy()],
            m.policy_seq() == seq![builtin_default_policy()],
    {
        let mut policies = StrMap::new();
        policies.insert(owned("default"), global_default_policy("default"));
        let m = PolicyManager { policies, default_policy: owned("default") };
        proof {
            m.lemma_seq_view();
            assert(m@ =~= map!["default"@ => builtin_default_policy()]);
            assert(m.policy_seq() =~= seq![builtin_default_policy()]);
        }
        m
    }

    /// Parses a scope string such as `global`, `namespace:analytics` or `sql`.
    pub fn parse_scope(s: &str) -> (r: Option<PolicyScope>)
        ensures
            scope_option_view(r) == parse_scope_spec(s@),
    {
        let n = s.unicode_len();
        let (head, tail) = match find_char(s, ':') {
            Some(i) => (substring(s, 0, i), Some(substring(s, i + 1, n))),
            None => (owned(s), None),
        };
        proof {
            match first_index_of(s@, ':') {
                Some(i) => {
                    assert(s@.subrange(0, i) =~= s@.take(i));
                    assert(s@.subrange(i + 1, s@.len() as int) =~= s@.skip(i + 1));
                },
                None => {},
            }
        }
        let h = head.as_str();
        if str_eq(h, "global") {
            Some(PolicyScope::Global)
        } else if str_eq(h, "cluster") {
            match tail {
                Some(t) => Some(PolicyScope::Cluster(t)),
                None => None,
            }
        } else if str_eq(h, "node") {
            match tail {
                Some(t) => Some(PolicyScope::Node(t)),
                None => None,
            }
        } else if str_eq(h, "namespace") {
            match tail {
                Some(t) => Some(PolicyScope::Namespace(t)),
                None => None,
            }
        } else if str_eq(h, "database") {
            match tail {
                Some(t) => Some(PolicyScope::Database(t)),
                None => None,
            }
        } else if str_eq(h, "role") {
            match tail {
                Some(t) => Some(PolicyScope::Role(t)),
                None => None,
            }
        } else if str_eq(h, "user") {
            match tail {
                Some(t) => Some(PolicyScope::User(t)),
                None => None,
            }
        } else if str_eq(h, "sql") {
            Some(PolicyScope::WorkloadType(WorkloadType::Sql))
        } else if str_eq(h, "vector_search") {
            Some(PolicyScope::WorkloadType(WorkloadType::VectorSearch))
        } else if str_eq(h, "ai_ml") {
            Some(PolicyScope::WorkloadType(WorkloadType::AIML))
        } else if str_eq(h, "graph_traversal") {
            Some(PolicyScope::WorkloadType(WorkloadType::GraphTraversal))
        } else if str_eq(h, "cdc_pipeline") {
            Some(PolicyScope::WorkloadType(WorkloadType::CdcPipeline))
        } else if str_eq(h, "backup") {
            Some(PolicyScope::WorkloadType(WorkloadType::Backup))
        } else if str_eq(h, "restore") {
            Some(PolicyScope::WorkloadType(WorkloadType::Restore))
        } else if str_eq(h, "migration") {
            Some(PolicyScope::WorkloadType(WorkloadType::Migration))
        } else if str_eq(h, "ffi") {
            Some(PolicyScope::WorkloadType(WorkloadType::Ffi))
        } else {
            None
        }
    }

    /// The enforcement action a configuration names.
    fn parse_action(a: &Option<String>) -> (r: EnforcementAction)
        ensures
            r == config_action(string_option_view(*a)),
    {
        match a {
            Some(s) => {
                let t = s.as_str();
                if str_eq(t, "block") {
                    EnforcementAction::Block
                } else if str_eq(t, "throttle") {
                    EnforcementAction::Throttle
                } else if str_eq(t, "warn") {
                    EnforcementAction::Warn
                } else {
                    EnforcementAction::Monitor
                }
            },
            None => EnforcementAction::Monitor,
        }
    }

    /// The policy a configuration entry describes; `None` when its scope
    /// does not parse.
    pub fn config_to_policy(name: &str, cfg: &PolicyConfig) -> (r: Option<Policy>)
        ensures
            policy_option_view(r) == config_policy(name@, *cfg),
    {
        let scope = match Self::parse_scope(cfg.scope.as_str()) {
            Some(s) => s,
            None => {
                return None;
            },
        };
        let action = Self::parse_action(&cfg.action);
        let limits = ExecutionLimits {
            cpu: CpuLimits {
                max_execution_steps: cfg.max_execution_steps,
                max_cpu_time_ms: cfg.max_cpu_time_ms,
            },
            memory: MemoryLimits { max_memory_mb: cfg.max_memory_mb },
            query_complexity: QueryComplexityLimits {
                max_query_complexity: cfg.max_query_complexity,
                max_join_count: cfg.max_join_count,
                max_sort_rows: cfg.max_sort_rows,
            },
            pipeline: PipelineLimits {
                max_pipeline_depth: cfg.max_pipeline_depth,
                max_pipeline_stages: cfg.max_pipeline_stages,
            },
            ffi: FfiLimits {
                max_ffi_calls: cfg.max_ffi_calls,
                max_ffi_memory_mb: cfg.max_ffi_memory_mb,
                max_ffi_time_ms: cfg.max_ffi_time_ms,
            },
            aiml: AimlLimits {
                max_training_iterations: cfg.max_training_iterations,
                max_prediction_batch_size: cfg.max_prediction_batch_size,
                max_embedding_batch_size: cfg.max_embedding_batch_size,
            },
            vector: VectorLimits {
                max_vector_candidates: cfg.max_vector_candidates,
                max_vector_expansions: cfg.max_vector_expansions,
            },
            graph: GraphLimits {
                max_graph_depth: cfg.max_graph_depth,
                max_graph_nodes: cfg.max_graph_nodes,
                max_graph_edges: cfg.max_graph_edges,
            },
            migration: MigrationLimits {
                max_import_rows: cfg.max_import_rows,
                max_import_batches: cfg.max_import_batches,
            },
            backup: BackupLimits {
                max_backup_size: cfg.max_backup_size,
                max_restore_size: cfg.max_restore_size,
            },
        };
        Some(Policy { name: owned(name), scope, limits, action })
    }
}


/// The policies a configuration describes: every entry whose scope parses,
/// under its own name.
pub open spec fn config_policy_map(c: Map<Seq<char>, PolicyConfig>) -> Map<Seq<char>, PolicyView> {
    Map::new(
        |k: Seq<char>| c.contains_key(k) && config_policy(k, c[k]) is Some,
        |k: Seq<char>| config_policy(k, c[k])->0,
    )
}

/// The policies described by the configuration entries whose names are
/// among the first `n` of `keys`.
pub open spec fn config_policy_prefix(
    keys: Seq<Seq<char>>,
    n: int,
    c: Map<Seq<char>, PolicyConfig>,
) -> Map<Seq<char>, PolicyView> {
    Map::new(
        |k: Seq<char>| keys.take(n).contains(k) && c.contains_key(k) && config_policy(k, c[k]) is Some,
        |k: Seq<char>| config_policy(k, c[k])->0,
    )
}

/// The name of the fallback policy `from_config` settles on.
pub open spec fn configured_default_name(c: Map<Seq<char>, PolicyConfig>, wanted: Seq<char>) -> Seq<
    char,
> {
    if config_policy_map(c).contains_key(wanted) {
        wanted
    } else {
        "default"@
    }
}

/// The policies `from_config` holds: those of the configuration, plus a
/// global monitor-only policy with default limits under the fallback name
/// when the configuration has none of that name.
pub open spec fn configured_policies(c: Map<Seq<char>, PolicyConfig>, wanted: Seq<char>) -> Map<
    Seq<char>,
    PolicyView,
> {
    let built = config_policy_map(c);
    let d = configured_default_name(c, wanted);
    if built.contains_key(d) {
        built
    } else {
        built.insert(
            d,
            PolicyView {
                name: d,
                scope: ScopeView::Global,
                limits: default_limits(),
                action: EnforcementAction::Monitor,
            },
        )
    }
}

/// The policy resolved for a request from policies `s` (in manager order)
/// with fallback `fallback`.
pub open spec fn resolve_spec(
    s: Seq<PolicyView>,
    req: ResolveRequest,
    fallback: PolicyView,
) -> PolicyView {
    let c = resolution_candidates(s, req);
    if c.len() == 0 {
        fallback
    } else {
        merge_all(c)
    }
}

/// The request a call of `resolve_policy` describes.
pub open spec fn resolve_request(
    namespace: &str,
    workload_type: WorkloadType,
    user: Option<&str>,
    role: Option<&str>,
) -> ResolveRequest {
    ResolveRequest {
        namespace: namespace@,
        workload: workload_type,
        user: str_option_view(user),
        role: str_option_view(role),
    }
}

fn prefer_u64(base: Option<u64>, over: Option<u64>) -> (r: Option<u64>)
    ensures
        r == prefer(base, over),
{
    match over {
        Some(x) => Some(x),
        None => base,
    }
}

fn prefer_u32(base: Option<u32>, over: Option<u32>) -> (r: Option<u32>)
    ensures
        r == prefer(base, over),
{
    match over {
        Some(x) => Some(x),
        None => base,
    }
}

fn scope_priority(scope: &PolicyScope) -> (r: u8)
    ensures
        r == scope_rank(scope@),
{
    match scope {
        PolicyScope::Global => 0,
        PolicyScope::Cluster(_) => 1,
        PolicyScope::Node(_) => 2,
        PolicyScope::Namespace(_) => 3,
        PolicyScope::Database(_) => 4,
        PolicyScope::Role(_) => 5,
        PolicyScope::User(_) => 6,
        PolicyScope::WorkloadType(_) => 7,
    }
}

fn optional_str_matches(name: &String, o: Option<&str>) -> (r: bool)
    ensures
        r == (str_option_view(o) == Some(name@)),
{
    match o {
        Some(x) => str_eq(name.as_str(), x),
        None => false,
    }
}

fn scope_matches(
    scope: &PolicyScope,
    namespace: &str,
    workload_type: WorkloadType,
    user: Option<&str>,
    role: Option<&str>,
) -> (r: bool)
    ensures
        r == scope_applies(scope@, resolve_request(namespace, workload_type, user, role)),
{
    match scope {
        PolicyScope::Global => true,
        PolicyScope::Namespace(n) => str_eq(n.as_str(), namespace),
        PolicyScope::WorkloadType(wt) => *wt == workload_type,
        PolicyScope::User(u) => optional_str_matches(u, user),
        PolicyScope::Role(r) => optional_str_matches(r, role),
        PolicyScope::Cluster(_) => false,
        PolicyScope::Node(_) => false,
        PolicyScope::Database(_) => false,
    }
}

impl PolicyManager {
    /// Builds a manager from named policy configurations; entries whose scope
    /// does not parse are skipped. The fallback is `default_name` when that
    /// policy exists, else `default`, which is created when missing.
    pub fn from_config(config: &StrMap<PolicyConfig>, default_name: &str) -> (m: Self)
        requires
            config.wf(),
        ensures
            m.wf(),
            m.default_name() == configured_default_name(config@, default_name@),
            m@ == configured_policies(config@, default_name@),
    {
        let mut policies: StrMap<Policy> = StrMap::new();
        let n = config.len();
        let ghost keys = config.key_seq();
        let ghost c = config@;
        proof {
            config.lemma_view();
            assert(policies@.map_values(|p: Policy| p@) =~= config_policy_prefix(keys, 0, c));
        }
        let mut i: usize = 0;
        while i < n
            invariant
                n == config.entry_seq().len(),
                keys == config.key_seq(),
                c == config@,
                config.wf(),
                keys.len() == n,
                keys.no_duplicates(),
                forall|j: int|
                    0 <= j < n ==> #[trigger] c.contains_key(keys[j]) && c[keys[j]]
                        == config.entry_seq()[j].1,
                i <= n,
                policies.wf(),
                policies@.map_values(|p: Policy| p@) == config_policy_prefix(keys, i as int, c),
            decreases n - i,
        {
            let name = config.key_at(i);
            let cfg = config.value_at(i);
            assert(keys[i as int] == name@);
            let ghost before = policies@.map_values(|p: Policy| p@);
            proof {
                let k = name@;
                assert(c.contains_key(keys[i as int]));
                assert(c[k] == *cfg);
                assert(keys.take(i + 1) =~= keys.take(i as int).push(k));
                assert(!keys.take(i as int).contains(k)) by {
                    if keys.take(i as int).contains(k) {
                        let j = choose|j: int| 0 <= j < i && keys.take(i as int)[j] == k;
                        assert(keys[j] == keys[i as int]);
                    }
                }
            }
            match Self::config_to_policy(name.as_str(), cfg) {
                Some(policy) => {
                    let ghost pv = policy@;
                    policies.insert(name.clone(), policy);
                    assert(policies@.map_values(|p: Policy| p@) =~= before.insert(name@, pv));
                    assert(config_policy(name@, c[name@]) == Some(pv));
                    assert forall|k2: Seq<char>|
                        #[trigger] keys.take(i + 1).contains(k2) <==> (keys.take(i as int).contains(
                            k2,
                        ) || k2 == name@) by {
                        if keys.take(i + 1).contains(k2) {
                            let j = choose|j: int| 0 <= j < i + 1 && #[trigger] keys.take(i + 1)[j] == k2;
                            if j < i {
                                assert(keys.take(i as int)[j] == k2);
                            }
                        }
                        if keys.take(i as int).contains(k2) {
                            let j = choose|j: int| 0 <= j < i && #[trigger] keys.take(i as int)[j] == k2;
                            assert(keys.take(i + 1)[j] == k2);
                        }
                        if k2 == name@ {
                            assert(keys.take(i + 1)[i as int] == k2);
                        }
                    }
                    assert(policies@.map_values(|p: Policy| p@) =~= config_policy_prefix(
                        keys,
                        i + 1,
                        c,
                    ));
                },
                None => {
                    assert forall|k2: Seq<char>|
                        #[trigger] keys.take(i + 1).contains(k2) <==> (keys.take(i as int).contains(
                            k2,
                        ) || k2 == name@) by {
                        if keys.take(i + 1).contains(k2) {
                            let j = choose|j: int| 0 <= j < i + 1 && #[trigger] keys.take(i + 1)[j] == k2;
                            if j < i {
                                assert(keys.take(i as int)[j] == k2);
                            }
                        }
                        if keys.take(i as int).contains(k2) {
                            let j = choose|j: int| 0 <= j < i && #[trigger] keys.take(i as int)[j] == k2;
                            assert(keys.take(i + 1)[j] == k2);
                        }
                        if k2 == name@ {
                            assert(keys.take(i + 1)[i as int] == k2);
                        }
                    }
                    assert(policies@.map_values(|p: Policy| p@) =~= config_policy_prefix(
                        keys,
                        i + 1,
                        c,
                    ));
                },
            }
            i = i + 1;
        }
        proof {
            assert(keys.take(n as int) =~= keys);
            assert forall|k: Seq<char>| c.contains_key(k) implies keys.contains(k) by {
                config.lemma_view();
                assert(config@.dom().contains(k));
                assert(keys.to_set().contains(k));
            }
            assert(config_policy_prefix(keys, n as int, c) =~= config_policy_map(c));
        }
        let wanted = owned(default_name);
        let default = if policies.contains_key(&wanted) {
            wanted
        } else {
            owned("default")
        };
        if !policies.contains_key(&default) {
            let p = global_default_policy(default.as_str());
            policies.insert(default.clone(), p);
        }
        let m = PolicyManager { policies, default_policy: default };
        proof {
            assert(m@ =~= configured_policies(c, default_name@));
        }
        m
    }

    /// The policy named `name`, if there is one.
    pub fn get_policy(&self, name: &str) -> (r: Option<&Policy>)
        requires
            self.wf(),
        ensures
            r is Some <==> self@.contains_key(name@),
            r matches Some(p) ==> p@ == self@[name@],
    {
        self.policies.get(&owned(name))
    }

    /// Merges two policies: names joined by `+`, global scope, the override's
    /// limits where it sets them, the override's action.
    fn merge_policies(base: &Policy, override_p: &Policy) -> (r: Policy)
        ensures
            r@ == merge_policy_views(base@, override_p@),
    {
        let mut name = base.name.clone();
        name.append("+");
        name.append(override_p.name.as_str());
        let b = &base.limits;
        let o = &override_p.limits;
        let r = Policy {
            name,
            scope: PolicyScope::Global,
            limits: ExecutionLimits {
                cpu: CpuLimits {
                    max_execution_steps: prefer_u64(
                        b.cpu.max_execution_steps,
                        o.cpu.max_execution_steps,
                    ),
                    max_cpu_time_ms: prefer_u64(b.cpu.max_cpu_time_ms, o.cpu.max_cpu_time_ms),
                },
                memory: MemoryLimits {
                    max_memory_mb: prefer_u64(b.memory.max_memory_mb, o.memory.max_memory_mb),
                },
                query_complexity: QueryComplexityLimits {
                    max_query_complexity: prefer_u32(
                        b.query_complexity.max_query_complexity,
                        o.query_complexity.max_query_complexity,
                    ),
                    max_join_count: prefer_u32(
                        b.query_complexity.max_join_count,
                        o.query_complexity.max_join_count,
                    ),
                    max_sort_rows: prefer_u64(
                        b.query_complexity.max_sort_rows,
                        o.query_complexity.max_sort_rows,
                    ),
                },
                pipeline: PipelineLimits {
                    max_pipeline_depth: prefer_u32(
                        b.pipeline.max_pipeline_depth,
                        o.pipeline.max_pipeline_depth,
                    ),
                    max_pipeline_stages: prefer_u32(
                        b.pipeline.max_pipeline_stages,
                        o.pipeline.max_pipeline_stages,
                    ),
                },
                ffi: FfiLimits {
                    max_ffi_calls: prefer_u64(b.ffi.max_ffi_calls, o.ffi.max_ffi_calls),
                    max_ffi_memory_mb: prefer_u64(b.ffi.max_ffi_memory_mb, o.ffi.max_ffi_memory_mb),
                    max_ffi_time_ms: prefer_u64(b.ffi.max_ffi_time_ms, o.ffi.max_ffi_time_ms),
                },
                aiml: AimlLimits {
                    max_training_iterations: prefer_u64(
                        b.aiml.max_training_iterations,
                        o.aiml.max_training_iterations,
                    ),
                    max_prediction_batch_size: prefer_u64(
                        b.aiml.max_prediction_batch_size,
                        o.aiml.max_prediction_batch_size,
                    ),
                    max_embedding_batch_size: prefer_u64(
                        b.aiml.max_embedding_batch_size,
                        o.aiml.max_embedding_batch_size,
                    ),
                },
                vector: VectorLimits {
                    max_vector_candidates: prefer_u64(
                        b.vector.max_vector_candidates,
                        o.vector.max_vector_candidates,
                    ),
                    max_vector_expansions: prefer_u64(
                        b.vector.max_vector_expansions,
                        o.vector.max_vector_expansions,
                    ),
                },
                graph: GraphLimits {
                    max_graph_depth: prefer_u32(b.graph.max_graph_depth, o.graph.max_graph_depth),
                    max_graph_nodes: prefer_u64(b.graph.max_graph_nodes, o.graph.max_graph_nodes),
                    max_graph_edges: prefer_u64(b.graph.max_graph_edges, o.graph.max_graph_edges),
                },
                migration: MigrationLimits {
                    max_import_rows: prefer_u64(
                        b.migration.max_import_rows,
                        o.migration.max_import_rows,
                    ),
                    max_import_batches: prefer_u64(
                        b.migration.max_import_batches,
                        o.migration.max_import_batches,
                    ),
                },
                backup: BackupLimits {
                    max_backup_size: prefer_u64(b.backup.max_backup_size, o.backup.max_backup_size),
                    max_restore_size: prefer_u64(
                        b.backup.max_restore_size,
                        o.backup.max_restore_size,
                    ),
                },
            },
            action: override_p.action,
        };
        assert(r.name@ =~= base.name@ + "+"@ + override_p.name@);
        r
    }

    /// Resolves the policy for a request: the applicable policies, least
    /// specific first, merged in that order; the fallback policy when none
    /// applies.
    pub fn resolve_policy(
        &self,
        namespace: &str,
        workload_type: WorkloadType,
        user: Option<&str>,
        role: Option<&str>,
    ) -> (r: Policy)
        requires
            self.wf(),
        ensures
            r@ == resolve_spec(
                self.policy_seq(),
                resolve_request(namespace, workload_type, user, role),
                self@[self.default_name()],
            ),
    {
        let ghost s = self.policy_seq();
        let ghost req = resolve_request(namespace, workload_type, user, role);
        let n = self.policies.len();
        let mut merged: Option<Policy> = None;
        let mut q: u8 = 0;
        while q < 8
            invariant
                s == self.policy_seq(),
                req == resolve_request(namespace, workload_type, user, role),
                n == s.len(),
                n == self.policies.entry_seq().len(),
                q <= 8,
                policy_option_view(merged) == merge_opt(candidates_below(s, q as nat, req)),
            decreases 8 - q,
        {
            let mut i: usize = 0;
            while i < n
                invariant
                    s == self.policy_seq(),
                    req == resolve_request(namespace, workload_type, user, role),
                    n == s.len(),
                    n == self.policies.entry_seq().len(),
                    q < 8,
                    i <= n,
                    policy_option_view(merged) == merge_opt(
                        candidates_below(s, q as nat, req) + rank_candidates(s, i as int, q as nat, req),
                    ),
                decreases n - i,
            {
                let p = self.policies.value_at(i);
                assert(s[i as int] == p@);
                let ghost before = candidates_below(s, q as nat, req) + rank_candidates(
                    s,
                    i as int,
                    q as nat,
                    req,
                );
                if scope_priority(&p.scope) == q && scope_matches(
                    &p.scope,
                    namespace,
                    workload_type,
                    user,
                    role,
                ) {
                    proof {
                        lemma_merge_opt_push(before, p@);
                        assert(candidates_below(s, q as nat, req) + rank_candidates(
                            s,
                            i + 1,
                            q as nat,
                            req,
                        ) =~= before.push(p@));
                    }
                    merged = match merged {
                        None => Some(p.clone()),
                        Some(m) => Some(Self::merge_policies(&m, p)),
                    };
                }
                i = i + 1;
            }
            q = q + 1;
        }
        match merged {
            Some(m) => m,
            None => match self.policies.get(&self.default_policy) {
                Some(d) => d.clone(),
                None => global_default_policy("default"),
            },
        }
    }

    /// All policies, in manager order.
    pub fn policies(&self) -> (r: Vec<&Policy>)
        ensures
            r@.map_values(|p: &Policy| p@) == self.policy_seq(),
    {
        let mut r: Vec<&Policy> = Vec::new();
        let n = self.policies.entry_count();
        let mut i: usize = 0;
        while i < n
            invariant
                n == self.policies.entry_seq().len(),
                i <= n,
                r@.map_values(|p: &Policy| p@) == self.policy_seq().take(i as int),
            decreases n - i,
        {
            r.push(self.policies.value_at(i));
            assert(self.policy_seq().take(i + 1) =~= self.policy_seq().take(i as int).push(
                self.policies.entry_seq()[i as int].1@,
            ));
            assert(r@.map_values(|p: &Policy| p@) =~= self.policy_seq().take(i + 1));
            i = i + 1;
        }
        assert(self.policy_seq().take(n as int) =~= self.policy_seq());
        r
    }

    /// The number of policies equals the number of names.
    pub proof fn lemma_policy_count(&self)
        requires
            self.wf(),
        ensures
            self.policy_seq().len() == self@.len(),
    {
        self.lemma_seq_view();
    }

    /// Copies of all policies, in manager order.
    pub fn list_policies(&self) -> (r: Vec<Policy>)
        ensures
            r@.map_values(|p: Policy| p@) == self.policy_seq(),
    {
        let mut r: Vec<Policy> = Vec::new();
        let n = self.policies.entry_count();
        let mut i: usize = 0;
        while i < n
            invariant
                n == self.policies.entry_seq().len(),
                i <= n,
                r@.map_values(|p: Policy| p@) == self.policy_seq().take(i as int),
            decreases n - i,
        {
            r.push(self.policies.value_at(i).clone());
            assert(self.policy_seq().take(i + 1) =~= self.policy_seq().take(i as int).push(
                self.policies.entry_seq()[i as int].1@,
            ));
            assert(r@.map_values(|p: Policy| p@) =~= self.policy_seq().take(i + 1));
            i = i + 1;
        }
        assert(self.policy_seq().take(n as int) =~= self.policy_seq());
        r
    }

    /// Adds a policy under its own name, replacing any policy of that name.
    pub fn add_policy(&mut self, policy: Policy)
        requires
            old(self).wf(),
        ensures
            final(self).wf(),
            final(self)@ == old(self)@.insert(policy.name@, policy@),
            final(self).default_name() == old(self).default_name(),
    {
        let ghost pv = policy@;
        let name = policy.name.clone();
        self.policies.insert(name, policy);
        assert(self@ =~= old(self)@.insert(pv.name, pv));
    }

    /// Removes the policy named `name`; the fallback policy cannot be removed.
    /// Returns whether a policy was removed.
    pub fn remove_policy(&mut self, name: &str) -> (removed: bool)
        requires
            old(self).wf(),
        ensures
            final(self).wf(),
            final(self).default_name() == old(self).default_name(),
            name@ == old(self).default_name() ==> !removed && final(self)@ == old(self)@,
            name@ != old(self).default_name() ==> removed == old(self)@.contains_key(name@)
                && final(self)@ == old(self)@.remove(name@),
    {
        if str_eq(name, self.default_policy.as_str()) {
            return false;
        }
        let r = self.policies.remove(&owned(name));
        assert(self@ =~= old(self)@.remove(name@));
        r.is_some()
    }
}

impl Default for PolicyManager {
    fn default() -> (m: Self)
        ensures
            m.wf(),
            m.default_name() == "default"@,
            m@ == map!["default"@ => builtin_default_policy()],
    {
        PolicyManager::new()
    }
}


// ── Laws of resolution ────────────────────────────────────────

/// A 32-bit limit taken as a 64-bit one.
pub open spec fn widen(o: Option<u32>) -> Option<u64> {
    match o {
        Some(x) => Some(x as u64),
        None => None,
    }
}

/// Limit field number `f` of a limit set, fields counted in declaration
/// order from 0 to 22.
pub open spec fn limit_value(l: ExecutionLimits, f: int) -> Option<u64> {
    if f == 0 { l.cpu.max_execution_steps }
    else if f == 1 { l.cpu.max_cpu_time_ms }
    else if f == 2 { l.memory.max_memory_mb }
    else if f == 3 { widen(l.query_complexity.max_query_complexity) }
    else if f == 4 { widen(l.query_complexity.max_join_count) }
    else if f == 5 { l.query_complexity.max_sort_rows }
    else if f == 6 { widen(l.pipeline.max_pipeline_depth) }
    else if f == 7 { widen(l.pipeline.max_pipeline_stages) }
    else if f == 8 { l.ffi.max_ffi_calls }
    else if f == 9 { l.ffi.max_ffi_memory_mb }
    else if f == 10 { l.ffi.max_ffi_time_ms }
    else if f == 11 { l.aiml.max_training_iterations }
    else if f == 12 { l.aiml.max_prediction_batch_size }
    else if f == 13 { l.aiml.max_embedding_batch_size }
    else if f == 14 { l.vector.max_vector_candidates }
    else if f == 15 { l.vector.max_vector_expansions }
    else if f == 16 { widen(l.graph.max_graph_depth) }
    else if f == 17 { l.graph.max_graph_nodes }
    else if f == 18 { l.graph.max_graph_edges }
    else if f == 19 { l.migration.max_import_rows }
    else if f == 20 { l.migration.max_import_batches }
    else if f == 21 { l.backup.max_backup_size }
    else { l.backup.max_restore_size }
}

/// The value of limit field `f` in the last policy of `c` that sets it.
pub open spec fn last_set(c: Seq<PolicyView>, f: int) -> Option<u64>
    decreases c.len(),
{
    if c.len() == 0 {
        None
    } else if limit_value(c.last().limits, f) is Some {
        limit_value(c.last().limits, f)
    } else {
        last_set(c.drop_last(), f)
    }
}

proof fn lemma_merge_limit_values(a: ExecutionLimits, b: ExecutionLimits, f: int)
    requires
        0 <= f < 23,
    ensures
        limit_value(merge_limits(a, b), f) == prefer(limit_value(a, f), limit_value(b, f)),
{
    let m = merge_limits(a, b);
    if f == 3 {
        assert(limit_value(m, f) == widen(prefer(a.query_complexity.max_query_complexity, b.query_complexity.max_query_complexity)));
    } else if f == 4 {
        assert(limit_value(m, f) == widen(prefer(a.query_complexity.max_join_count, b.query_complexity.max_join_count)));
    } else if f == 6 {
        assert(limit_value(m, f) == widen(prefer(a.pipeline.max_pipeline_depth, b.pipeline.max_pipeline_depth)));
    } else if f == 7 {
        assert(limit_value(m, f) == widen(prefer(a.pipeline.max_pipeline_stages, b.pipeline.max_pipeline_stages)));
    } else if f == 16 {
        assert(limit_value(m, f) == widen(prefer(a.graph.max_graph_depth, b.graph.max_graph_depth)));
    }
}

proof fn lemma_merge_all_fields(c: Seq<PolicyView>, f: int)
    requires
        c.len() > 0,
        0 <= f < 23,
    ensures
        limit_value(merge_all(c).limits, f) == last_set(c, f),
        merge_all(c).action == c.last().action,
    decreases c.len(),
{
    if c.len() == 1 {
        assert(c.drop_last().len() == 0);
    } else {
        lemma_merge_all_fields(c.drop_last(), f);
        lemma_merge_limit_values(merge_all(c.drop_last()).limits, c.last().limits, f);
    }
}

/// Most specific wins: when some policy applies to a request, each limit of
/// the resolved policy is the value set by the most specific applicable
/// policy that sets it (the latest in manager order among equally specific
/// ones), or absent when none sets it; the resolved action is that of the
/// most specific applicable policy.
pub proof fn lemma_most_specific_limit_wins(
    s: Seq<PolicyView>,
    req: ResolveRequest,
    fallback: PolicyView,
    f: int,
)
    requires
        resolution_candidates(s, req).len() > 0,
        0 <= f < 23,
    ensures
        limit_value(resolve_spec(s, req, fallback).limits, f) == last_set(
            resolution_candidates(s, req),
            f,
        ),
        resolve_spec(s, req, fallback).action == resolution_candidates(s, req).last().action,
{
    lemma_merge_all_fields(resolution_candidates(s, req), f);
}

/// A global policy applies to every request: with one global policy among
/// the policies, resolution never falls back.
pub proof fn lemma_global_policy_always_applies(s: Seq<PolicyView>, req: ResolveRequest, i: int)
    requires
        0 <= i < s.len(),
        s[i].scope == ScopeView::Global,
    ensures
        resolution_candidates(s, req).len() > 0,
{
    lemma_rank_candidates_contains(s, s.len() as int, 0, req, i);
    lemma_candidates_below_grows(s, 1, 8, req);
    assert(candidates_below(s, 1, req) == candidates_below(s, 0, req) + rank_candidates(
        s,
        s.len() as int,
        0,
        req,
    ));
}

proof fn lemma_rank_candidates_contains(s: Seq<PolicyView>, n: int, q: nat, req: ResolveRequest, i: int)
    requires
        0 <= i < n <= s.len(),
        selected(s[i], q, req),
    ensures
        rank_candidates(s, n, q, req).len() > 0,
    decreases n,
{
    if i < n - 1 {
        lemma_rank_candidates_contains(s, n - 1, q, req, i);
    }
}

proof fn lemma_candidates_below_grows(s: Seq<PolicyView>, a: nat, b: nat, req: ResolveRequest)
    requires
        a <= b,
    ensures
        candidates_below(s, a, req).len() <= candidates_below(s, b, req).len(),
    decreases b,
{
    if a < b {
        lemma_candidates_below_grows(s, a, (b - 1) as nat, req);
    }
}

proof fn lemma_single_default_candidates(req: ResolveRequest, q: nat)
    requires
        1 <= q <= 8,
    ensures
        candidates_below(seq![builtin_default_policy()], q, req) =~= seq![builtin_default_policy()],
    decreases q,
{
    let s = seq![builtin_default_policy()];
    assert(s.len() == 1);
    assert(rank_candidates(s, 0, (q - 1) as nat, req).len() == 0);
    if q == 1 {
        assert(selected(s[0], 0, req));
        assert(candidates_below(s, 0, req).len() == 0);
        assert(rank_candidates(s, 1, 0, req) =~= seq![builtin_default_policy()]);
    } else {
        lemma_single_default_candidates(req, (q - 1) as nat);
        assert(rank_candidates(s, 1, (q - 1) as nat, req).len() == 0);
    }
}

/// A fresh manager resolves every request to the built-in `default`
/// policy.
pub proof fn lemma_fresh_manager_resolves_default(req: ResolveRequest)
    ensures
        resolve_spec(seq![builtin_default_policy()], req, builtin_default_policy())
            == builtin_default_policy(),
{
    lemma_single_default_candidates(req, 8);
}

/// Every enforcement action's name reads back, in a configuration, as that
/// action.
pub proof fn lemma_action_names_parse_back(a: EnforcementAction)
    ensures
        config_action(Some(action_name(a))) == a,
{
    reveal_strlit("monitor");
    reveal_strlit("warn");
    reveal_strlit("throttle");
    reveal_strlit("block");
    assert("monitor"@.len() == 7 && "warn"@.len() == 4 && "throttle"@.len() == 8 && "block"@.len() == 5);
}

/// The names of workload types are distinct, and each of those a scope
/// may name reads back, as a scope, as that workload type.
pub proof fn lemma_workload_names_parse_back(w: WorkloadType, v: WorkloadType)
    ensures
        workload_name(w) == workload_name(v) ==> w == v,
        parseable_workload(w) ==> parse_scope_spec(workload_name(w)) == Some(ScopeView::WorkloadType(w)),
{
    reveal_strlit("sql");
    reveal_strlit("vector_search");
    reveal_strlit("ai_ml");
    reveal_strlit("graph_traversal");
    reveal_strlit("cdc_pipeline");
    reveal_strlit("backup");
    reveal_strlit("restore");
    reveal_strlit("migration");
    reveal_strlit("cluster_operation");
    reveal_strlit("protocol_processing");
    reveal_strlit("udf");
    reveal_strlit("stored_procedure");
    reveal_strlit("plugin");
    reveal_strlit("ffi");
    reveal_strlit("global");
    reveal_strlit("cluster");
    reveal_strlit("node");
    reveal_strlit("namespace");
    reveal_strlit("database");
    reveal_strlit("role");
    reveal_strlit("user");
    lemma_workload_name_facts(w);
    if workload_name(w) == workload_name(v) && w != v {
        assert(workload_name(w).len() == workload_name(v).len());
        assert(workload_name(w)[0] == workload_name(v)[0]);
        assert(workload_name(w)[1] == workload_name(v)[1]);
    }
    if parseable_workload(w) {
        lemma_no_colon_head(workload_name(w));
        assert(workload_name(w).len() > 0);
        assert("global"@.len() == 6 && "global"@[0] == 'g');
        assert("cluster"@.len() == 7 && "cluster"@[0] == 'c');
        assert("node"@.len() == 4 && "node"@[0] == 'n');
        assert("namespace"@.len() == 9 && "namespace"@[0] == 'n');
        assert("database"@.len() == 8 && "database"@[0] == 'd');
        assert("role"@.len() == 4 && "role"@[0] == 'r');
        assert("user"@.len() == 4 && "user"@[0] == 'u');
        assert("sql"@.len() == 3 && "sql"@[0] == 's');
        assert("vector_search"@.len() == 13 && "vector_search"@[0] == 'v');
        assert("ai_ml"@.len() == 5 && "ai_ml"@[0] == 'a');
        assert("graph_traversal"@.len() == 15 && "graph_traversal"@[0] == 'g');
        assert("cdc_pipeline"@.len() == 12 && "cdc_pipeline"@[0] == 'c');
        assert("backup"@.len() == 6 && "backup"@[0] == 'b');
        assert("restore"@.len() == 7 && "restore"@[0] == 'r');
        assert("migration"@.len() == 9 && "migration"@[0] == 'm');
        assert("ffi"@.len() == 3 && "ffi"@[0] == 'f');
    }
}

/// The workload types a scope string may name.
pub open spec fn parseable_workload(w: WorkloadType) -> bool {
    match w {
        WorkloadType::Sql | WorkloadType::VectorSearch | WorkloadType::AIML | WorkloadType::GraphTraversal
        | WorkloadType::CdcPipeline | WorkloadType::Backup | WorkloadType::Restore | WorkloadType::Migration
        | WorkloadType::Ffi => true,
        _ => false,
    }
}

proof fn lemma_workload_name_facts(w: WorkloadType)
    ensures
        forall|i: int| 0 <= i < workload_name(w).len() ==> workload_name(w)[i] != ':',
        workload_name(w).len() >= 3,
{
    reveal_strlit("sql");
    reveal_strlit("vector_search");
    reveal_strlit("ai_ml");
    reveal_strlit("graph_traversal");
    reveal_strlit("cdc_pipeline");
    reveal_strlit("backup");
    reveal_strlit("restore");
    reveal_strlit("migration");
    reveal_strlit("cluster_operation");
    reveal_strlit("protocol_processing");
    reveal_strlit("udf");
    reveal_strlit("stored_procedure");
    reveal_strlit("plugin");
    reveal_strlit("ffi");
    reveal_strlit("global");
    reveal_strlit("cluster");
    reveal_strlit("node");
    reveal_strlit("namespace");
    reveal_strlit("database");
    reveal_strlit("role");
    reveal_strlit("user");
}

/// A string with no `:` is its own head and has no tail.
proof fn lemma_no_colon_head(s: Seq<char>)
    requires
        forall|i: int| 0 <= i < s.len() ==> s[i] != ':',
    ensures
        scope_head(s) == s,
        scope_tail(s) is None,
{
    assert(first_index_of(s, ':') is None);
}


/// The text a scope is written as in a configuration: `global`, a
/// workload type's name, or its category and target joined by `:`.
pub open spec fn scope_text(s: ScopeView) -> Seq<char> {
    match s {
        ScopeView::Global => "global"@,
        ScopeView::WorkloadType(w) => workload_name(w),
        _ => scope_category(s) + ":"@ + scope_target(s),
    }
}

/// Every scope, written out from its category and target, reads back as
/// that scope (a workload scope when a scope may name its workload type).
pub proof fn lemma_scope_names_parse_back(s: ScopeView)
    requires
        s matches ScopeView::WorkloadType(w) ==> parseable_workload(w),
    ensures
        parse_scope_spec(scope_text(s)) == Some(s),
{
    reveal_strlit(":");
    match s {
        ScopeView::Global => {
            reveal_strlit("global");
            lemma_no_colon_head("global"@);
        },
        ScopeView::WorkloadType(w) => {
            lemma_workload_names_parse_back(w, w);
        },
        _ => {
            let cat = scope_category(s);
            let t = scope_text(s);
            reveal_strlit("cluster");
            reveal_strlit("node");
            reveal_strlit("namespace");
            reveal_strlit("database");
            reveal_strlit("role");
            reveal_strlit("user");
            reveal_strlit("global");
            assert(forall|i: int| 0 <= i < cat.len() ==> cat[i] != ':');
            assert(t[cat.len() as int] == ':');
            assert(first_index_of(t, ':') == Some(cat.len() as int)) by {
                let c = choose|i: int| 0 <= i < t.len() && t[i] == ':' && forall|j: int| 0 <= j < i ==> t[j] != ':';
                assert(forall|j: int| 0 <= j < cat.len() ==> t[j] == cat[j]);
                if c < cat.len() {
                    assert(t[c] == cat[c]);
                }
                if c > cat.len() {
                    assert(t[cat.len() as int] != ':');
                }
            }
            assert(t.take(cat.len() as int) =~= cat);
            assert(t.skip(cat.len() + 1int) =~= scope_target(s));
            assert("cluster"@.len() == 7 && "cluster"@[0] == 'c');
            assert("node"@.len() == 4 && "node"@[0] == 'n');
            assert("namespace"@.len() == 9 && "namespace"@[0] == 'n');
            assert("database"@.len() == 8);
            assert("role"@.len() == 4 && "role"@[0] == 'r');
            assert("user"@.len() == 4 && "user"@[0] == 'u');
            assert("global"@.len() == 6);
        },
    }
}

/// The candidates of rank `q` among the first `n` policies are those of
/// rank `q` that apply to the request.
proof fn lemma_rank_candidates_members(s: Seq<PolicyView>, n: int, q: nat, req: ResolveRequest, x: PolicyView)
    requires
        n <= s.len(),
    ensures
        rank_candidates(s, n, q, req).contains(x) <==> (exists|j: int| 0 <= j < n && s[j] == x) && selected(x, q, req),
        forall|a: int| 0 <= a < rank_candidates(s, n, q, req).len() ==> scope_rank(#[trigger] rank_candidates(s, n, q, req)[a].scope) == q,
    decreases n,
{
    if n > 0 {
        lemma_rank_candidates_members(s, n - 1, q, req, x);
        let r = rank_candidates(s, n - 1, q, req);
        if selected(s[n - 1], q, req) {
            let rp = r.push(s[n - 1]);
            assert(rank_candidates(s, n, q, req) == rp);
            assert forall|a: int| 0 <= a < rp.len() implies scope_rank((#[trigger] rp[a]).scope) == q by {
                if a < r.len() {
                    assert(rp[a] == r[a]);
                }
            }
            if rp.contains(x) {
                let a = choose|a: int| 0 <= a < rp.len() && #[trigger] rp[a] == x;
                if a < r.len() {
                    assert(r[a] == x);
                    assert(r.contains(x));
                } else {
                    assert(s[n - 1] == x);
                }
            }
            if (exists|j: int| 0 <= j < n && s[j] == x) && selected(x, q, req) {
                let j = choose|j: int| 0 <= j < n && s[j] == x;
                if j == n - 1 {
                    assert(rp[r.len() as int] == x);
                } else {
                    assert(r.contains(x));
                    let a = choose|a: int| 0 <= a < r.len() && #[trigger] r[a] == x;
                    assert(rp[a] == x);
                }
            }
        } else {
            if (exists|j: int| 0 <= j < n && s[j] == x) && selected(x, q, req) {
                let j = choose|j: int| 0 <= j < n && s[j] == x;
                assert(j != n - 1);
            }
        }
    } else {
        assert(rank_candidates(s, n, q, req) =~= Seq::<PolicyView>::empty());
    }
}

/// The candidates of rank below `q` are the applicable policies of rank
/// below `q`, in nondecreasing rank.
proof fn lemma_candidates_below_facts(s: Seq<PolicyView>, q: nat, req: ResolveRequest)
    ensures
        forall|x: PolicyView|
            #[trigger] candidates_below(s, q, req).contains(x) <==> s.contains(x) && scope_rank(x.scope) < q
                && scope_applies(x.scope, req),
        forall|a: int, b: int|
            0 <= a < b < candidates_below(s, q, req).len() ==> scope_rank(
                (#[trigger] candidates_below(s, q, req)[a]).scope,
            ) <= scope_rank((#[trigger] candidates_below(s, q, req)[b]).scope),
        forall|a: int| 0 <= a < candidates_below(s, q, req).len() ==> scope_rank((#[trigger] candidates_below(s, q, req)[a]).scope) < q,
    decreases q,
{
    if q > 0 {
        let q1 = (q - 1) as nat;
        lemma_candidates_below_facts(s, q1, req);
        let c = candidates_below(s, q1, req);
        let r = rank_candidates(s, s.len() as int, q1, req);
        let cr = c + r;
        assert(candidates_below(s, q, req) == cr);
        assert forall|x: PolicyView| #[trigger] cr.contains(x) <==> s.contains(x) && scope_rank(x.scope) < q && scope_applies(
            x.scope,
            req,
        ) by {
            lemma_rank_candidates_members(s, s.len() as int, q1, req, x);
            if cr.contains(x) {
                let a = choose|a: int| 0 <= a < cr.len() && #[trigger] cr[a] == x;
                if a < c.len() {
                    assert(c[a] == x);
                    assert(c.contains(x));
                } else {
                    assert(r[a - c.len()] == x);
                    assert(r.contains(x));
                }
            }
            if s.contains(x) && scope_rank(x.scope) < q && scope_applies(x.scope, req) {
                let j = choose|j: int| 0 <= j < s.len() && s[j] == x;
                if scope_rank(x.scope) < q1 {
                    assert(c.contains(x));
                    let a = choose|a: int| 0 <= a < c.len() && #[trigger] c[a] == x;
                    assert(cr[a] == x);
                } else {
                    assert(r.contains(x));
                    let a = choose|a: int| 0 <= a < r.len() && #[trigger] r[a] == x;
                    assert(cr[c.len() + a] == x);
                }
            }
        }
        lemma_rank_candidates_members(s, s.len() as int, q1, req, s[0]);
        assert forall|a: int| 0 <= a < cr.len() implies scope_rank((#[trigger] cr[a]).scope) < q by {
            if a >= c.len() {
                assert(cr[a] == r[a - c.len()]);
            }
        }
        assert forall|a: int, b: int| 0 <= a < b < cr.len() implies scope_rank((#[trigger] cr[a]).scope) <= scope_rank(
            (#[trigger] cr[b]).scope,
        ) by {
            if b < c.len() {
                assert(cr[a] == c[a] && cr[b] == c[b]);
            } else if a < c.len() {
                assert(cr[a] == c[a] && cr[b] == r[b - c.len()]);
            } else {
                assert(cr[a] == r[a - c.len()] && cr[b] == r[b - c.len()]);
            }
        }
    } else {
        assert(candidates_below(s, q, req) =~= Seq::<PolicyView>::empty());
    }
}

/// Which policies a request draws on: a global policy always; one scoped
/// to a namespace or a workload type when the request's is the same; one
/// scoped to user `u` exactly when the request names user `u`, and one
/// scoped to role `r` exactly when it names role `r`, whatever else it
/// names; a cluster, node or database scope never. They are merged least
/// specific first: global, then namespace, role, user, and workload-type
/// policies last.
pub proof fn lemma_candidates_by_scope(
    s: Seq<PolicyView>,
    namespace: &str,
    workload_type: WorkloadType,
    user: Option<&str>,
    role: Option<&str>,
)
    ensures
        ({
            let c = resolution_candidates(s, resolve_request(namespace, workload_type, user, role));
            &&& forall|i: int|
                #![trigger s[i]]
                0 <= i < s.len() ==> match s[i].scope {
                    ScopeView::Global => c.contains(s[i]),
                    ScopeView::Namespace(n) => c.contains(s[i]) <==> n == namespace@,
                    ScopeView::WorkloadType(w) => c.contains(s[i]) <==> w == workload_type,
                    ScopeView::User(u) => c.contains(s[i]) <==> (user is Some && user->0@ == u),
                    ScopeView::Role(r) => c.contains(s[i]) <==> (role is Some && role->0@ == r),
                    _ => !c.contains(s[i]),
                }
            &&& forall|x: PolicyView| #[trigger] c.contains(x) ==> s.contains(x)
            &&& forall|a: int, b: int|
                0 <= a < b < c.len() ==> {
                    &&& (#[trigger] c[a]).scope is WorkloadType ==> (#[trigger] c[b]).scope is WorkloadType
                    &&& c[a].scope is User ==> (c[b].scope is User || c[b].scope is WorkloadType)
                    &&& c[a].scope is Role ==> (c[b].scope is Role || c[b].scope is User || c[b].scope is WorkloadType)
                    &&& c[a].scope is Namespace ==> !(c[b].scope is Global)
                }
        }),
{
    let req = resolve_request(namespace, workload_type, user, role);
    lemma_candidates_below_facts(s, 8, req);
    let c = resolution_candidates(s, req);
    assert forall|i: int| #![trigger s[i]] 0 <= i < s.len() implies match s[i].scope {
        ScopeView::Global => c.contains(s[i]),
        ScopeView::Namespace(n) => c.contains(s[i]) <==> n == namespace@,
        ScopeView::WorkloadType(w) => c.contains(s[i]) <==> w == workload_type,
        ScopeView::User(u) => c.contains(s[i]) <==> (user is Some && user->0@ == u),
        ScopeView::Role(r) => c.contains(s[i]) <==> (role is Some && role->0@ == r),
        _ => !c.contains(s[i]),
    } by {
        assert(s.contains(s[i]));
        assert(c.contains(s[i]) <==> scope_rank(s[i].scope) < 8 && scope_applies(s[i].scope, req));
    }
}

/// How two policies merge: the names joined by `+`, the override's action,
/// a global scope, and for every limit the override's value where it sets
/// one, else the base's.
pub proof fn lemma_merge_rule(b: PolicyView, o: PolicyView)
    ensures
        ({
            let m = merge_policy_views(b, o);
            &&& m.name == b.name + "+"@ + o.name
            &&& m.action == o.action
            &&& m.scope == ScopeView::Global
        }),
        merge_policy_views(b, o).limits.cpu.max_execution_steps == (if o.limits.cpu.max_execution_steps is Some { o.limits.cpu.max_execution_steps } else { b.limits.cpu.max_execution_steps }),
        merge_policy_views(b, o).limits.cpu.max_cpu_time_ms == (if o.limits.cpu.max_cpu_time_ms is Some { o.limits.cpu.max_cpu_time_ms } else { b.limits.cpu.max_cpu_time_ms }),
        merge_policy_views(b, o).limits.memory.max_memory_mb == (if o.limits.memory.max_memory_mb is Some { o.limits.memory.max_memory_mb } else { b.limits.memory.max_memory_mb }),
        merge_policy_views(b, o).limits.query_complexity.max_query_complexity == (if o.limits.query_complexity.max_query_complexity is Some { o.limits.query_complexity.max_query_complexity } else { b.limits.query_complexity.max_query_complexity }),
        merge_policy_views(b, o).limits.query_complexity.max_join_count == (if o.limits.query_complexity.max_join_count is Some { o.limits.query_complexity.max_join_count } else { b.limits.query_complexity.max_join_count }),
        merge_policy_views(b, o).limits.query_complexity.max_sort_rows == (if o.limits.query_complexity.max_sort_rows is Some { o.limits.query_complexity.max_sort_rows } else { b.limits.query_complexity.max_sort_rows }),
        merge_policy_views(b, o).limits.pipeline.max_pipeline_depth == (if o.limits.pipeline.max_pipeline_depth is Some { o.limits.pipeline.max_pipeline_depth } else { b.limits.pipeline.max_pipeline_depth }),
        merge_policy_views(b, o).limits.pipeline.max_pipeline_stages == (if o.limits.pipeline.max_pipeline_stages is Some { o.limits.pipeline.max_pipeline_stages } else { b.limits.pipeline.max_pipeline_stages }),
        merge_policy_views(b, o).limits.ffi.max_ffi_calls == (if o.limits.ffi.max_ffi_calls is Some { o.limits.ffi.max_ffi_calls } else { b.limits.ffi.max_ffi_calls }),
        merge_policy_views(b, o).limits.ffi.max_ffi_memory_mb == (if o.limits.ffi.max_ffi_memory_mb is Some { o.limits.ffi.max_ffi_memory_mb } else { b.limits.ffi.max_ffi_memory_mb }),
        merge_policy_views(b, o).limits.ffi.max_ffi_time_ms == (if o.limits.ffi.max_ffi_time_ms is Some { o.limits.ffi.max_ffi_time_ms } else { b.limits.ffi.max_ffi_time_ms }),
        merge_policy_views(b, o).limits.aiml.max_training_iterations == (if o.limits.aiml.max_training_iterations is Some { o.limits.aiml.max_training_iterations } else { b.limits.aiml.max_training_iterations }),
        merge_policy_views(b, o).limits.aiml.max_prediction_batch_size == (if o.limits.aiml.max_prediction_batch_size is Some { o.limits.aiml.max_prediction_batch_size } else { b.limits.aiml.max_prediction_batch_size }),
        merge_policy_views(b, o).limits.aiml.max_embedding_batch_size == (if o.limits.aiml.max_embedding_batch_size is Some { o.limits.aiml.max_embedding_batch_size } else { b.limits.aiml.max_embedding_batch_size }),
        merge_policy_views(b, o).limits.vector.max_vector_candidates == (if o.limits.vector.max_vector_candidates is Some { o.limits.vector.max_vector_candidates } else { b.limits.vector.max_vector_candidates }),
        merge_policy_views(b, o).limits.vector.max_vector_expansions == (if o.limits.vector.max_vector_expansions is Some { o.limits.vector.max_vector_expansions } else { b.limits.vector.max_vector_expansions }),
        merge_policy_views(b, o).limits.graph.max_graph_depth == (if o.limits.graph.max_graph_depth is Some { o.limits.graph.max_graph_depth } else { b.limits.graph.max_graph_depth }),
        merge_policy_views(b, o).limits.graph.max_graph_nodes == (if o.limits.graph.max_graph_nodes is Some { o.limits.graph.max_graph_nodes } else { b.limits.graph.max_graph_nodes }),
        merge_policy_views(b, o).limits.graph.max_graph_edges == (if o.limits.graph.max_graph_edges is Some { o.limits.graph.max_graph_edges } else { b.limits.graph.max_graph_edges }),
        merge_policy_views(b, o).limits.migration.max_import_rows == (if o.limits.migration.max_import_rows is Some { o.limits.migration.max_import_rows } else { b.limits.migration.max_import_rows }),
        merge_policy_views(b, o).limits.migration.max_import_batches == (if o.limits.migration.max_import_batches is Some { o.limits.migration.max_import_batches } else { b.limits.migration.max_import_batches }),
        merge_policy_views(b, o).limits.backup.max_backup_size == (if o.limits.backup.max_backup_size is Some { o.limits.backup.max_backup_size } else { b.limits.backup.max_backup_size }),
        merge_policy_views(b, o).limits.backup.max_restore_size == (if o.limits.backup.max_restore_size is Some { o.limits.backup.max_restore_size } else { b.limits.backup.max_restore_size }),
{
}

/// Candidates merge from first to last: one policy alone is itself, and
/// each further policy overrides the merge of those before it. With none
/// the fallback policy is the result.
pub proof fn lemma_merge_order(s: Seq<PolicyView>, req: ResolveRequest, fallback: PolicyView, c: Seq<PolicyView>, x: PolicyView)
    ensures
        merge_all(seq![x]) == x,
        c.len() > 0 ==> merge_all(c.push(x)) == merge_policy_views(merge_all(c), x),
        resolution_candidates(s, req).len() == 0 ==> resolve_spec(s, req, fallback) == fallback,
        resolution_candidates(s, req).len() > 0 ==> resolve_spec(s, req, fallback) == merge_all(resolution_candidates(s, req)),
{
    assert(c.push(x).drop_last() =~= c);
}

} // verus!
