//! The governor engine: tracks running executions, checks their usage
//! against the limits of the policy resolved for them, counts and logs
//! violations.
//!
//! The engine is plain state; callers that share it between tasks wrap it
//! in a lock. Enforcement: when the governor is disabled, or a limit is not
//! set, or usage is below the limit, a check answers `Monitor`. Otherwise
//! the execution's action applies (`Block` for an unknown execution), a
//! violation is logged and counted, and `Block` answers with an error.

use vstd::prelude::*;
use vstd::string::StringExecFns;
use crate::format::{decimal, decimal_string};
use crate::text::{first_index_of, owned};
use super::policy::{
    config_action, config_policy_map, scope_head, string_option_view,
    configured_default_name, configured_policies, limit_value, parse_scope_spec,
    resolve_request, resolve_spec, str_option_view, PolicyManager, ResolveRequest,
};
use super::{
    default_limits, zero_usage, EnforcementAction, ExecutionContext, ExecutionLimits, GovernorConfig,
    GovernorMetricsSnapshot, GovernorStatus, Policy, PolicyScope, PolicyView, ScopeView, Violation,
    WorkloadType,
};

verus! {

/// The violation log is trimmed once it holds more entries than this.
pub const VIOLATION_LOG_CAP: usize = 10_000;

/// How many of the most recent violations a trim keeps.
pub const VIOLATION_LOG_KEEP: usize = 5_000;

/// The context of execution `id`, if one is tracked.
pub open spec fn find_context(s: Seq<ExecutionContext>, id: u128) -> Option<ExecutionContext> {
    if exists|i: int| 0 <= i < s.len() && s[i].execution_id == id {
        Some(s[choose|i: int| 0 <= i < s.len() && s[i].execution_id == id])
    } else {
        None
    }
}

/// No two tracked executions share an id.
pub open spec fn ids_distinct(s: Seq<ExecutionContext>) -> bool {
    forall|i: int, j: int|
        0 <= i < s.len() && 0 <= j < s.len() && i != j ==> #[trigger] s[i].execution_id
            != #[trigger] s[j].execution_id
}

/// The violation log after recording `v`: appended, then cut down to the
/// most recent entries when it grew past the cap.
pub open spec fn log_append(s: Seq<Violation>, v: Violation) -> Seq<Violation> {
    let t = s.push(v);
    if t.len() > VIOLATION_LOG_CAP {
        t.skip(t.len() - VIOLATION_LOG_KEEP)
    } else {
        t
    }
}

/// Whether `current` reaches a set limit.
pub open spec fn exceeded(current: u64, limit: Option<u64>) -> bool {
    limit matches Some(l) && current >= l
}

/// The action taken on a breach: the execution's, or `Block` when the
/// execution is unknown.
pub open spec fn breach_action(ctx: Option<ExecutionContext>) -> EnforcementAction {
    match ctx {
        Some(c) => c.action,
        None => EnforcementAction::Block,
    }
}

/// The error a blocked check answers with.
pub open spec fn blocked_message(field: Seq<char>, limit: u64, current: u64) -> Seq<char> {
    "Resource limit exceeded: "@ + field + " (limit: "@ + decimal(limit as nat) + ", usage: "@
        + decimal(current as nat) + "). Action: blocked"@
}

/// Whether a check answered with the error of a failed id.
pub open spec fn is_id_failure(r: Result<EnforcementAction, String>) -> bool {
    match r {
        Err(m) => m@ == crate::clock::id_failure_message(),
        Ok(_) => false,
    }
}

/// A refusal for a breached limit is never the error of a failed id.
pub proof fn lemma_blocked_is_not_id_failure(field: Seq<char>, limit: u64, current: u64)
    ensures
        blocked_message(field, limit, current) != crate::clock::id_failure_message(),
{
    reveal_strlit("Resource limit exceeded: ");
    reveal_strlit("Failed to generate identifier: ");
    let b = blocked_message(field, limit, current);
    assert(b[0] == 'R');
    assert(crate::clock::id_failure_message()[0] == 'F');
}

/// Whether `v` records a breach of limit `field` by execution `id`.
pub open spec fn records_breach(
    v: Violation,
    id: u128,
    ctx: Option<ExecutionContext>,
    field: Seq<char>,
    limit: u64,
    current: u64,
) -> bool {
    &&& v.execution_id == id
    &&& v.namespace@ == match ctx {
        Some(c) => c.namespace@,
        None => Seq::<char>::empty(),
    }
    &&& v.workload_type == match ctx {
        Some(c) => c.workload_type,
        None => WorkloadType::Sql,
    }
    &&& v.policy_name@ == "resolved"@
    &&& v.limit_name@ == field
    &&& v.limit_value@ == decimal(limit as nat)
    &&& v.usage_value@ == decimal(current as nat)
    &&& v.action == breach_action(ctx)
}

/// The limit of field `f` (numbered as in `limit_value`) for execution
/// `id`; absent for an unknown execution.
pub open spec fn context_limit(s: Seq<ExecutionContext>, id: u128, f: int) -> Option<u64> {
    match find_context(s, id) {
        Some(c) => limit_value(c.limits, f),
        None => None,
    }
}

/// An execution in progress: its id and the enforcement action resolved
/// for it. Checks and `finish` go through the engine that started it.
pub struct ExecutionHandle {
    execution_id: u128,
    action: EnforcementAction,
}

impl ExecutionHandle {
    /// The id of the execution this handle stands for.
    pub closed spec fn execution_id_of(&self) -> u128 {
        self.execution_id
    }

    /// The enforcement action resolved for the execution.
    pub closed spec fn action_of(&self) -> EnforcementAction {
        self.action
    }
}

/// The governor's state.
pub struct GovernorEngine {
    policies: PolicyManager,
    executions: Vec<ExecutionContext>,
    violations: Vec<Violation>,
    config: GovernorConfig,
    start_time_ms: i64,
    active_executions: usize,
    total_blocked: u64,
    total_throttled: u64,
    total_violations: u64,
}

/// What a limit check leaves behind: on a breach with the governor enabled
/// the violation is logged and counted and `Block` answers with an error,
/// unless no id could be made for the violation, which is answered with
/// that error and logs nothing; otherwise the answer is `Monitor` and
/// nothing changes.
pub open spec fn limit_checked(
    old: GovernorEngine,
    new: GovernorEngine,
    id: u128,
    field: Seq<char>,
    current: u64,
    limit: Option<u64>,
    r: Result<EnforcementAction, String>,
) -> bool {
    let ctx = find_context(old.executions_seq(), id);
    let action = breach_action(ctx);
    &&& new.wf()
    &&& new.policy_manager() == old.policy_manager()
    &&& new.executions_seq() == old.executions_seq()
    &&& new.enabled() == old.enabled()
    &&& new.start_ms() == old.start_ms()
    &&& new.active_count() == old.active_count()
    &&& if old.enabled() && exceeded(current, limit) && is_id_failure(r) {
        &&& new.violations_seq() == old.violations_seq()
        &&& new.blocked_count() == old.blocked_count()
        &&& new.throttled_count() == old.throttled_count()
        &&& new.violation_count() == old.violation_count()
    } else if old.enabled() && exceeded(current, limit) {
        &&& new.violations_seq().len() > 0
        &&& new.violations_seq() == log_append(old.violations_seq(), new.violations_seq().last())
        &&& records_breach(new.violations_seq().last(), id, ctx, field, limit->0, current)
        &&& new.blocked_count() == if action == EnforcementAction::Block {
            old.blocked_count().wrapping_add(1)
        } else {
            old.blocked_count()
        }
        &&& new.throttled_count() == if action == EnforcementAction::Throttle {
            old.throttled_count().wrapping_add(1)
        } else {
            old.throttled_count()
        }
        &&& new.violation_count() == old.violation_count().wrapping_add(1)
        &&& if action == EnforcementAction::Block {
            r matches Err(m) && m@ == blocked_message(field, limit->0, current)
        } else {
            r == Ok::<EnforcementAction, String>(action)
        }
    } else {
        &&& r == Ok::<EnforcementAction, String>(EnforcementAction::Monitor)
        &&& new.violations_seq() == old.violations_seq()
        &&& new.blocked_count() == old.blocked_count()
        &&& new.throttled_count() == old.throttled_count()
        &&& new.violation_count() == old.violation_count()
    }
}

/// The limit of field `f` read from a limit set.
fn limit_field(l: &ExecutionLimits, f: usize) -> (r: Option<u64>)
    requires
        f < 23,
    ensures
        r == limit_value(*l, f as int),
{
    let w = |o: Option<u32>| -> (r: Option<u64>)
        ensures
            r == super::policy::widen(o),
        {
            match o {
                Some(x) => Some(x as u64),
                None => None,
            }
        };
    if f == 0 {
        l.cpu.max_execution_steps
    } else if f == 1 {
        l.cpu.max_cpu_time_ms
    } else if f == 2 {
        l.memory.max_memory_mb
    } else if f == 3 {
        w(l.query_complexity.max_query_complexity)
    } else if f == 4 {
        w(l.query_complexity.max_join_count)
    } else if f == 5 {
        l.query_complexity.max_sort_rows
    } else if f == 6 {
        w(l.pipeline.max_pipeline_depth)
    } else if f == 7 {
        w(l.pipeline.max_pipeline_stages)
    } else if f == 8 {
        l.ffi.max_ffi_calls
    } else if f == 9 {
        l.ffi.max_ffi_memory_mb
    } else if f == 10 {
        l.ffi.max_ffi_time_ms
    } else if f == 11 {
        l.aiml.max_training_iterations
    } else if f == 12 {
        l.aiml.max_prediction_batch_size
    } else if f == 13 {
        l.aiml.max_embedding_batch_size
    } else if f == 14 {
        l.vector.max_vector_candidates
    } else if f == 15 {
        l.vector.max_vector_expansions
    } else if f == 16 {
        w(l.graph.max_graph_depth)
    } else if f == 17 {
        l.graph.max_graph_nodes
    } else if f == 18 {
        l.graph.max_graph_edges
    } else if f == 19 {
        l.migration.max_import_rows
    } else if f == 20 {
        l.migration.max_import_batches
    } else if f == 21 {
        l.backup.max_backup_size
    } else {
        l.backup.max_restore_size
    }
}

impl GovernorEngine {
    pub closed spec fn policy_manager(&self) -> PolicyManager {
        self.policies
    }

    pub closed spec fn executions_seq(&self) -> Seq<ExecutionContext> {
        self.executions@
    }

    pub closed spec fn violations_seq(&self) -> Seq<Violation> {
        self.violations@
    }

    pub closed spec fn enabled(&self) -> bool {
        self.config.enabled
    }

    pub closed spec fn start_ms(&self) -> i64 {
        self.start_time_ms
    }

    pub closed spec fn active_count(&self) -> usize {
        self.active_executions
    }

    pub closed spec fn blocked_count(&self) -> u64 {
        self.total_blocked
    }

    pub closed spec fn throttled_count(&self) -> u64 {
        self.total_throttled
    }

    pub closed spec fn violation_count(&self) -> u64 {
        self.total_violations
    }

    /// Policies are well formed, execution ids are distinct, and the
    /// violation log stays within its cap.
    pub closed spec fn wf(&self) -> bool {
        &&& self.policies.wf()
        &&& ids_distinct(self.executions@)
        &&& self.violations@.len() <= VIOLATION_LOG_CAP
    }

    /// An engine configured by `config`, started at `now_ms`.
    pub fn new_at(config: GovernorConfig, now_ms: i64) -> (e: Self)
        requires
            config.policies.wf(),
        ensures
            e.wf(),
            e.enabled() == config.enabled,
            e.policy_manager()@ == configured_policies(config.policies@, config.default_policy@),
            e.policy_manager().default_name() == configured_default_name(
                config.policies@,
                config.default_policy@,
            ),
            e.executions_seq().len() == 0,
            e.violations_seq().len() == 0,
            e.start_ms() == now_ms,
            e.active_count() == 0,
            e.blocked_count() == 0,
            e.throttled_count() == 0,
            e.violation_count() == 0,
    {
        let policies = PolicyManager::from_config(&config.policies, config.default_policy.as_str());
        GovernorEngine {
            policies,
            executions: Vec::new(),
            violations: Vec::new(),
            config,
            start_time_ms: now_ms,
            active_executions: 0,
            total_blocked: 0,
            total_throttled: 0,
            total_violations: 0,
        }
    }

    /// An engine configured by `config`, started now.
    pub fn new(config: GovernorConfig) -> (e: Self)
        requires
            config.policies.wf(),
        ensures
            e.wf(),
            e.enabled() == config.enabled,
            e.policy_manager()@ == configured_policies(config.policies@, config.default_policy@),
            e.policy_manager().default_name() == configured_default_name(
                config.policies@,
                config.default_policy@,
            ),
            e.executions_seq().len() == 0,
            e.violations_seq().len() == 0,
            e.active_count() == 0,
            e.blocked_count() == 0,
            e.throttled_count() == 0,
            e.violation_count() == 0,
    {
        Self::new_at(config, crate::clock::now_millis())
    }

    /// A disabled engine with the default configuration: its one policy,
    /// `default`, is global, monitor-only and has the default limits.
    pub fn new_disabled() -> (e: Self)
        ensures
            e.wf(),
            !e.enabled(),
            e.policy_manager()@ == map![
                "default"@ => PolicyView {
                    name: "default"@,
                    scope: ScopeView::Global,
                    limits: default_limits(),
                    action: EnforcementAction::Monitor,
                },
            ],
            e.policy_manager().default_name() == "default"@,
            e.executions_seq().len() == 0,
            e.violations_seq().len() == 0,
            e.active_count() == 0,
            e.blocked_count() == 0,
            e.throttled_count() == 0,
            e.violation_count() == 0,
    {
        let mut config = GovernorConfig::default();
        config.enabled = false;
        proof {
            reveal_strlit("global");
            reveal_strlit("monitor");
            reveal_strlit("block");
            reveal_strlit("throttle");
            reveal_strlit("warn");
            let c = config.policies@;
            let d = "default"@;
            assert(first_index_of("global"@, ':') is None);
            assert(scope_head("global"@) == "global"@);
            assert(parse_scope_spec(c[d].scope@) == Some(ScopeView::Global));
            assert(string_option_view(c[d].action) == Some("monitor"@));
            assert("monitor"@.len() != "block"@.len() && "monitor"@.len() != "throttle"@.len()
                && "monitor"@.len() != "warn"@.len());
            assert(config_action(Some("monitor"@)) == EnforcementAction::Monitor);
            assert(config_policy_map(c) =~= map![
                d => PolicyView {
                    name: d,
                    scope: ScopeView::Global,
                    limits: default_limits(),
                    action: EnforcementAction::Monitor,
                },
            ]);
            assert(configured_default_name(c, d) == d);
        }
        Self::new(config)
    }

    /// Whether the governor enforces anything.
    pub fn is_enabled(&self) -> (b: bool)
        ensures
            b == self.enabled(),
    {
        self.config.enabled
    }

    fn find_execution(&self, id: u128) -> (r: Option<usize>)
        requires
            ids_distinct(self.executions@),
        ensures
            r is None <==> find_context(self.executions@, id) is None,
            r matches Some(i) ==> i < self.executions@.len() && self.executions@[i as int].execution_id
                == id && find_context(self.executions@, id) == Some(self.executions@[i as int]),
    {
        let mut i: usize = 0;
        while i < self.executions.len()
            invariant
                i <= self.executions@.len(),
                ids_distinct(self.executions@),
                forall|j: int| 0 <= j < i ==> self.executions@[j].execution_id != id,
            decreases self.executions@.len() - i,
        {
            if self.executions[i].execution_id == id {
                proof {
                    let j = choose|j: int|
                        0 <= j < self.executions@.len() && self.executions@[j].execution_id == id;
                    if j != i {
                        assert(self.executions@[j].execution_id != self.executions@[i as int].execution_id);
                    }
                }
                return Some(i);
            }
            i = i + 1;
        }
        None
    }

    /// Starts tracking an execution with id `execution_id` begun at `now_ms`,
    /// under the policy resolved for its namespace, workload, user and role.
    /// An execution already tracked under that id is replaced.
    pub fn start_execution_with(
        &mut self,
        namespace: String,
        workload_type: WorkloadType,
        user: Option<&str>,
        role: Option<&str>,
        execution_id: u128,
        now_ms: i64,
    ) -> (h: ExecutionHandle)
        requires
            old(self).wf(),
        ensures
            final(self).wf(),
            ({
                let p = resolve_spec(
                    old(self).policy_manager().policy_seq(),
                    ResolveRequest { namespace: namespace@, workload: workload_type, user: str_option_view(user), role: str_option_view(role) },
                    old(self).policy_manager()@[old(self).policy_manager().default_name()],
                );
                &&& h.execution_id_of() == execution_id
                &&& h.action_of() == p.action
                &&& find_context(final(self).executions_seq(), execution_id) == Some(
                    ExecutionContext {
                        execution_id,
                        namespace,
                        workload_type,
                        limits: p.limits,
                        usage: zero_usage(),
                        action: p.action,
                        created_at_ms: now_ms,
                        last_updated_ms: now_ms,
                    },
                )
            }),
            forall|other: u128|
                other != execution_id ==> find_context(final(self).executions_seq(), other)
                    == find_context(old(self).executions_seq(), other),
            final(self).active_count() == old(self).active_count().wrapping_add(1),
            final(self).policy_manager() == old(self).policy_manager(),
            final(self).violations_seq() == old(self).violations_seq(),
            final(self).enabled() == old(self).enabled(),
            final(self).start_ms() == old(self).start_ms(),
            final(self).blocked_count() == old(self).blocked_count(),
            final(self).throttled_count() == old(self).throttled_count(),
            final(self).violation_count() == old(self).violation_count(),
    {
        let policy = self.policies.resolve_policy(namespace.as_str(), workload_type, user, role);
        let limits = policy.limits;
        let action = policy.action;
        let ctx = ExecutionContext::with_identity(
            namespace,
            workload_type,
            limits,
            execution_id,
            now_ms,
        ).with_action(action);
        self.active_executions = self.active_executions.wrapping_add(1);
        let ghost before = self.executions@;
        match self.find_execution(execution_id) {
            Some(i) => {
                self.executions.set(i, ctx);
                proof {
                    let s = self.executions@;
                    assert(ids_distinct(s)) by {
                        assert forall|a: int, b: int|
                            0 <= a < s.len() && 0 <= b < s.len() && a != b implies #[trigger] s[a].execution_id
                            != #[trigger] s[b].execution_id by {
                            assert(a != i ==> s[a] == before[a]);
                            assert(b != i ==> s[b] == before[b]);
                        }
                    }
                    assert(s[i as int].execution_id == execution_id);
                    assert forall|other: u128| other != execution_id implies find_context(s, other)
                        == find_context(before, other) by {
                        if exists|k: int| 0 <= k < s.len() && s[k].execution_id == other {
                            let k = choose|k: int| 0 <= k < s.len() && s[k].execution_id == other;
                            assert(k != i);
                            assert(before[k] == s[k]);
                            let k2 = choose|k2: int| 0 <= k2 < before.len() && before[k2].execution_id == other;
                            if k2 != k {
                                assert(before[k2].execution_id != before[k].execution_id);
                            }
                        }
                        if exists|k: int| 0 <= k < before.len() && before[k].execution_id == other {
                            let k = choose|k: int| 0 <= k < before.len() && before[k].execution_id == other;
                            assert(k != i);
                            assert(before[k] == s[k]);
                        }
                    }
                    let k = choose|k: int| 0 <= k < s.len() && s[k].execution_id == execution_id;
                    if k != i {
                        assert(s[k].execution_id != s[i as int].execution_id);
                    }
                }
            },
            None => {
                self.executions.push(ctx);
                proof {
                    let s = self.executions@;
                    let n = before.len();
                    assert forall|a: int, b: int|
                        0 <= a < s.len() && 0 <= b < s.len() && a != b implies #[trigger] s[a].execution_id
                        != #[trigger] s[b].execution_id by {
                        if a < n && b < n {
                            assert(s[a] == before[a] && s[b] == before[b]);
                        } else if a < n {
                            assert(s[a] == before[a]);
                        } else {
                            assert(s[b] == before[b]);
                        }
                    }
                    assert(s[n as int].execution_id == execution_id);
                    assert forall|other: u128| other != execution_id implies find_context(s, other)
                        == find_context(before, other) by {
                        if exists|k: int| 0 <= k < s.len() && s[k].execution_id == other {
                            let k = choose|k: int| 0 <= k < s.len() && s[k].execution_id == other;
                            assert(k < n);
                            assert(before[k] == s[k]);
                            let k2 = choose|k2: int| 0 <= k2 < before.len() && before[k2].execution_id == other;
                            if k2 != k {
                                assert(s[k2].execution_id != s[k].execution_id);
                            }
                        }
                        if exists|k: int| 0 <= k < before.len() && before[k].execution_id == other {
                            let k = choose|k: int| 0 <= k < before.len() && before[k].execution_id == other;
                            assert(before[k] == s[k]);
                        }
                    }
                    let k = choose|k: int| 0 <= k < s.len() && s[k].execution_id == execution_id;
                    if k != n {
                        assert(s[k].execution_id != s[n as int].execution_id);
                    }
                }
            },
        }
        ExecutionHandle { execution_id, action }
    }

    /// Starts tracking an execution under a fresh random id, begun now; an
    /// error, with nothing changed, when no random id could be made.
    pub fn start_execution(
        &mut self,
        namespace: String,
        workload_type: WorkloadType,
        user: Option<&str>,
        role: Option<&str>,
    ) -> (r: Result<ExecutionHandle, String>)
        requires
            old(self).wf(),
        ensures
            final(self).wf(),
            r matches Err(e) ==> e@ == crate::clock::id_failure_message() && *final(self) == *old(self),
            r matches Ok(h) ==> ({
                let p = resolve_spec(
                    old(self).policy_manager().policy_seq(),
                    ResolveRequest { namespace: namespace@, workload: workload_type, user: str_option_view(user), role: str_option_view(role) },
                    old(self).policy_manager()@[old(self).policy_manager().default_name()],
                );
                &&& h.action_of() == p.action
                &&& find_context(final(self).executions_seq(), h.execution_id_of()) matches Some(c)
                    && c.namespace == namespace && c.workload_type == workload_type && c.limits
                    == p.limits && c.usage == zero_usage() && c.action == p.action
                &&& final(self).active_count() == old(self).active_count().wrapping_add(1)
            }),
            final(self).policy_manager() == old(self).policy_manager(),
            final(self).violations_seq() == old(self).violations_seq(),
    {
        let id = match crate::clock::fresh_uuid() {
            Ok(id) => id,
            Err(e) => {
                return Err(e);
            },
        };
        let now = crate::clock::now_millis();
        Ok(self.start_execution_with(namespace, workload_type, user, role, id, now))
    }

    /// Stops tracking execution `execution_id`.
    pub fn finish_execution(&mut self, execution_id: u128)
        requires
            old(self).wf(),
        ensures
            final(self).wf(),
            find_context(final(self).executions_seq(), execution_id) is None,
            forall|other: u128|
                other != execution_id ==> find_context(final(self).executions_seq(), other)
                    == find_context(old(self).executions_seq(), other),
            final(self).active_count() == old(self).active_count().wrapping_sub(1),
            final(self).policy_manager() == old(self).policy_manager(),
            final(self).violations_seq() == old(self).violations_seq(),
            final(self).enabled() == old(self).enabled(),
            final(self).start_ms() == old(self).start_ms(),
            final(self).blocked_count() == old(self).blocked_count(),
            final(self).throttled_count() == old(self).throttled_count(),
            final(self).violation_count() == old(self).violation_count(),
    {
        self.active_executions = self.active_executions.wrapping_sub(1);
        let ghost before = self.executions@;
        match self.find_execution(execution_id) {
            Some(i) => {
                self.executions.remove(i);
                proof {
                    let s = self.executions@;
                    assert forall|a: int| 0 <= a < s.len() implies #[trigger] s[a] == before[if a < i {
                        a
                    } else {
                        a + 1
                    }] by {}
                    assert forall|a: int, b: int|
                        0 <= a < s.len() && 0 <= b < s.len() && a != b implies #[trigger] s[a].execution_id
                        != #[trigger] s[b].execution_id by {
                        let a2 = if a < i { a } else { a + 1 };
                        let b2 = if b < i { b } else { b + 1 };
                        assert(s[a] == before[a2] && s[b] == before[b2]);
                    }
                    if exists|k: int| 0 <= k < s.len() && s[k].execution_id == execution_id {
                        let k = choose|k: int| 0 <= k < s.len() && s[k].execution_id == execution_id;
                        let k2 = if k < i { k } else { k + 1 };
                        assert(s[k] == before[k2]);
                        assert(before[k2].execution_id != before[i as int].execution_id);
                    }
                    assert forall|other: u128| other != execution_id implies find_context(s, other)
                        == find_context(before, other) by {
                        if exists|k: int| 0 <= k < s.len() && s[k].execution_id == other {
                            let k = choose|k: int| 0 <= k < s.len() && s[k].execution_id == other;
                            let k2 = if k < i { k } else { k + 1 };
                            assert(s[k] == before[k2]);
                            let k3 = choose|k3: int| 0 <= k3 < before.len() && before[k3].execution_id == other;
                            if k3 != k2 {
                                assert(before[k3].execution_id != before[k2].execution_id);
                            }
                        }
                        if exists|k: int| 0 <= k < before.len() && before[k].execution_id == other {
                            let k = choose|k: int| 0 <= k < before.len() && before[k].execution_id == other;
                            assert(k != i);
                            let k2 = if k < i { k } else { k - 1 };
                            assert(s[k2] == before[k]);
                        }
                    }
                }
            },
            None => {},
        }
    }
}


fn blocked_error(field: &str, limit: u64, current: u64) -> (m: String)
    ensures
        m@ == blocked_message(field@, limit, current),
        m@ != crate::clock::id_failure_message(),
{
    proof {
        lemma_blocked_is_not_id_failure(field@, limit, current);
    }
    let mut m = owned("Resource limit exceeded: ");
    m.append(field);
    m.append(" (limit: ");
    m.append(decimal_string(limit).as_str());
    m.append(", usage: ");
    m.append(decimal_string(current).as_str());
    m.append("). Action: blocked");
    assert(m@ =~= blocked_message(field@, limit, current));
    m
}

impl GovernorEngine {
    /// Checks `current` against `limit` for execution `execution_id`; a
    /// breach is logged with id `violation_id` and time `now_ms`.
    pub fn check_limit_at(
        &mut self,
        execution_id: u128,
        field: &str,
        current: u64,
        limit: Option<u64>,
        violation_id: u128,
        now_ms: i64,
    ) -> (r: Result<EnforcementAction, String>)
        requires
            old(self).wf(),
        ensures
            limit_checked(*old(self), *final(self), execution_id, field@, current, limit, r),
            old(self).enabled() && exceeded(current, limit) ==> final(self).violations_seq().last().id
                == violation_id && final(self).violations_seq().last().timestamp_ms == now_ms,
    {
        if !self.config.enabled {
            return Ok(EnforcementAction::Monitor);
        }
        let limit = match limit {
            Some(l) => l,
            None => {
                return Ok(EnforcementAction::Monitor);
            },
        };
        if current >= limit {
            let (action, namespace, workload_type) = match self.find_execution(execution_id) {
                Some(i) => {
                    let e = &self.executions[i];
                    (e.action, e.namespace.clone(), e.workload_type)
                },
                None => (EnforcementAction::Block, String::new(), WorkloadType::Sql),
            };
            if action == EnforcementAction::Block {
                self.total_blocked = self.total_blocked.wrapping_add(1);
            } else if action == EnforcementAction::Throttle {
                self.total_throttled = self.total_throttled.wrapping_add(1);
            }
            self.total_violations = self.total_violations.wrapping_add(1);
            let violation = Violation {
                id: violation_id,
                timestamp_ms: now_ms,
                execution_id,
                namespace,
                workload_type,
                policy_name: owned("resolved"),
                limit_name: owned(field),
                limit_value: decimal_string(limit),
                usage_value: decimal_string(current),
                action,
            };
            let ghost v = violation;
            let ghost before = self.violations@;
            self.violations.push(violation);
            if self.violations.len() > VIOLATION_LOG_CAP {
                let excess = self.violations.len() - VIOLATION_LOG_KEEP;
                let kept = self.violations.split_off(excess);
                self.violations = kept;
            }
            assert(self.violations@ =~= log_append(before, v));
            assert(self.violations@.last() == v);
            if action == EnforcementAction::Block {
                return Err(blocked_error(field, limit, current));
            }
            Ok(action)
        } else {
            Ok(EnforcementAction::Monitor)
        }
    }

    /// Checks `current` against `limit` for execution `execution_id`,
    /// logging a breach with a fresh id at the current time.
    pub fn check_limit(
        &mut self,
        execution_id: u128,
        field: &str,
        current: u64,
        limit: Option<u64>,
    ) -> (r: Result<EnforcementAction, String>)
        requires
            old(self).wf(),
        ensures
            limit_checked(*old(self), *final(self), execution_id, field@, current, limit, r),
    {
        let breach = match limit {
            Some(l) => self.config.enabled && current >= l,
            None => false,
        };
        let vid = if breach {
            match crate::clock::fresh_uuid() {
                Ok(id) => id,
                Err(e) => {
                    return Err(e);
                },
            }
        } else {
            0
        };
        let now = crate::clock::now_millis();
        self.check_limit_at(execution_id, field, current, limit, vid, now)
    }

    /// The limit of field `f` for execution `execution_id`.
    fn execution_limit(&self, execution_id: u128, f: usize) -> (r: Option<u64>)
        requires
            self.wf(),
            f < 23,
        ensures
            r == context_limit(self.executions_seq(), execution_id, f as int),
    {
        match self.find_execution(execution_id) {
            Some(i) => limit_field(&self.executions[i].limits, f),
            None => None,
        }
    }

    /// Checks `current` against the execution's limit of field `f`.
    fn check_field(&mut self, execution_id: u128, f: usize, field: &str, current: u64) -> (r: Result<
        EnforcementAction,
        String,
    >)
        requires
            old(self).wf(),
            f < 23,
        ensures
            limit_checked(
                *old(self),
                *final(self),
                execution_id,
                field@,
                current,
                context_limit(old(self).executions_seq(), execution_id, f as int),
                r,
            ),
    {
        let limit = self.execution_limit(execution_id, f);
        self.check_limit(execution_id, field, current, limit)
    }

    /// Checks `steps` against the execution's `max_execution_steps` limit.
    pub fn check_execution_steps(&mut self, execution_id: u128, steps: u64) -> (r: Result<EnforcementAction, String>)
        requires
            old(self).wf(),
        ensures
            limit_checked(
                *old(self),
                *final(self),
                execution_id,
                "max_execution_steps"@,
                steps as u64,
                context_limit(old(self).executions_seq(), execution_id, 0),
                r,
            ),
    {
        self.check_field(execution_id, 0, "max_execution_steps", steps)
    }

    /// Checks `cpu_time_ms` against the execution's `max_cpu_time_ms` limit.
    pub fn check_cpu_time(&mut self, execution_id: u128, cpu_time_ms: u64) -> (r: Result<EnforcementAction, String>)
        requires
            old(self).wf(),
        ensures
            limit_checked(
                *old(self),
                *final(self),
                execution_id,
                "max_cpu_time_ms"@,
                cpu_time_ms as u64,
                context_limit(old(self).executions_seq(), execution_id, 1),
                r,
            ),
    {
        self.check_field(execution_id, 1, "max_cpu_time_ms", cpu_time_ms)
    }

    /// Checks `current_mb` against the execution's `max_memory_mb` limit.
    pub fn check_memory(&mut self, execution_id: u128, current_mb: u64) -> (r: Result<EnforcementAction, String>)
        requires
            old(self).wf(),
        ensures
            limit_checked(
                *old(self),
                *final(self),
                execution_id,
                "max_memory_mb"@,
                current_mb as u64,
                context_limit(old(self).executions_seq(), execution_id, 2),
                r,
            ),
    {
        self.check_field(execution_id, 2, "max_memory_mb", current_mb)
    }

    /// Checks `complexity` against the execution's `max_query_complexity` limit.
    pub fn check_query_complexity(&mut self, execution_id: u128, complexity: u32) -> (r: Result<EnforcementAction, String>)
        requires
            old(self).wf(),
        ensures
            limit_checked(
                *old(self),
                *final(self),
                execution_id,
                "max_query_complexity"@,
                complexity as u64,
                context_limit(old(self).executions_seq(), execution_id, 3),
                r,
            ),
    {
        self.check_field(execution_id, 3, "max_query_complexity", complexity as u64)
    }

    /// Checks `joins` against the execution's `max_join_count` limit.
    pub fn check_join_count(&mut self, execution_id: u128, joins: u32) -> (r: Result<EnforcementAction, String>)
        requires
            old(self).wf(),
        ensures
            limit_checked(
                *old(self),
                *final(self),
                execution_id,
                "max_join_count"@,
                joins as u64,
                context_limit(old(self).executions_seq(), execution_id, 4),
                r,
            ),
    {
        self.check_field(execution_id, 4, "max_join_count", joins as u64)
    }

    /// Checks `rows` against the execution's `max_sort_rows` limit.
    pub fn check_sort_rows(&mut self, execution_id: u128, rows: u64) -> (r: Result<EnforcementAction, String>)
        requires
            old(self).wf(),
        ensures
            limit_checked(
                *old(self),
                *final(self),
                execution_id,
                "max_sort_rows"@,
                rows as u64,
                context_limit(old(self).executions_seq(), execution_id, 5),
                r,
            ),
    {
        self.check_field(execution_id, 5, "max_sort_rows", rows)
    }

    /// Checks `depth` against the execution's `max_pipeline_depth` limit.
    pub fn check_pipeline_depth(&mut self, execution_id: u128, depth: u32) -> (r: Result<EnforcementAction, String>)
        requires
            old(self).wf(),
        ensures
            limit_checked(
                *old(self),
                *final(self),
                execution_id,
                "max_pipeline_depth"@,
                depth as u64,
                context_limit(old(self).executions_seq(), execution_id, 6),
                r,
            ),
    {
        self.check_field(execution_id, 6, "max_pipeline_depth", depth as u64)
    }

    /// Checks `stages` against the execution's `max_pipeline_stages` limit.
    pub fn check_pipeline_stages(&mut self, execution_id: u128, stages: u32) -> (r: Result<EnforcementAction, String>)
        requires
            old(self).wf(),
        ensures
            limit_checked(
                *old(self),
                *final(self),
                execution_id,
                "max_pipeline_stages"@,
                stages as u64,
                context_limit(old(self).executions_seq(), execution_id, 7),
                r,
            ),
    {
        self.check_field(execution_id, 7, "max_pipeline_stages", stages as u64)
    }

    /// Checks `calls` against the execution's `max_ffi_calls` limit.
    pub fn check_ffi_calls(&mut self, execution_id: u128, calls: u64) -> (r: Result<EnforcementAction, String>)
        requires
            old(self).wf(),
        ensures
            limit_checked(
                *old(self),
                *final(self),
                execution_id,
                "max_ffi_calls"@,
                calls as u64,
                context_limit(old(self).executions_seq(), execution_id, 8),
                r,
            ),
    {
        self.check_field(execution_id, 8, "max_ffi_calls", calls)
    }

    /// Checks `memory_mb` against the execution's `max_ffi_memory_mb` limit.
    pub fn check_ffi_memory(&mut self, execution_id: u128, memory_mb: u64) -> (r: Result<EnforcementAction, String>)
        requires
            old(self).wf(),
        ensures
            limit_checked(
                *old(self),
                *final(self),
                execution_id,
                "max_ffi_memory_mb"@,
                memory_mb as u64,
                context_limit(old(self).executions_seq(), execution_id, 9),
                r,
            ),
    {
        self.check_field(execution_id, 9, "max_ffi_memory_mb", memory_mb)
    }

    /// Checks `time_ms` against the execution's `max_ffi_time_ms` limit.
    pub fn check_ffi_time(&mut self, execution_id: u128, time_ms: u64) -> (r: Result<EnforcementAction, String>)
        requires
            old(self).wf(),
        ensures
            limit_checked(
                *old(self),
                *final(self),
                execution_id,
                "max_ffi_time_ms"@,
                time_ms as u64,
                context_limit(old(self).executions_seq(), execution_id, 10),
                r,
            ),
    {
        self.check_field(execution_id, 10, "max_ffi_time_ms", time_ms)
    }

    /// Checks `iterations` against the execution's `max_training_iterations` limit.
    pub fn check_training_iterations(&mut self, execution_id: u128, iterations: u64) -> (r: Result<EnforcementAction, String>)
        requires
            old(self).wf(),
        ensures
            limit_checked(
                *old(self),
                *final(self),
                execution_id,
                "max_training_iterations"@,
                iterations as u64,
                context_limit(old(self).executions_seq(), execution_id, 11),
                r,
            ),
    {
        self.check_field(execution_id, 11, "max_training_iterations", iterations)
    }

    /// Checks `batch_size` against the execution's `max_prediction_batch_size` limit.
    pub fn check_prediction_batch(&mut self, execution_id: u128, batch_size: u64) -> (r: Result<EnforcementAction, String>)
        requires
            old(self).wf(),
        ensures
            limit_checked(
                *old(self),
                *final(self),
                execution_id,
                "max_prediction_batch_size"@,
                batch_size as u64,
                context_limit(old(self).executions_seq(), execution_id, 12),
                r,
            ),
    {
        self.check_field(execution_id, 12, "max_prediction_batch_size", batch_size)
    }

    /// Checks `batch_size` against the execution's `max_embedding_batch_size` limit.
    pub fn check_embedding_batch(&mut self, execution_id: u128, batch_size: u64) -> (r: Result<EnforcementAction, String>)
        requires
            old(self).wf(),
        ensures
            limit_checked(
                *old(self),
                *final(self),
                execution_id,
                "max_embedding_batch_size"@,
                batch_size as u64,
                context_limit(old(self).executions_seq(), execution_id, 13),
                r,
            ),
    {
        self.check_field(execution_id, 13, "max_embedding_batch_size", batch_size)
    }

    /// Checks `candidates` against the execution's `max_vector_candidates` limit.
    pub fn check_vector_candidates(&mut self, execution_id: u128, candidates: u64) -> (r: Result<EnforcementAction, String>)
        requires
            old(self).wf(),
        ensures
            limit_checked(
                *old(self),
                *final(self),
                execution_id,
                "max_vector_candidates"@,
                candidates as u64,
                context_limit(old(self).executions_seq(), execution_id, 14),
                r,
            ),
    {
        self.check_field(execution_id, 14, "max_vector_candidates", candidates)
    }

    /// Checks `expansions` against the execution's `max_vector_expansions` limit.
    pub fn check_vector_expansions(&mut self, execution_id: u128, expansions: u64) -> (r: Result<EnforcementAction, String>)
        requires
            old(self).wf(),
        ensures
            limit_checked(
                *old(self),
                *final(self),
                execution_id,
                "max_vector_expansions"@,
                expansions as u64,
                context_limit(old(self).executions_seq(), execution_id, 15),
                r,
            ),
    {
        self.check_field(execution_id, 15, "max_vector_expansions", expansions)
    }

    /// Checks `depth` against the execution's `max_graph_depth` limit.
    pub fn check_graph_depth(&mut self, execution_id: u128, depth: u32) -> (r: Result<EnforcementAction, String>)
        requires
            old(self).wf(),
        ensures
            limit_checked(
                *old(self),
                *final(self),
                execution_id,
                "max_graph_depth"@,
                depth as u64,
                context_limit(old(self).executions_seq(), execution_id, 16),
                r,
            ),
    {
        self.check_field(execution_id, 16, "max_graph_depth", depth as u64)
    }

    /// Checks `nodes` against the execution's `max_graph_nodes` limit.
    pub fn check_graph_nodes(&mut self, execution_id: u128, nodes: u64) -> (r: Result<EnforcementAction, String>)
        requires
            old(self).wf(),
        ensures
            limit_checked(
                *old(self),
                *final(self),
                execution_id,
                "max_graph_nodes"@,
                nodes as u64,
                context_limit(old(self).executions_seq(), execution_id, 17),
                r,
            ),
    {
        self.check_field(execution_id, 17, "max_graph_nodes", nodes)
    }

    /// Checks `edges` against the execution's `max_graph_edges` limit.
    pub fn check_graph_edges(&mut self, execution_id: u128, edges: u64) -> (r: Result<EnforcementAction, String>)
        requires
            old(self).wf(),
        ensures
            limit_checked(
                *old(self),
                *final(self),
                execution_id,
                "max_graph_edges"@,
                edges as u64,
                context_limit(old(self).executions_seq(), execution_id, 18),
                r,
            ),
    {
        self.check_field(execution_id, 18, "max_graph_edges", edges)
    }

    /// Checks `rows` against the execution's `max_import_rows` limit.
    pub fn check_import_rows(&mut self, execution_id: u128, rows: u64) -> (r: Result<EnforcementAction, String>)
        requires
            old(self).wf(),
        ensures
            limit_checked(
                *old(self),
                *final(self),
                execution_id,
                "max_import_rows"@,
                rows as u64,
                context_limit(old(self).executions_seq(), execution_id, 19),
                r,
            ),
    {
        self.check_field(execution_id, 19, "max_import_rows", rows)
    }

    /// Checks `batches` against the execution's `max_import_batches` limit.
    pub fn check_import_batches(&mut self, execution_id: u128, batches: u64) -> (r: Result<EnforcementAction, String>)
        requires
            old(self).wf(),
        ensures
            limit_checked(
                *old(self),
                *final(self),
                execution_id,
                "max_import_batches"@,
                batches as u64,
                context_limit(old(self).executions_seq(), execution_id, 20),
                r,
            ),
    {
        self.check_field(execution_id, 20, "max_import_batches", batches)
    }

    /// Checks `size` against the execution's `max_backup_size` limit.
    pub fn check_backup_size(&mut self, execution_id: u128, size: u64) -> (r: Result<EnforcementAction, String>)
        requires
            old(self).wf(),
        ensures
            limit_checked(
                *old(self),
                *final(self),
                execution_id,
                "max_backup_size"@,
                size as u64,
                context_limit(old(self).executions_seq(), execution_id, 21),
                r,
            ),
    {
        self.check_field(execution_id, 21, "max_backup_size", size)
    }

    /// Checks `size` against the execution's `max_restore_size` limit.
    pub fn check_restore_size(&mut self, execution_id: u128, size: u64) -> (r: Result<EnforcementAction, String>)
        requires
            old(self).wf(),
        ensures
            limit_checked(
                *old(self),
                *final(self),
                execution_id,
                "max_restore_size"@,
                size as u64,
                context_limit(old(self).executions_seq(), execution_id, 22),
                r,
            ),
    {
        self.check_field(execution_id, 22, "max_restore_size", size)
    }
}

impl ExecutionHandle {
    /// The id of the execution.
    pub fn id(&self) -> (r: u128)
        ensures
            r == self.execution_id_of(),
    {
        self.execution_id
    }

    /// The enforcement action resolved for the execution.
    pub fn action(&self) -> (r: EnforcementAction)
        ensures
            r == self.action_of(),
    {
        self.action
    }

    /// Checks `steps` against this execution's `max_execution_steps` limit.
    pub fn check_steps(&self, engine: &mut GovernorEngine, steps: u64) -> (r: Result<EnforcementAction, String>)
        requires
            old(engine).wf(),
        ensures
            limit_checked(
                *old(engine),
                *final(engine),
                self.execution_id_of(),
                "max_execution_steps"@,
                steps as u64,
                context_limit(old(engine).executions_seq(), self.execution_id_of(), 0),
                r,
            ),
    {
        engine.check_execution_steps(self.execution_id, steps)
    }

    /// Checks `cpu_time_ms` against this execution's `max_cpu_time_ms` limit.
    pub fn check_cpu_time(&self, engine: &mut GovernorEngine, cpu_time_ms: u64) -> (r: Result<EnforcementAction, String>)
        requires
            old(engine).wf(),
        ensures
            limit_checked(
                *old(engine),
                *final(engine),
                self.execution_id_of(),
                "max_cpu_time_ms"@,
                cpu_time_ms as u64,
                context_limit(old(engine).executions_seq(), self.execution_id_of(), 1),
                r,
            ),
    {
        engine.check_cpu_time(self.execution_id, cpu_time_ms)
    }

    /// Checks `current_mb` against this execution's `max_memory_mb` limit.
    pub fn check_memory(&self, engine: &mut GovernorEngine, current_mb: u64) -> (r: Result<EnforcementAction, String>)
        requires
            old(engine).wf(),
        ensures
            limit_checked(
                *old(engine),
                *final(engine),
                self.execution_id_of(),
                "max_memory_mb"@,
                current_mb as u64,
                context_limit(old(engine).executions_seq(), self.execution_id_of(), 2),
                r,
            ),
    {
        engine.check_memory(self.execution_id, current_mb)
    }

    /// Checks `complexity` against this execution's `max_query_complexity` limit.
    pub fn check_query_complexity(&self, engine: &mut GovernorEngine, complexity: u32) -> (r: Result<EnforcementAction, String>)
        requires
            old(engine).wf(),
        ensures
            limit_checked(
                *old(engine),
                *final(engine),
                self.execution_id_of(),
                "max_query_complexity"@,
                complexity as u64,
                context_limit(old(engine).executions_seq(), self.execution_id_of(), 3),
                r,
            ),
    {
        engine.check_query_complexity(self.execution_id, complexity)
    }

    /// Checks `joins` against this execution's `max_join_count` limit.
    pub fn check_join_count(&self, engine: &mut GovernorEngine, joins: u32) -> (r: Result<EnforcementAction, String>)
        requires
            old(engine).wf(),
        ensures
            limit_checked(
                *old(engine),
                *final(engine),
                self.execution_id_of(),
                "max_join_count"@,
                joins as u64,
                context_limit(old(engine).executions_seq(), self.execution_id_of(), 4),
                r,
            ),
    {
        engine.check_join_count(self.execution_id, joins)
    }

    /// Checks `rows` against this execution's `max_sort_rows` limit.
    pub fn check_sort_rows(&self, engine: &mut GovernorEngine, rows: u64) -> (r: Result<EnforcementAction, String>)
        requires
            old(engine).wf(),
        ensures
            limit_checked(
                *old(engine),
                *final(engine),
                self.execution_id_of(),
                "max_sort_rows"@,
                rows as u64,
                context_limit(old(engine).executions_seq(), self.execution_id_of(), 5),
                r,
            ),
    {
        engine.check_sort_rows(self.execution_id, rows)
    }

    /// Checks `depth` against this execution's `max_pipeline_depth` limit.
    pub fn check_pipeline_depth(&self, engine: &mut GovernorEngine, depth: u32) -> (r: Result<EnforcementAction, String>)
        requires
            old(engine).wf(),
        ensures
            limit_checked(
                *old(engine),
                *final(engine),
                self.execution_id_of(),
                "max_pipeline_depth"@,
                depth as u64,
                context_limit(old(engine).executions_seq(), self.execution_id_of(), 6),
                r,
            ),
    {
        engine.check_pipeline_depth(self.execution_id, depth)
    }

    /// Checks `stages` against this execution's `max_pipeline_stages` limit.
    pub fn check_pipeline_stages(&self, engine: &mut GovernorEngine, stages: u32) -> (r: Result<EnforcementAction, String>)
        requires
            old(engine).wf(),
        ensures
            limit_checked(
                *old(engine),
                *final(engine),
                self.execution_id_of(),
                "max_pipeline_stages"@,
                stages as u64,
                context_limit(old(engine).executions_seq(), self.execution_id_of(), 7),
                r,
            ),
    {
        engine.check_pipeline_stages(self.execution_id, stages)
    }

    /// Checks `calls` against this execution's `max_ffi_calls` limit.
    pub fn check_ffi_calls(&self, engine: &mut GovernorEngine, calls: u64) -> (r: Result<EnforcementAction, String>)
        requires
            old(engine).wf(),
        ensures
            limit_checked(
                *old(engine),
                *final(engine),
                self.execution_id_of(),
                "max_ffi_calls"@,
                calls as u64,
                context_limit(old(engine).executions_seq(), self.execution_id_of(), 8),
                r,
            ),
    {
        engine.check_ffi_calls(self.execution_id, calls)
    }

    /// Checks `memory_mb` against this execution's `max_ffi_memory_mb` limit.
    pub fn check_ffi_memory(&self, engine: &mut GovernorEngine, memory_mb: u64) -> (r: Result<EnforcementAction, String>)
        requires
            old(engine).wf(),
        ensures
            limit_checked(
                *old(engine),
                *final(engine),
                self.execution_id_of(),
                "max_ffi_memory_mb"@,
                memory_mb as u64,
                context_limit(old(engine).executions_seq(), self.execution_id_of(), 9),
                r,
            ),
    {
        engine.check_ffi_memory(self.execution_id, memory_mb)
    }

    /// Checks `time_ms` against this execution's `max_ffi_time_ms` limit.
    pub fn check_ffi_time(&self, engine: &mut GovernorEngine, time_ms: u64) -> (r: Result<EnforcementAction, String>)
        requires
            old(engine).wf(),
        ensures
            limit_checked(
                *old(engine),
                *final(engine),
                self.execution_id_of(),
                "max_ffi_time_ms"@,
                time_ms as u64,
                context_limit(old(engine).executions_seq(), self.execution_id_of(), 10),
                r,
            ),
    {
        engine.check_ffi_time(self.execution_id, time_ms)
    }

    /// Checks `iterations` against this execution's `max_training_iterations` limit.
    pub fn check_training_iterations(&self, engine: &mut GovernorEngine, iterations: u64) -> (r: Result<EnforcementAction, String>)
        requires
            old(engine).wf(),
        ensures
            limit_checked(
                *old(engine),
                *final(engine),
                self.execution_id_of(),
                "max_training_iterations"@,
                iterations as u64,
                context_limit(old(engine).executions_seq(), self.execution_id_of(), 11),
                r,
            ),
    {
        engine.check_training_iterations(self.execution_id, iterations)
    }

    /// Checks `batch_size` against this execution's `max_prediction_batch_size` limit.
    pub fn check_prediction_batch(&self, engine: &mut GovernorEngine, batch_size: u64) -> (r: Result<EnforcementAction, String>)
        requires
            old(engine).wf(),
        ensures
            limit_checked(
                *old(engine),
                *final(engine),
                self.execution_id_of(),
                "max_prediction_batch_size"@,
                batch_size as u64,
                context_limit(old(engine).executions_seq(), self.execution_id_of(), 12),
                r,
            ),
    {
        engine.check_prediction_batch(self.execution_id, batch_size)
    }

    /// Checks `batch_size` against this execution's `max_embedding_batch_size` limit.
    pub fn check_embedding_batch(&self, engine: &mut GovernorEngine, batch_size: u64) -> (r: Result<EnforcementAction, String>)
        requires
            old(engine).wf(),
        ensures
            limit_checked(
                *old(engine),
                *final(engine),
                self.execution_id_of(),
                "max_embedding_batch_size"@,
                batch_size as u64,
                context_limit(old(engine).executions_seq(), self.execution_id_of(), 13),
                r,
            ),
    {
        engine.check_embedding_batch(self.execution_id, batch_size)
    }

    /// Checks `candidates` against this execution's `max_vector_candidates` limit.
    pub fn check_vector_candidates(&self, engine: &mut GovernorEngine, candidates: u64) -> (r: Result<EnforcementAction, String>)
        requires
            old(engine).wf(),
        ensures
            limit_checked(
                *old(engine),
                *final(engine),
                self.execution_id_of(),
                "max_vector_candidates"@,
                candidates as u64,
                context_limit(old(engine).executions_seq(), self.execution_id_of(), 14),
                r,
            ),
    {
        engine.check_vector_candidates(self.execution_id, candidates)
    }

    /// Checks `expansions` against this execution's `max_vector_expansions` limit.
    pub fn check_vector_expansions(&self, engine: &mut GovernorEngine, expansions: u64) -> (r: Result<EnforcementAction, String>)
        requires
            old(engine).wf(),
        ensures
            limit_checked(
                *old(engine),
                *final(engine),
                self.execution_id_of(),
                "max_vector_expansions"@,
                expansions as u64,
                context_limit(old(engine).executions_seq(), self.execution_id_of(), 15),
                r,
            ),
    {
        engine.check_vector_expansions(self.execution_id, expansions)
    }

    /// Checks `depth` against this execution's `max_graph_depth` limit.
    pub fn check_graph_depth(&self, engine: &mut GovernorEngine, depth: u32) -> (r: Result<EnforcementAction, String>)
        requires
            old(engine).wf(),
        ensures
            limit_checked(
                *old(engine),
                *final(engine),
                self.execution_id_of(),
                "max_graph_depth"@,
                depth as u64,
                context_limit(old(engine).executions_seq(), self.execution_id_of(), 16),
                r,
            ),
    {
        engine.check_graph_depth(self.execution_id, depth)
    }

    /// Checks `nodes` against this execution's `max_graph_nodes` limit.
    pub fn check_graph_nodes(&self, engine: &mut GovernorEngine, nodes: u64) -> (r: Result<EnforcementAction, String>)
        requires
            old(engine).wf(),
        ensures
            limit_checked(
                *old(engine),
                *final(engine),
                self.execution_id_of(),
                "max_graph_nodes"@,
                nodes as u64,
                context_limit(old(engine).executions_seq(), self.execution_id_of(), 17),
                r,
            ),
    {
        engine.check_graph_nodes(self.execution_id, nodes)
    }

    /// Checks `edges` against this execution's `max_graph_edges` limit.
    pub fn check_graph_edges(&self, engine: &mut GovernorEngine, edges: u64) -> (r: Result<EnforcementAction, String>)
        requires
            old(engine).wf(),
        ensures
            limit_checked(
                *old(engine),
                *final(engine),
                self.execution_id_of(),
                "max_graph_edges"@,
                edges as u64,
                context_limit(old(engine).executions_seq(), self.execution_id_of(), 18),
                r,
            ),
    {
        engine.check_graph_edges(self.execution_id, edges)
    }

    /// Checks `rows` against this execution's `max_import_rows` limit.
    pub fn check_import_rows(&self, engine: &mut GovernorEngine, rows: u64) -> (r: Result<EnforcementAction, String>)
        requires
            old(engine).wf(),
        ensures
            limit_checked(
                *old(engine),
                *final(engine),
                self.execution_id_of(),
                "max_import_rows"@,
                rows as u64,
                context_limit(old(engine).executions_seq(), self.execution_id_of(), 19),
                r,
            ),
    {
        engine.check_import_rows(self.execution_id, rows)
    }

    /// Checks `batches` against this execution's `max_import_batches` limit.
    pub fn check_import_batches(&self, engine: &mut GovernorEngine, batches: u64) -> (r: Result<EnforcementAction, String>)
        requires
            old(engine).wf(),
        ensures
            limit_checked(
                *old(engine),
                *final(engine),
                self.execution_id_of(),
                "max_import_batches"@,
                batches as u64,
                context_limit(old(engine).executions_seq(), self.execution_id_of(), 20),
                r,
            ),
    {
        engine.check_import_batches(self.execution_id, batches)
    }

    /// Checks `size` against this execution's `max_backup_size` limit.
    pub fn check_backup_size(&self, engine: &mut GovernorEngine, size: u64) -> (r: Result<EnforcementAction, String>)
        requires
            old(engine).wf(),
        ensures
            limit_checked(
                *old(engine),
                *final(engine),
                self.execution_id_of(),
                "max_backup_size"@,
                size as u64,
                context_limit(old(engine).executions_seq(), self.execution_id_of(), 21),
                r,
            ),
    {
        engine.check_backup_size(self.execution_id, size)
    }

    /// Checks `size` against this execution's `max_restore_size` limit.
    pub fn check_restore_size(&self, engine: &mut GovernorEngine, size: u64) -> (r: Result<EnforcementAction, String>)
        requires
            old(engine).wf(),
        ensures
            limit_checked(
                *old(engine),
                *final(engine),
                self.execution_id_of(),
                "max_restore_size"@,
                size as u64,
                context_limit(old(engine).executions_seq(), self.execution_id_of(), 22),
                r,
            ),
    {
        engine.check_restore_size(self.execution_id, size)
    }

    /// Ends the execution: the engine stops tracking it.
    pub fn finish(self, engine: &mut GovernorEngine)
        requires
            old(engine).wf(),
        ensures
            final(engine).wf(),
            find_context(final(engine).executions_seq(), self.execution_id_of()) is None,
            final(engine).active_count() == old(engine).active_count().wrapping_sub(1),
    {
        engine.finish_execution(self.execution_id)
    }
}

/// Allocated bytes summed over the tracked executions, saturating at the
/// largest `u64`.
pub open spec fn total_memory(s: Seq<ExecutionContext>) -> u64
    decreases s.len(),
{
    if s.len() == 0 {
        0
    } else {
        total_memory(s.drop_last()).saturating_add(s.last().usage.memory.allocated_bytes)
    }
}

/// CPU milliseconds summed over the tracked executions, saturating.
pub open spec fn total_cpu(s: Seq<ExecutionContext>) -> u64
    decreases s.len(),
{
    if s.len() == 0 {
        0
    } else {
        total_cpu(s.drop_last()).saturating_add(s.last().usage.cpu.cpu_time_ms)
    }
}

/// FFI calls summed over the tracked executions, saturating.
pub open spec fn total_ffi(s: Seq<ExecutionContext>) -> u64
    decreases s.len(),
{
    if s.len() == 0 {
        0
    } else {
        total_ffi(s.drop_last()).saturating_add(s.last().usage.ffi.calls)
    }
}

/// Whole seconds from `start_ms` to `now_ms`; zero when the clock went back.
pub open spec fn uptime_seconds(start_ms: i64, now_ms: i64) -> u64 {
    if now_ms >= start_ms {
        ((now_ms - start_ms) / 1000) as u64
    } else {
        0
    }
}

/// The violations logged at or after `since_ms`, in log order.
pub open spec fn violations_from(s: Seq<Violation>, since_ms: i64) -> Seq<Violation> {
    s.filter(|v: Violation| v.timestamp_ms >= since_ms)
}

impl GovernorEngine {
    /// A copy of the context of execution `id`, if it is tracked.
    pub fn get_execution(&self, id: u128) -> (r: Option<ExecutionContext>)
        requires
            self.wf(),
        ensures
            r == find_context(self.executions_seq(), id),
    {
        match self.find_execution(id) {
            Some(i) => Some(self.executions[i].clone()),
            None => None,
        }
    }

    /// Copies of all tracked execution contexts.
    pub fn list_executions(&self) -> (r: Vec<ExecutionContext>)
        ensures
            r@ == self.executions_seq(),
    {
        let mut r: Vec<ExecutionContext> = Vec::new();
        let mut i: usize = 0;
        while i < self.executions.len()
            invariant
                i <= self.executions@.len(),
                r@ == self.executions@.take(i as int),
            decreases self.executions@.len() - i,
        {
            r.push(self.executions[i].clone());
            assert(self.executions@.take(i + 1) =~= self.executions@.take(i as int).push(
                self.executions@[i as int],
            ));
            i = i + 1;
        }
        assert(self.executions@.take(i as int) =~= self.executions@);
        r
    }

    /// Copies of all logged violations, oldest first.
    pub fn list_violations(&self) -> (r: Vec<Violation>)
        ensures
            r@ == self.violations_seq(),
    {
        let mut r: Vec<Violation> = Vec::new();
        let mut i: usize = 0;
        while i < self.violations.len()
            invariant
                i <= self.violations@.len(),
                r@ == self.violations@.take(i as int),
            decreases self.violations@.len() - i,
        {
            r.push(self.violations[i].clone());
            assert(self.violations@.take(i + 1) =~= self.violations@.take(i as int).push(
                self.violations@[i as int],
            ));
            i = i + 1;
        }
        assert(self.violations@.take(i as int) =~= self.violations@);
        r
    }

    /// Copies of the violations logged at or after `since_ms`, oldest first.
    pub fn violations_since(&self, since_ms: i64) -> (r: Vec<Violation>)
        ensures
            r@ == violations_from(self.violations_seq(), since_ms),
    {
        let mut r: Vec<Violation> = Vec::new();
        let mut i: usize = 0;
        while i < self.violations.len()
            invariant
                i <= self.violations@.len(),
                r@ == violations_from(self.violations@.take(i as int), since_ms),
            decreases self.violations@.len() - i,
        {
            let ghost t = self.violations@.take(i + 1);
            assert(t.drop_last() =~= self.violations@.take(i as int));
            reveal_with_fuel(Seq::filter, 1);
            if self.violations[i].timestamp_ms >= since_ms {
                r.push(self.violations[i].clone());
            }
            i = i + 1;
        }
        assert(self.violations@.take(i as int) =~= self.violations@);
        r
    }

    /// The governor's status at time `now_ms`.
    pub fn status_at(&self, now_ms: i64) -> (st: GovernorStatus)
        requires
            self.wf(),
        ensures
            st.enabled == self.enabled(),
            st.active_executions == self.active_count(),
            st.total_violations == self.violation_count(),
            st.blocked_count == self.blocked_count(),
            st.throttled_count == self.throttled_count(),
            st.policies_loaded == self.policy_manager()@.len(),
            st.uptime_seconds == uptime_seconds(self.start_ms(), now_ms),
    {
        let policies_loaded = self.policies.list_policies().len();
        proof {
            self.policies.lemma_policy_count();
        }
        let uptime: u64 = if now_ms >= self.start_time_ms {
            let d: i128 = now_ms as i128 - self.start_time_ms as i128;
            (d / 1000) as u64
        } else {
            0
        };
        GovernorStatus {
            enabled: self.config.enabled,
            active_executions: self.active_executions,
            total_violations: self.total_violations,
            blocked_count: self.total_blocked,
            throttled_count: self.total_throttled,
            policies_loaded,
            uptime_seconds: uptime,
        }
    }

    /// The governor's status now.
    pub fn status(&self) -> (st: GovernorStatus)
        requires
            self.wf(),
        ensures
            st.enabled == self.enabled(),
            st.active_executions == self.active_count(),
            st.total_violations == self.violation_count(),
            st.blocked_count == self.blocked_count(),
            st.throttled_count == self.throttled_count(),
            st.policies_loaded == self.policy_manager()@.len(),
    {
        self.status_at(crate::clock::now_millis())
    }

    /// Counters and the memory, CPU and FFI usage summed over the tracked
    /// executions (sums saturate at the largest `u64`).
    pub fn metrics_snapshot(&self) -> (m: GovernorMetricsSnapshot)
        ensures
            m == (GovernorMetricsSnapshot {
                active_executions: self.active_count(),
                blocked_total: self.blocked_count(),
                throttled_total: self.throttled_count(),
                policy_violations_total: self.violation_count(),
                memory_usage_bytes: total_memory(self.executions_seq()),
                cpu_time_ms: total_cpu(self.executions_seq()),
                ffi_calls_total: total_ffi(self.executions_seq()),
            }),
    {
        let mut mem: u64 = 0;
        let mut cpu: u64 = 0;
        let mut ffi: u64 = 0;
        let mut i: usize = 0;
        while i < self.executions.len()
            invariant
                i <= self.executions@.len(),
                mem == total_memory(self.executions@.take(i as int)),
                cpu == total_cpu(self.executions@.take(i as int)),
                ffi == total_ffi(self.executions@.take(i as int)),
            decreases self.executions@.len() - i,
        {
            let e = &self.executions[i];
            assert(self.executions@.take(i + 1).drop_last() =~= self.executions@.take(i as int));
            assert(self.executions@.take(i + 1).last() == *e);
            assert(total_memory(self.executions@.take(i + 1)) == mem.saturating_add(
                e.usage.memory.allocated_bytes,
            ));
            assert(total_cpu(self.executions@.take(i + 1)) == cpu.saturating_add(
                e.usage.cpu.cpu_time_ms,
            ));
            assert(total_ffi(self.executions@.take(i + 1)) == ffi.saturating_add(
                e.usage.ffi.calls,
            ));
            mem = mem.saturating_add(e.usage.memory.allocated_bytes);
            cpu = cpu.saturating_add(e.usage.cpu.cpu_time_ms);
            ffi = ffi.saturating_add(e.usage.ffi.calls);
            i = i + 1;
        }
        assert(self.executions@.take(i as int) =~= self.executions@);
        GovernorMetricsSnapshot {
            active_executions: self.active_executions,
            blocked_total: self.total_blocked,
            throttled_total: self.total_throttled,
            policy_violations_total: self.total_violations,
            memory_usage_bytes: mem,
            cpu_time_ms: cpu,
            ffi_calls_total: ffi,
        }
    }

    /// Copies of all policies, in manager order.
    pub fn policies(&self) -> (r: Vec<Policy>)
        ensures
            r@.map_values(|p: Policy| p@) == self.policy_manager().policy_seq(),
    {
        self.policies.list_policies()
    }

    /// Adds or replaces policy `name` with the given limits and action; a
    /// scope that does not parse makes the policy global.
    pub fn update_policy(
        &mut self,
        name: &str,
        limits: ExecutionLimits,
        action: EnforcementAction,
        scope: String,
    )
        requires
            old(self).wf(),
        ensures
            final(self).wf(),
            final(self).policy_manager()@ == old(self).policy_manager()@.insert(
                name@,
                PolicyView {
                    name: name@,
                    scope: match parse_scope_spec(scope@) {
                        Some(sc) => sc,
                        None => ScopeView::Global,
                    },
                    limits,
                    action,
                },
            ),
            final(self).policy_manager().default_name() == old(self).policy_manager().default_name(),
            final(self).executions_seq() == old(self).executions_seq(),
            final(self).violations_seq() == old(self).violations_seq(),
    {
        let scope = match PolicyManager::parse_scope(scope.as_str()) {
            Some(sc) => sc,
            None => PolicyScope::Global,
        };
        let policy = Policy { name: owned(name), scope, limits, action };
        self.policies.add_policy(policy);
    }
}

/// The violation log never holds more than `VIOLATION_LOG_CAP` entries.
pub proof fn lemma_violation_log_bounded(e: GovernorEngine)
    requires
        e.wf(),
    ensures
        e.violations_seq().len() <= VIOLATION_LOG_CAP,
{
}

/// Recording a violation keeps the log within its cap and keeps the new
/// violation as the most recent entry.
pub proof fn lemma_log_append_bounded(s: Seq<Violation>, v: Violation)
    requires
        s.len() <= VIOLATION_LOG_CAP,
    ensures
        log_append(s, v).len() <= VIOLATION_LOG_CAP,
        log_append(s, v).last() == v,
        log_append(s, v).len() > 0,
{
}
} // verus!
