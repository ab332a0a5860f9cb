//! Request routing across the nodes of a cluster.
//!
//! The gateway keeps a table of nodes with their health, load and circuit
//! breaker, and picks the node a request goes to: a domain's local node,
//! a preferred node, a node holding the key's shard, or one chosen by the
//! configured strategy among the available nodes. A node's smoothed
//! latency is a measurement the caller keeps; the table holds an integer
//! key that orders nodes as their latencies do.

use vstd::prelude::*;
use crate::cluster::domain::{DataDomain, DataDomainManager, DataDomainView};
use crate::format::{decimal, decimal_string};
use crate::text::{contains_word, copy_strings, owned, starts_with, str_eq, word_views};
use vstd::string::StringExecFns;

verus! {

/// How the gateway picks a node among the candidates.
#[derive(Debug, Clone, Copy, PartialEq, Eq, Structural)]
pub enum NodeSelectorStrategy {
    /// Take the candidates in turn.
    RoundRobin,
    /// The candidate with the fewest active connections.
    LeastLoaded,
    /// The candidate with the lowest smoothed latency.
    LowestLatency,
    /// A candidate at random (shard holders are preferred before).
    ShardAware,
    /// A candidate at random.
    Random,
    /// The local node for keys of a data domain, else at random.
    DomainAware,
}

impl Default for NodeSelectorStrategy {
    fn default() -> (s: Self)
        ensures
            s == NodeSelectorStrategy::LeastLoaded,
    {
        NodeSelectorStrategy::LeastLoaded
    }
}

/// Health of a node as the gateway sees it.
#[derive(Debug, Clone, Copy, PartialEq, Eq, Structural)]
pub enum NodeHealth {
    /// Answering normally.
    Healthy,
    /// Failing now and then.
    Degraded,
    /// Cut off by its circuit breaker.
    Unhealthy,
    /// Not checked yet.
    Unknown,
}

/// The latency key of a node that has not been measured yet: the bits of
/// the floating-point value 50.0 (milliseconds). For non-negative values
/// the bit patterns order as the values do.
pub const INITIAL_LATENCY_KEY: u64 = 0x4049_0000_0000_0000;

/// A node the gateway routes to.
#[derive(Debug)]
pub struct GatewayNode {
    /// Node identifier.
    pub node_id: String,
    /// Host name or address.
    pub host: String,
    /// Port.
    pub port: u16,
    /// Current health.
    pub health: NodeHealth,
    /// Connections in use.
    pub active_connections: u32,
    /// Key of the node's smoothed latency: keys order as latencies do.
    pub latency_key: u64,
    /// When the node was last heard from (ms).
    pub last_seen: u64,
    /// Failures since the last success.
    pub consecutive_failures: u32,
    /// Whether the circuit breaker is open.
    pub circuit_open: bool,
    /// Until when an open circuit stays open (ms).
    pub circuit_open_until: u64,
    /// Shard key prefixes the node holds.
    pub shards: Vec<String>,
}

/// A gateway node as plain values.
pub struct GatewayNodeView {
    pub node_id: Seq<char>,
    pub host: Seq<char>,
    pub port: u16,
    pub health: NodeHealth,
    pub active_connections: u32,
    pub latency_key: u64,
    pub last_seen: u64,
    pub consecutive_failures: u32,
    pub circuit_open: bool,
    pub circuit_open_until: u64,
    pub shards: Seq<Seq<char>>,
}

impl View for GatewayNode {
    type V = GatewayNodeView;

    open spec fn view(&self) -> GatewayNodeView {
        GatewayNodeView {
            node_id: self.node_id@,
            host: self.host@,
            port: self.port,
            health: self.health,
            active_connections: self.active_connections,
            latency_key: self.latency_key,
            last_seen: self.last_seen,
            consecutive_failures: self.consecutive_failures,
            circuit_open: self.circuit_open,
            circuit_open_until: self.circuit_open_until,
            shards: word_views(self.shards@),
        }
    }
}

impl GatewayNode {
    /// A copy of the node.
    pub fn copy(&self) -> (r: GatewayNode)
        ensures
            r@ == self@,
    {
        GatewayNode {
            node_id: self.node_id.clone(),
            host: self.host.clone(),
            port: self.port,
            health: self.health,
            active_connections: self.active_connections,
            latency_key: self.latency_key,
            last_seen: self.last_seen,
            consecutive_failures: self.consecutive_failures,
            circuit_open: self.circuit_open,
            circuit_open_until: self.circuit_open_until,
            shards: copy_strings(&self.shards),
        }
    }
}

/// Gateway settings.
#[derive(Debug)]
pub struct GatewayConfig {
    /// How nodes are picked.
    pub strategy: NodeSelectorStrategy,
    /// Interval between health checks (ms).
    pub health_check_interval_ms: u64,
    /// Timeout of one health check (ms).
    pub health_check_timeout_ms: u64,
    /// Consecutive failures that open a node's circuit.
    pub circuit_breaker_threshold: u32,
    /// How long an opened circuit stays open (ms).
    pub circuit_breaker_reset_ms: u64,
    /// Connection pool size per node.
    pub max_connections_per_node: u32,
    /// Connection timeout (ms).
    pub connection_timeout_ms: u64,
    /// How long resolved addresses are cached (ms).
    pub dns_cache_ttl_ms: u64,
}

impl Default for GatewayConfig {
    fn default() -> (c: Self)
        ensures
            c == (GatewayConfig {
                strategy: NodeSelectorStrategy::LeastLoaded,
                health_check_interval_ms: 5000,
                health_check_timeout_ms: 2000,
                circuit_breaker_threshold: 5,
                circuit_breaker_reset_ms: 30000,
                max_connections_per_node: 1000,
                connection_timeout_ms: 5000,
                dns_cache_ttl_ms: 60000,
            }),
    {
        GatewayConfig {
            strategy: NodeSelectorStrategy::LeastLoaded,
            health_check_interval_ms: 5000,
            health_check_timeout_ms: 2000,
            circuit_breaker_threshold: 5,
            circuit_breaker_reset_ms: 30000,
            max_connections_per_node: 1000,
            connection_timeout_ms: 5000,
            dns_cache_ttl_ms: 60000,
        }
    }
}

/// Where a request goes.
#[derive(Debug)]
pub struct RouteDecision {
    /// Chosen node.
    pub node_id: String,
    /// Its host.
    pub host: String,
    /// Its port.
    pub port: u16,
    /// How it was chosen.
    pub strategy_used: NodeSelectorStrategy,
    /// Latency key of the node (see [`GatewayNode::latency_key`]).
    pub latency_key: u64,
    /// Its health.
    pub node_health: NodeHealth,
}

/// Whether `r` routes to node `n`, chosen by `strategy`.
pub open spec fn routes_to(r: RouteDecision, n: GatewayNodeView, strategy: NodeSelectorStrategy) -> bool {
    &&& r.node_id@ == n.node_id
    &&& r.host@ == n.host
    &&& r.port == n.port
    &&& r.strategy_used == strategy
    &&& r.latency_key == n.latency_key
    &&& r.node_health == n.health
}

/// The route to a node, chosen by `strategy`.
fn route_to(n: &GatewayNode, strategy: NodeSelectorStrategy) -> (r: RouteDecision)
    ensures
        routes_to(r, n@, strategy),
{
    RouteDecision {
        node_id: n.node_id.clone(),
        host: n.host.clone(),
        port: n.port,
        strategy_used: strategy,
        latency_key: n.latency_key,
        node_health: n.health,
    }
}

/// The nodes as plain values.
pub open spec fn node_views(nodes: Seq<GatewayNode>) -> Seq<GatewayNodeView> {
    nodes.map_values(|n: GatewayNode| n@)
}

/// The position of the first node with id `id`, or -1.
pub open spec fn first_index(nodes: Seq<GatewayNodeView>, id: Seq<char>) -> int
    decreases nodes.len(),
{
    if nodes.len() == 0 {
        -1
    } else {
        let p = first_index(nodes.drop_last(), id);
        if p >= 0 {
            p
        } else if nodes.last().node_id == id {
            nodes.len() - 1
        } else {
            -1
        }
    }
}

/// What `first_index` says: -1 when no node has the id, else a position
/// with that id and none before it.
pub proof fn lemma_first_index(nodes: Seq<GatewayNodeView>, id: Seq<char>)
    ensures
        -1 <= first_index(nodes, id) < nodes.len(),
        first_index(nodes, id) == -1 ==> forall|j: int| 0 <= j < nodes.len() ==> nodes[j].node_id != id,
        first_index(nodes, id) >= 0 ==> nodes[first_index(nodes, id)].node_id == id && forall|j: int|
            0 <= j < first_index(nodes, id) ==> nodes[j].node_id != id,
    decreases nodes.len(),
{
    if nodes.len() > 0 {
        lemma_first_index(nodes.drop_last(), id);
        assert forall|j: int| 0 <= j < nodes.len() - 1 implies nodes[j] == nodes.drop_last()[j] by {}
    }
}

/// The position of the first node with id `id`.
fn find_node(nodes: &Vec<GatewayNode>, id: &str) -> (r: Option<usize>)
    ensures
        r is None <==> first_index(node_views(nodes@), id@) == -1,
        r matches Some(i) ==> i == first_index(node_views(nodes@), id@) && i < nodes@.len(),
{
    let ghost vs = node_views(nodes@);
    proof {
        lemma_first_index(vs, id@);
    }
    let mut i: usize = 0;
    while i < nodes.len()
        invariant
            vs == node_views(nodes@),
            i <= nodes@.len(),
            forall|j: int| 0 <= j < i ==> vs[j].node_id != id@,
            -1 <= first_index(vs, id@) < vs.len(),
            first_index(vs, id@) == -1 ==> forall|j: int| 0 <= j < vs.len() ==> vs[j].node_id != id@,
            first_index(vs, id@) >= 0 ==> vs[first_index(vs, id@)].node_id == id@ && forall|j: int|
                0 <= j < first_index(vs, id@) ==> vs[j].node_id != id@,
        decreases nodes@.len() - i,
    {
        if str_eq(nodes[i].node_id.as_str(), id) {
            assert(vs[i as int].node_id == id@);
            return Some(i);
        }
        i = i + 1;
    }
    None
}

/// The node table after `id` is registered on `host:port` with `shards` at
/// `now`: a known node takes the new address and shards and counts as
/// healthy; a new node is added, unchecked and unmeasured.
pub open spec fn after_register(
    nodes: Seq<GatewayNodeView>,
    id: Seq<char>,
    host: Seq<char>,
    port: u16,
    shards: Seq<Seq<char>>,
    now: u64,
) -> Seq<GatewayNodeView> {
    let i = first_index(nodes, id);
    if i >= 0 {
        nodes.update(
            i,
            GatewayNodeView { host, port, shards, health: NodeHealth::Healthy, last_seen: now, ..nodes[i] },
        )
    } else {
        nodes.push(
            GatewayNodeView {
                node_id: id,
                host,
                port,
                health: NodeHealth::Unknown,
                active_connections: 0,
                latency_key: INITIAL_LATENCY_KEY,
                last_seen: now,
                consecutive_failures: 0,
                circuit_open: false,
                circuit_open_until: 0,
                shards,
            },
        )
    }
}

/// The nodes other than `id`, in order.
pub open spec fn without_id(nodes: Seq<GatewayNodeView>, id: Seq<char>) -> Seq<GatewayNodeView>
    decreases nodes.len(),
{
    if nodes.len() == 0 {
        Seq::empty()
    } else {
        let rest = without_id(nodes.drop_last(), id);
        if nodes.last().node_id == id {
            rest
        } else {
            rest.push(nodes.last())
        }
    }
}

/// Whether a node can take requests at `now`: healthy or degraded, and its
/// circuit closed or due to close.
pub open spec fn available(n: GatewayNodeView, now: u64) -> bool {
    &&& (n.health == NodeHealth::Healthy || n.health == NodeHealth::Degraded)
    &&& (!n.circuit_open || n.circuit_open_until <= now)
}

/// The nodes that can take requests at `now`, in order.
pub open spec fn available_nodes(nodes: Seq<GatewayNodeView>, now: u64) -> Seq<GatewayNodeView>
    decreases nodes.len(),
{
    if nodes.len() == 0 {
        Seq::empty()
    } else {
        let rest = available_nodes(nodes.drop_last(), now);
        if available(nodes.last(), now) {
            rest.push(nodes.last())
        } else {
            rest
        }
    }
}

/// The healthy nodes with a closed circuit, in order.
pub open spec fn healthy_nodes(nodes: Seq<GatewayNodeView>) -> Seq<GatewayNodeView>
    decreases nodes.len(),
{
    if nodes.len() == 0 {
        Seq::empty()
    } else {
        let rest = healthy_nodes(nodes.drop_last());
        if nodes.last().health == NodeHealth::Healthy && !nodes.last().circuit_open {
            rest.push(nodes.last())
        } else {
            rest
        }
    }
}

/// The number of healthy nodes.
pub open spec fn healthy_count(nodes: Seq<GatewayNodeView>) -> nat
    decreases nodes.len(),
{
    if nodes.len() == 0 {
        0
    } else {
        healthy_count(nodes.drop_last()) + if nodes.last().health == NodeHealth::Healthy {
            1nat
        } else {
            0nat
        }
    }
}

/// The request counters of a gateway.
#[derive(Debug)]
pub struct GatewayCounters {
    /// Requests asked to be routed.
    pub total_requests: u64,
    /// Requests given a node.
    pub routed_requests: u64,
    /// Requests that failed.
    pub failed_requests: u64,
    /// Circuit breakers opened.
    pub circuit_breaks_triggered: u64,
    /// Nodes in the table at the last health round.
    pub active_nodes: usize,
    /// Healthy nodes at the last health round.
    pub healthy_nodes: usize,
}

/// Routes requests to the nodes of a cluster.
pub struct ClusterGateway {
    /// ID of the local node.
    pub node_id: String,
    /// Settings.
    pub config: GatewayConfig,
    /// The node table.
    pub nodes: Vec<GatewayNode>,
    /// Position of the next round-robin pick.
    pub round_robin_index: usize,
    /// Request counters.
    pub counters: GatewayCounters,
}

impl ClusterGateway {
    /// A gateway for the local node with an empty table.
    pub fn new(node_id: String, config: GatewayConfig) -> (g: Self)
        ensures
            g.node_id == node_id,
            g.config == config,
            g.nodes@.len() == 0,
            g.round_robin_index == 0,
            g.counters == (GatewayCounters {
                total_requests: 0,
                routed_requests: 0,
                failed_requests: 0,
                circuit_breaks_triggered: 0,
                active_nodes: 0,
                healthy_nodes: 0,
            }),
    {
        ClusterGateway {
            node_id,
            config,
            nodes: Vec::new(),
            round_robin_index: 0,
            counters: GatewayCounters {
                total_requests: 0,
                routed_requests: 0,
                failed_requests: 0,
                circuit_breaks_triggered: 0,
                active_nodes: 0,
                healthy_nodes: 0,
            },
        }
    }

    /// Registers a node at `now_ms`: a known node takes the new address and
    /// shards and counts as healthy; a new one is added, unchecked.
    pub fn register_node(&mut self, node_id: &str, host: &str, port: u16, shards: Vec<String>, now_ms: u64)
        ensures
            node_views(final(self).nodes@) == after_register(
                node_views(old(self).nodes@),
                node_id@,
                host@,
                port,
                word_views(shards@),
                now_ms,
            ),
            final(self).config == old(self).config,
            final(self).node_id == old(self).node_id,
            final(self).counters == old(self).counters,
            final(self).round_robin_index == old(self).round_robin_index,
    {
        let ghost vs = node_views(self.nodes@);
        let ghost sv = word_views(shards@);
        match find_node(&self.nodes, node_id) {
            Some(i) => {
                let mut n = self.nodes[i].copy();
                n.host = owned(host);
                n.port = port;
                n.shards = shards;
                n.health = NodeHealth::Healthy;
                n.last_seen = now_ms;
                let ghost nv = n@;
                self.nodes.set(i, n);
                assert(node_views(self.nodes@) =~= vs.update(i as int, nv));
            },
            None => {
                let n = GatewayNode {
                    node_id: owned(node_id),
                    host: owned(host),
                    port,
                    health: NodeHealth::Unknown,
                    active_connections: 0,
                    latency_key: INITIAL_LATENCY_KEY,
                    last_seen: now_ms,
                    consecutive_failures: 0,
                    circuit_open: false,
                    circuit_open_until: 0,
                    shards,
                };
                let ghost nv = n@;
                self.nodes.push(n);
                assert(node_views(self.nodes@) =~= vs.push(nv));
            },
        }
    }

    /// Removes every node with this id.
    pub fn remove_node(&mut self, node_id: &str)
        ensures
            node_views(final(self).nodes@) == without_id(node_views(old(self).nodes@), node_id@),
            final(self).config == old(self).config,
            final(self).node_id == old(self).node_id,
            final(self).counters == old(self).counters,
            final(self).round_robin_index == old(self).round_robin_index,
    {
        let ghost vs = node_views(self.nodes@);
        let mut kept: Vec<GatewayNode> = Vec::new();
        let mut i: usize = 0;
        assert(vs.take(0) =~= Seq::<GatewayNodeView>::empty());
        assert(node_views(kept@) =~= Seq::<GatewayNodeView>::empty());
        while i < self.nodes.len()
            invariant
                vs == node_views(self.nodes@),
                i <= self.nodes@.len(),
                node_views(kept@) == without_id(vs.take(i as int), node_id@),
            decreases self.nodes@.len() - i,
        {
            assert(vs.take(i + 1).drop_last() =~= vs.take(i as int));
            if !str_eq(self.nodes[i].node_id.as_str(), node_id) {
                let ghost before = node_views(kept@);
                let c = self.nodes[i].copy();
                kept.push(c);
                assert(node_views(kept@) =~= before.push(vs[i as int]));
            }
            i = i + 1;
        }
        assert(vs.take(vs.len() as int) =~= vs);
        self.nodes = kept;
    }

    /// Records a successful request to a node: its failures reset, it
    /// counts as healthy, seen at `now_ms`, and takes `latency_key` as the
    /// key of its new smoothed latency. Unknown ids change nothing.
    pub fn record_success(&mut self, node_id: &str, latency_key: u64, now_ms: u64)
        ensures
            ({
                let vs = node_views(old(self).nodes@);
                let i = first_index(vs, node_id@);
                node_views(final(self).nodes@) == if i >= 0 {
                    vs.update(
                        i,
                        GatewayNodeView {
                            consecutive_failures: 0,
                            latency_key,
                            health: NodeHealth::Healthy,
                            last_seen: now_ms,
                            ..vs[i]
                        },
                    )
                } else {
                    vs
                }
            }),
            final(self).config == old(self).config,
            final(self).node_id == old(self).node_id,
            final(self).counters == old(self).counters,
            final(self).round_robin_index == old(self).round_robin_index,
    {
        let ghost vs = node_views(self.nodes@);
        match find_node(&self.nodes, node_id) {
            Some(i) => {
                let mut n = self.nodes[i].copy();
                n.consecutive_failures = 0;
                n.latency_key = latency_key;
                n.health = NodeHealth::Healthy;
                n.last_seen = now_ms;
                let ghost nv = n@;
                self.nodes.set(i, n);
                assert(node_views(self.nodes@) =~= vs.update(i as int, nv));
            },
            None => {},
        }
    }

    /// Records a failed request to a node at `now_ms`: its failure count
    /// rises; at the breaker threshold its circuit opens until `now_ms`
    /// plus the reset time and it counts as unhealthy (one more circuit
    /// break), below it the node counts as degraded. The failed-request
    /// counter rises in any case.
    pub fn record_failure(&mut self, node_id: &str, now_ms: u64)
        requires
            old(self).counters.failed_requests < u64::MAX,
            old(self).counters.circuit_breaks_triggered < u64::MAX,
            now_ms + old(self).config.circuit_breaker_reset_ms <= u64::MAX,
            forall|j: int|
                0 <= j < old(self).nodes@.len() && (#[trigger] old(self).nodes@[j]).node_id@ == node_id@
                    ==> old(self).nodes@[j].consecutive_failures < u32::MAX,
        ensures
            ({
                let vs = node_views(old(self).nodes@);
                let i = first_index(vs, node_id@);
                let failures = (vs[i].consecutive_failures + 1) as u32;
                let opens = i >= 0 && failures >= old(self).config.circuit_breaker_threshold;
                &&& node_views(final(self).nodes@) == if i < 0 {
                    vs
                } else if opens {
                    vs.update(
                        i,
                        GatewayNodeView {
                            consecutive_failures: failures,
                            circuit_open: true,
                            circuit_open_until: (now_ms + old(self).config.circuit_breaker_reset_ms) as u64,
                            health: NodeHealth::Unhealthy,
                            ..vs[i]
                        },
                    )
                } else {
                    vs.update(i, GatewayNodeView { consecutive_failures: failures, health: NodeHealth::Degraded, ..vs[i] })
                }
                &&& final(self).counters == (GatewayCounters {
                    failed_requests: (old(self).counters.failed_requests + 1) as u64,
                    circuit_breaks_triggered: if opens {
                        (old(self).counters.circuit_breaks_triggered + 1) as u64
                    } else {
                        old(self).counters.circuit_breaks_triggered
                    },
                    ..old(self).counters
                })
            }),
            final(self).config == old(self).config,
            final(self).node_id == old(self).node_id,
            final(self).round_robin_index == old(self).round_robin_index,
    {
        let ghost vs = node_views(self.nodes@);
        match find_node(&self.nodes, node_id) {
            Some(i) => {
                proof {
                    lemma_first_index(vs, node_id@);
                    assert(vs[i as int] == self.nodes@[i as int]@);
                }
                let mut n = self.nodes[i].copy();
                n.consecutive_failures = n.consecutive_failures + 1;
                if n.consecutive_failures >= self.config.circuit_breaker_threshold {
                    n.circuit_open = true;
                    n.circuit_open_until = now_ms + self.config.circuit_breaker_reset_ms;
                    n.health = NodeHealth::Unhealthy;
                    self.counters.circuit_breaks_triggered = self.counters.circuit_breaks_triggered + 1;
                } else {
                    n.health = NodeHealth::Degraded;
                }
                let ghost nv = n@;
                self.nodes.set(i, n);
                assert(node_views(self.nodes@) =~= vs.update(i as int, nv));
            },
            None => {},
        }
        self.counters.failed_requests = self.counters.failed_requests + 1;
    }

    /// The healthy nodes whose circuit is closed, in table order.
    pub fn get_healthy_nodes(&self) -> (r: Vec<GatewayNode>)
        ensures
            node_views(r@) == healthy_nodes(node_views(self.nodes@)),
    {
        let ghost vs = node_views(self.nodes@);
        let mut r: Vec<GatewayNode> = Vec::new();
        let mut i: usize = 0;
        assert(vs.take(0) =~= Seq::<GatewayNodeView>::empty());
        assert(node_views(r@) =~= Seq::<GatewayNodeView>::empty());
        while i < self.nodes.len()
            invariant
                vs == node_views(self.nodes@),
                i <= self.nodes@.len(),
                node_views(r@) == healthy_nodes(vs.take(i as int)),
            decreases self.nodes@.len() - i,
        {
            assert(vs.take(i + 1).drop_last() =~= vs.take(i as int));
            let n = &self.nodes[i];
            if n.health == NodeHealth::Healthy && !n.circuit_open {
                let ghost before = node_views(r@);
                r.push(n.copy());
                assert(node_views(r@) =~= before.push(vs[i as int]));
            }
            i = i + 1;
        }
        assert(vs.take(vs.len() as int) =~= vs);
        r
    }

    /// A copy of the node table.
    pub fn get_nodes(&self) -> (r: Vec<GatewayNode>)
        ensures
            node_views(r@) == node_views(self.nodes@),
    {
        let ghost vs = node_views(self.nodes@);
        let mut r: Vec<GatewayNode> = Vec::new();
        let mut i: usize = 0;
        while i < self.nodes.len()
            invariant
                vs == node_views(self.nodes@),
                i <= self.nodes@.len(),
                node_views(r@) == vs.take(i as int),
            decreases self.nodes@.len() - i,
        {
            let ghost before = node_views(r@);
            r.push(self.nodes[i].copy());
            assert(node_views(r@) =~= before.push(vs[i as int]));
            assert(vs.take(i + 1) =~= vs.take(i as int).push(vs[i as int]));
            i = i + 1;
        }
        assert(vs.take(vs.len() as int) =~= vs);
        r
    }

    /// Updates the node counts after a round of health checks: all nodes,
    /// and the healthy ones.
    pub fn refresh_node_counts(&mut self)
        ensures
            final(self).counters.active_nodes == old(self).nodes@.len(),
            final(self).counters.healthy_nodes == healthy_count(node_views(old(self).nodes@)),
            final(self).counters.total_requests == old(self).counters.total_requests,
            final(self).counters.routed_requests == old(self).counters.routed_requests,
            final(self).counters.failed_requests == old(self).counters.failed_requests,
            final(self).counters.circuit_breaks_triggered == old(self).counters.circuit_breaks_triggered,
            final(self).nodes == old(self).nodes,
            final(self).config == old(self).config,
            final(self).node_id == old(self).node_id,
            final(self).round_robin_index == old(self).round_robin_index,
    {
        let ghost vs = node_views(self.nodes@);
        let mut count: usize = 0;
        let mut i: usize = 0;
        assert(vs.take(0) =~= Seq::<GatewayNodeView>::empty());
        while i < self.nodes.len()
            invariant
                vs == node_views(self.nodes@),
                i <= self.nodes@.len(),
                count == healthy_count(vs.take(i as int)),
                count <= i,
            decreases self.nodes@.len() - i,
        {
            assert(vs.take(i + 1).drop_last() =~= vs.take(i as int));
            if self.nodes[i].health == NodeHealth::Healthy {
                count = count + 1;
            }
            i = i + 1;
        }
        assert(vs.take(vs.len() as int) =~= vs);
        self.counters.active_nodes = self.nodes.len();
        self.counters.healthy_nodes = count;
    }
}

/// The position, among `s`, of the first node with the least connection
/// count (`by_latency` false) or the least latency key (`by_latency` true).
pub open spec fn first_min(s: Seq<GatewayNodeView>, by_latency: bool) -> int
    decreases s.len(),
{
    if s.len() <= 1 {
        0
    } else {
        let p = first_min(s.drop_last(), by_latency);
        if sort_key(s.last(), by_latency) < sort_key(s[p], by_latency) {
            s.len() - 1
        } else {
            p
        }
    }
}

/// The key nodes are compared by: connections, or latency key.
pub open spec fn sort_key(n: GatewayNodeView, by_latency: bool) -> int {
    if by_latency {
        n.latency_key as int
    } else {
        n.active_connections as int
    }
}

/// What `first_min` says: a position whose key is the least of all and
/// greater than no key before it.
pub proof fn lemma_first_min(s: Seq<GatewayNodeView>, by_latency: bool)
    requires
        s.len() > 0,
    ensures
        0 <= first_min(s, by_latency) < s.len(),
        forall|j: int| 0 <= j < s.len() ==> sort_key(s[first_min(s, by_latency)], by_latency) <= sort_key(#[trigger] s[j], by_latency),
        forall|j: int| 0 <= j < first_min(s, by_latency) ==> sort_key(s[first_min(s, by_latency)], by_latency) < sort_key(#[trigger] s[j], by_latency),
    decreases s.len(),
{
    if s.len() > 1 {
        lemma_first_min(s.drop_last(), by_latency);
        assert forall|j: int| 0 <= j < s.len() - 1 implies s[j] == s.drop_last()[j] by {}
    }
}

/// The position among the candidates that `strategy` picks: the next in
/// turn for round robin, the first least loaded or lowest-latency one, or
/// the one `random` points at.
pub open spec fn pick_index(c: Seq<GatewayNodeView>, strategy: NodeSelectorStrategy, rr: nat, random: u64) -> int {
    match strategy {
        NodeSelectorStrategy::RoundRobin => (rr % c.len()) as int,
        NodeSelectorStrategy::LeastLoaded => first_min(c, false),
        NodeSelectorStrategy::LowestLatency => first_min(c, true),
        _ => (random as int) % (c.len() as int),
    }
}

/// The position of the first candidate with the least key.
fn first_min_index(c: &Vec<GatewayNode>, by_latency: bool) -> (r: usize)
    requires
        c@.len() > 0,
    ensures
        r == first_min(node_views(c@), by_latency),
{
    let ghost vs = node_views(c@);
    let mut best: usize = 0;
    let mut i: usize = 1;
    assert(vs.take(1).drop_last() =~= Seq::<GatewayNodeView>::empty());
    while i < c.len()
        invariant
            vs == node_views(c@),
            1 <= i <= c@.len(),
            best < i,
            best == first_min(vs.take(i as int), by_latency),
        decreases c@.len() - i,
    {
        assert(vs.take(i + 1).drop_last() =~= vs.take(i as int));
        assert(vs.take(i + 1)[best as int] == vs[best as int]);
        let better = if by_latency {
            c[i].latency_key < c[best].latency_key
        } else {
            c[i].active_connections < c[best].active_connections
        };
        if better {
            best = i;
        }
        i = i + 1;
    }
    assert(vs.take(vs.len() as int) =~= vs);
    best
}

/// The route to an unknown node: what selection gives with no candidate.
pub open spec fn is_empty_route(r: RouteDecision, strategy: NodeSelectorStrategy) -> bool {
    &&& r.node_id@ == "none"@
    &&& r.host@ == "0.0.0.0"@
    &&& r.port == 0
    &&& r.strategy_used == strategy
    &&& r.latency_key == 0
    &&& r.node_health == NodeHealth::Unknown
}

/// Picks one of `candidates` by `strategy`, advancing the round-robin
/// position when it is used; with no candidate, the route to no node.
pub fn select_best_node(
    candidates: &Vec<GatewayNode>,
    strategy: NodeSelectorStrategy,
    round_robin_index: &mut usize,
    random: u64,
) -> (r: RouteDecision)
    requires
        *old(round_robin_index) < usize::MAX,
    ensures
        candidates@.len() == 0 ==> is_empty_route(r, strategy) && *final(round_robin_index) == *old(
            round_robin_index,
        ),
        candidates@.len() > 0 ==> routes_to(
            r,
            node_views(candidates@)[pick_index(node_views(candidates@), strategy, *old(round_robin_index) as nat, random)],
            strategy,
        ),
        *final(round_robin_index) == if candidates@.len() > 0 && strategy == NodeSelectorStrategy::RoundRobin {
            (*old(round_robin_index) + 1) as usize
        } else {
            *old(round_robin_index)
        },
{
    let n = candidates.len();
    if n == 0 {
        return RouteDecision {
            node_id: owned("none"),
            host: owned("0.0.0.0"),
            port: 0,
            strategy_used: strategy,
            latency_key: 0,
            node_health: NodeHealth::Unknown,
        };
    }
    let idx: usize = match strategy {
        NodeSelectorStrategy::RoundRobin => {
            let k = *round_robin_index % n;
            *round_robin_index = *round_robin_index + 1;
            k
        },
        NodeSelectorStrategy::LeastLoaded => first_min_index(candidates, false),
        NodeSelectorStrategy::LowestLatency => first_min_index(candidates, true),
        _ => {
            let k = (random % (n as u64)) as usize;
            k
        },
    };
    proof {
        if strategy == NodeSelectorStrategy::LeastLoaded {
            lemma_first_min(node_views(candidates@), false);
        }
        if strategy == NodeSelectorStrategy::LowestLatency {
            lemma_first_min(node_views(candidates@), true);
        }
    }
    route_to(&candidates[idx], strategy)
}

/// Whether node `n` holds a shard whose prefix begins `key`.
pub open spec fn holds_key(n: GatewayNodeView, key: Seq<char>) -> bool {
    exists|j: int| 0 <= j < n.shards.len() && (#[trigger] n.shards[j]).is_prefix_of(key)
}

/// The nodes holding a shard of `key`, in order.
pub open spec fn key_holders(nodes: Seq<GatewayNodeView>, key: Seq<char>) -> Seq<GatewayNodeView>
    decreases nodes.len(),
{
    if nodes.len() == 0 {
        Seq::empty()
    } else {
        let rest = key_holders(nodes.drop_last(), key);
        if holds_key(nodes.last(), key) {
            rest.push(nodes.last())
        } else {
            rest
        }
    }
}

/// The node of the first of `ids` (other than `skip`) that is in the
/// table, in the order of `ids`.
pub open spec fn first_listed(nodes: Seq<GatewayNodeView>, ids: Seq<Seq<char>>, skip: Option<Seq<char>>) -> Option<
    GatewayNodeView,
>
    decreases ids.len(),
{
    if ids.len() == 0 {
        None
    } else {
        let p = first_listed(nodes, ids.drop_last(), skip);
        if p is Some {
            p
        } else if Some(ids.last()) != skip && first_index(nodes, ids.last()) >= 0 {
            Some(nodes[first_index(nodes, ids.last())])
        } else {
            None
        }
    }
}

/// Whether a domain's collections or tables begin `key`.
pub open spec fn covers_key(d: DataDomainView, key: Seq<char>) -> bool {
    ||| exists|j: int| 0 <= j < d.collections.len() && (#[trigger] d.collections[j]).is_prefix_of(key)
    ||| exists|j: int| 0 <= j < d.tables.len() && (#[trigger] d.tables[j]).is_prefix_of(key)
}

/// Where a request goes, before the strategy picks among candidates.
pub enum RouteChoice {
    /// To this node, chosen in this way.
    Node(GatewayNodeView, NodeSelectorStrategy),
    /// To one of these candidates, picked by the strategy.
    Among(Seq<GatewayNodeView>),
    /// Nowhere: no node can take requests.
    NoNode,
}

/// The routing rule: with the domain-aware strategy a key that a domain
/// covers goes to the local node when it is in the table; otherwise among
/// the available nodes the first preferred one is taken, else one of the
/// nodes holding the key's shard, else one of all of them.
pub open spec fn route_choice(
    nodes: Seq<GatewayNodeView>,
    me: Seq<char>,
    strategy: NodeSelectorStrategy,
    key: Option<Seq<char>>,
    preferred: Option<Seq<Seq<char>>>,
    domains: Option<Seq<DataDomainView>>,
    now: u64,
) -> RouteChoice {
    let healthy = available_nodes(nodes, now);
    if strategy == NodeSelectorStrategy::DomainAware && key is Some && domains is Some && (exists|d: int|
        0 <= d < domains->0.len() && covers_key(#[trigger] domains->0[d], key->0)) && first_index(nodes, me) >= 0 {
        RouteChoice::Node(nodes[first_index(nodes, me)], NodeSelectorStrategy::DomainAware)
    } else if healthy.len() == 0 {
        RouteChoice::NoNode
    } else if preferred is Some && first_listed(healthy, preferred->0, None) is Some {
        RouteChoice::Node(first_listed(healthy, preferred->0, None)->0, NodeSelectorStrategy::ShardAware)
    } else if key is Some && key_holders(healthy, key->0).len() > 0 {
        RouteChoice::Among(key_holders(healthy, key->0))
    } else {
        RouteChoice::Among(healthy)
    }
}

/// Every node that `available_nodes` keeps can take requests, and is one
/// of the given nodes.
pub proof fn lemma_available_nodes(nodes: Seq<GatewayNodeView>, now: u64)
    ensures
        forall|i: int|
            0 <= i < available_nodes(nodes, now).len() ==> available(#[trigger] available_nodes(nodes, now)[i], now)
                && nodes.contains(available_nodes(nodes, now)[i]),
    decreases nodes.len(),
{
    if nodes.len() > 0 {
        lemma_available_nodes(nodes.drop_last(), now);
        let rest = available_nodes(nodes.drop_last(), now);
        assert forall|i: int| 0 <= i < available_nodes(nodes, now).len() implies available(
            #[trigger] available_nodes(nodes, now)[i],
            now,
        ) && nodes.contains(available_nodes(nodes, now)[i]) by {
            if i < rest.len() {
                assert(available_nodes(nodes, now)[i] == rest[i]);
                let j = choose|j: int| 0 <= j < nodes.drop_last().len() && nodes.drop_last()[j] == rest[i];
                assert(nodes[j] == rest[i]);
            } else {
                assert(nodes[nodes.len() - 1] == nodes.last());
            }
        }
    }
}

/// Every node that `key_holders` keeps is one of the given nodes.
pub proof fn lemma_key_holders(nodes: Seq<GatewayNodeView>, key: Seq<char>)
    ensures
        forall|i: int| 0 <= i < key_holders(nodes, key).len() ==> nodes.contains(#[trigger] key_holders(nodes, key)[i]),
    decreases nodes.len(),
{
    if nodes.len() > 0 {
        lemma_key_holders(nodes.drop_last(), key);
        let rest = key_holders(nodes.drop_last(), key);
        assert forall|i: int| 0 <= i < key_holders(nodes, key).len() implies nodes.contains(
            #[trigger] key_holders(nodes, key)[i],
        ) by {
            if i < rest.len() {
                assert(key_holders(nodes, key)[i] == rest[i]);
                let j = choose|j: int| 0 <= j < nodes.drop_last().len() && nodes.drop_last()[j] == rest[i];
                assert(nodes[j] == rest[i]);
            } else {
                assert(nodes[nodes.len() - 1] == nodes.last());
            }
        }
    }
}

/// What `first_listed` finds is one of the given nodes.
pub proof fn lemma_first_listed(nodes: Seq<GatewayNodeView>, ids: Seq<Seq<char>>, skip: Option<Seq<char>>)
    ensures
        first_listed(nodes, ids, skip) matches Some(n) ==> nodes.contains(n),
    decreases ids.len(),
{
    if ids.len() > 0 {
        lemma_first_listed(nodes, ids.drop_last(), skip);
        lemma_first_index(nodes, ids.last());
    }
}

/// Routing never sends a request to a node that cannot take it, unless the
/// domain-aware strategy sends it to the local node: a preferred node is
/// available, every candidate the strategy picks among is available, and
/// the strategy picks one of the candidates.
pub proof fn lemma_routes_to_available_nodes(
    nodes: Seq<GatewayNodeView>,
    me: Seq<char>,
    strategy: NodeSelectorStrategy,
    key: Option<Seq<char>>,
    preferred: Option<Seq<Seq<char>>>,
    domains: Option<Seq<DataDomainView>>,
    now: u64,
    rr: nat,
    random: u64,
)
    ensures
        route_choice(nodes, me, strategy, key, preferred, domains, now) matches RouteChoice::Node(n, how) ==> (how
            == NodeSelectorStrategy::DomainAware || available(n, now)),
        route_choice(nodes, me, strategy, key, preferred, domains, now) matches RouteChoice::Among(c) ==> {
            &&& c.len() > 0
            &&& forall|i: int| 0 <= i < c.len() ==> available(#[trigger] c[i], now)
            &&& 0 <= pick_index(c, strategy, rr, random) < c.len()
        },
{
    let healthy = available_nodes(nodes, now);
    lemma_available_nodes(nodes, now);
    if let Some(k) = key {
        lemma_key_holders(healthy, k);
    }
    if let Some(p) = preferred {
        lemma_first_listed(healthy, p, None);
    }
    match route_choice(nodes, me, strategy, key, preferred, domains, now) {
        RouteChoice::Among(c) => {
            assert forall|i: int| 0 <= i < c.len() implies available(#[trigger] c[i], now) by {
                if key is Some && key_holders(healthy, key->0).len() > 0 {
                    assert(healthy.contains(c[i]));
                    let j = choose|j: int| 0 <= j < healthy.len() && healthy[j] == c[i];
                    assert(available(healthy[j], now));
                }
            }
            if strategy == NodeSelectorStrategy::LeastLoaded {
                lemma_first_min(c, false);
            }
            if strategy == NodeSelectorStrategy::LowestLatency {
                lemma_first_min(c, true);
            }
        },
        RouteChoice::Node(n, how) => {
            if how == NodeSelectorStrategy::ShardAware {
                let j = choose|j: int| 0 <= j < healthy.len() && healthy[j] == n;
                assert(available(healthy[j], now));
            }
        },
        RouteChoice::NoNode => {},
    }
}

/// The characters of an optional string slice.
pub open spec fn opt_str(o: Option<&str>) -> Option<Seq<char>> {
    match o {
        Some(s) => Some(s@),
        None => None,
    }
}

/// The domains of a manager, in registration order, if there is one.
pub open spec fn domain_list(dm: Option<&DataDomainManager>) -> Option<Seq<DataDomainView>> {
    match dm {
        Some(d) => Some(crate::cluster::domain::entry_domain_views(d.domains.entry_seq())),
        None => None,
    }
}

/// The ids of a list of preferred nodes, if there is one.
pub open spec fn opt_words(o: Option<&Vec<String>>) -> Option<Seq<Seq<char>>> {
    match o {
        Some(v) => Some(word_views(v@)),
        None => None,
    }
}

/// The available nodes of `nodes`, in order.
fn available_list(nodes: &Vec<GatewayNode>, now_ms: u64) -> (r: Vec<GatewayNode>)
    ensures
        node_views(r@) == available_nodes(node_views(nodes@), now_ms),
{
    let ghost vs = node_views(nodes@);
    let mut r: Vec<GatewayNode> = Vec::new();
    let mut i: usize = 0;
    assert(vs.take(0) =~= Seq::<GatewayNodeView>::empty());
    assert(node_views(r@) =~= Seq::<GatewayNodeView>::empty());
    while i < nodes.len()
        invariant
            vs == node_views(nodes@),
            i <= nodes@.len(),
            node_views(r@) == available_nodes(vs.take(i as int), now_ms),
        decreases nodes@.len() - i,
    {
        assert(vs.take(i + 1).drop_last() =~= vs.take(i as int));
        let n = &nodes[i];
        if (n.health == NodeHealth::Healthy || n.health == NodeHealth::Degraded) && (!n.circuit_open
            || n.circuit_open_until <= now_ms) {
            let ghost before = node_views(r@);
            r.push(n.copy());
            assert(node_views(r@) =~= before.push(vs[i as int]));
        }
        i = i + 1;
    }
    assert(vs.take(vs.len() as int) =~= vs);
    r
}

/// Whether one of `prefixes` begins `key`.
fn any_prefix(prefixes: &Vec<String>, key: &str) -> (b: bool)
    ensures
        b == exists|j: int| 0 <= j < prefixes@.len() && (#[trigger] word_views(prefixes@)[j]).is_prefix_of(key@),
{
    let ghost ws = word_views(prefixes@);
    let mut i: usize = 0;
    while i < prefixes.len()
        invariant
            ws == word_views(prefixes@),
            i <= prefixes@.len(),
            forall|j: int| 0 <= j < i ==> !(#[trigger] ws[j]).is_prefix_of(key@),
        decreases prefixes@.len() - i,
    {
        if starts_with(key, prefixes[i].as_str()) {
            assert(ws[i as int] == prefixes@[i as int]@);
            return true;
        }
        i = i + 1;
    }
    false
}

/// The nodes among `nodes` holding a shard of `key`, in order.
fn holders_of(nodes: &Vec<GatewayNode>, key: &str) -> (r: Vec<GatewayNode>)
    ensures
        node_views(r@) == key_holders(node_views(nodes@), key@),
{
    let ghost vs = node_views(nodes@);
    let mut r: Vec<GatewayNode> = Vec::new();
    let mut i: usize = 0;
    assert(vs.take(0) =~= Seq::<GatewayNodeView>::empty());
    assert(node_views(r@) =~= Seq::<GatewayNodeView>::empty());
    while i < nodes.len()
        invariant
            vs == node_views(nodes@),
            i <= nodes@.len(),
            node_views(r@) == key_holders(vs.take(i as int), key@),
        decreases nodes@.len() - i,
    {
        assert(vs.take(i + 1).drop_last() =~= vs.take(i as int));
        let held = any_prefix(&nodes[i].shards, key);
        assert(vs[i as int].shards == word_views(nodes@[i as int].shards@));
        assert(held == holds_key(vs[i as int], key@));
        if held {
            let ghost before = node_views(r@);
            r.push(nodes[i].copy());
            assert(node_views(r@) =~= before.push(vs[i as int]));
        }
        i = i + 1;
    }
    assert(vs.take(vs.len() as int) =~= vs);
    r
}

/// The position in `nodes` of the node of the first of `ids` (other than
/// `skip`) that is in the table.
fn first_listed_index(nodes: &Vec<GatewayNode>, ids: &Vec<String>, skip: Option<&str>) -> (r: Option<usize>)
    ensures
        first_listed(node_views(nodes@), word_views(ids@), opt_str(skip)) is None <==> r is None,
        r matches Some(i) ==> i < nodes@.len() && first_listed(node_views(nodes@), word_views(ids@), opt_str(skip))
            == Some(node_views(nodes@)[i as int]),
{
    let ghost vs = node_views(nodes@);
    let ghost ws = word_views(ids@);
    let mut k: usize = 0;
    assert(ws.take(0) =~= Seq::<Seq<char>>::empty());
    while k < ids.len()
        invariant
            vs == node_views(nodes@),
            ws == word_views(ids@),
            k <= ids@.len(),
            first_listed(vs, ws.take(k as int), opt_str(skip)) is None,
        decreases ids@.len() - k,
    {
        assert(ws.take(k + 1).drop_last() =~= ws.take(k as int));
        assert(ws.take(k + 1).last() == ids@[k as int]@);
        let skipped = match skip {
            Some(s) => str_eq(ids[k].as_str(), s),
            None => false,
        };
        if !skipped {
            match find_node(nodes, ids[k].as_str()) {
                Some(i) => {
                    proof {
                        lemma_first_listed_prefix(vs, ws, opt_str(skip), k + 1);
                    }
                    return Some(i);
                },
                None => {},
            }
        }
        k = k + 1;
    }
    assert(ws.take(ws.len() as int) =~= ws);
    None
}

/// Once a prefix of `ids` finds a node, the whole list finds the same one.
proof fn lemma_first_listed_prefix(nodes: Seq<GatewayNodeView>, ids: Seq<Seq<char>>, skip: Option<Seq<char>>, k: int)
    requires
        0 <= k <= ids.len(),
        first_listed(nodes, ids.take(k), skip) is Some,
    ensures
        first_listed(nodes, ids, skip) == first_listed(nodes, ids.take(k), skip),
    decreases ids.len() - k,
{
    if k < ids.len() {
        assert(ids.take(k + 1).drop_last() =~= ids.take(k));
        lemma_first_listed_prefix(nodes, ids, skip, k + 1);
    } else {
        assert(ids.take(k) =~= ids);
    }
}

/// Whether some domain of the list covers `key`.
fn domains_cover(domains: &Vec<DataDomain>, key: &str) -> (b: bool)
    ensures
        b == exists|d: int| 0 <= d < domains@.len() && covers_key(#[trigger] domains@[d]@, key@),
{
    let mut i: usize = 0;
    while i < domains.len()
        invariant
            i <= domains@.len(),
            forall|d: int| 0 <= d < i ==> !covers_key(#[trigger] domains@[d]@, key@),
        decreases domains@.len() - i,
    {
        let c = any_prefix(&domains[i].collections, key);
        let t = any_prefix(&domains[i].tables, key);
        assert(domains@[i as int]@.collections == word_views(domains@[i as int].collections@));
        assert(domains@[i as int]@.tables == word_views(domains@[i as int].tables@));
        assert((c || t) == covers_key(domains@[i as int]@, key@));
        if c || t {
            return true;
        }
        i = i + 1;
    }
    false
}

/// The error when no node can take requests.
pub open spec fn no_node_message() -> Seq<char> {
    "No healthy nodes available"@
}

/// What routing a request does to a gateway, `old` before and `new` after:
/// one more request counted, the node table and settings kept, and the
/// answer given by [`route_choice`]; among several candidates the strategy
/// picks, advancing the round-robin position when it is used; every routed
/// request is counted.
pub open spec fn routed(
    old: ClusterGateway,
    new: ClusterGateway,
    key: Option<Seq<char>>,
    preferred: Option<Seq<Seq<char>>>,
    domains: Option<Seq<DataDomainView>>,
    now: u64,
    random: u64,
    r: Result<RouteDecision, String>,
) -> bool {
    let choice = route_choice(node_views(old.nodes@), old.node_id@, old.config.strategy, key, preferred, domains, now);
    let strategy = old.config.strategy;
    let rr = old.round_robin_index;
    &&& new.counters.total_requests == old.counters.total_requests + 1
    &&& new.nodes == old.nodes
    &&& new.config == old.config
    &&& new.node_id == old.node_id
    &&& new.counters.failed_requests == old.counters.failed_requests
    &&& new.counters.circuit_breaks_triggered == old.counters.circuit_breaks_triggered
    &&& new.counters.active_nodes == old.counters.active_nodes
    &&& new.counters.healthy_nodes == old.counters.healthy_nodes
    &&& match choice {
        RouteChoice::Node(n, how) => {
            &&& r matches Ok(d) && routes_to(d, n, how)
            &&& new.counters.routed_requests == old.counters.routed_requests + 1
            &&& new.round_robin_index == rr
        },
        RouteChoice::Among(c) => {
            &&& r matches Ok(d) && routes_to(d, c[pick_index(c, strategy, rr as nat, random)], strategy)
            &&& new.counters.routed_requests == old.counters.routed_requests + 1
            &&& new.round_robin_index == if strategy == NodeSelectorStrategy::RoundRobin {
                (rr + 1) as usize
            } else {
                rr
            }
        },
        RouteChoice::NoNode => {
            &&& r matches Err(e) && e@ == no_node_message()
            &&& new.counters.routed_requests == old.counters.routed_requests
            &&& new.round_robin_index == rr
        },
    }
}

/// Where a domain's request goes before regular routing: to the local node
/// when the domain spans several clusters, this one among them, and the
/// local node is in the table; else to the first other member cluster in
/// the table.
pub open spec fn domain_route_node(nodes: Seq<GatewayNodeView>, me: Seq<char>, members: Seq<Seq<char>>) -> Option<
    GatewayNodeView,
> {
    if members.len() > 1 && members.contains(me) && first_index(nodes, me) >= 0 {
        Some(nodes[first_index(nodes, me)])
    } else {
        first_listed(nodes, members, Some(me))
    }
}

/// The member clusters of domain `name`, if the manager knows it.
pub open spec fn domain_members(domains: Option<&DataDomainManager>, name: Seq<char>) -> Option<Seq<Seq<char>>> {
    match domains {
        Some(dm) => if dm.domains@.contains_key(name) {
            Some(dm.domains@[name]@.member_clusters)
        } else {
            None
        },
        None => None,
    }
}

/// How a request to a node ended.
pub enum RequestOutcome {
    /// It succeeded; `latency_key` is the key of the node's new smoothed
    /// latency.
    Success { latency_key: u64 },
    /// The node answered with an unsuccessful HTTP status.
    Status(u16),
    /// The request failed before an answer; the text describes why.
    Failed(String),
}

/// The error for a request answered with an unsuccessful status.
pub open spec fn status_failure_message(node: Seq<char>, status: u16) -> Seq<char> {
    "Request to "@ + node + " failed with status "@ + decimal(status as nat)
}

/// The error for a request that failed before an answer.
pub open spec fn request_failure_message(node: Seq<char>, why: Seq<char>) -> Seq<char> {
    "Request to "@ + node + " failed: "@ + why
}

impl ClusterGateway {
    /// Routes a request for a data domain: see [`domain_route_node`]; when
    /// the domain is unknown or no member is in the table, the request is
    /// routed by [`ClusterGateway::get_route`] with the collection as key.
    pub fn get_domain_route(
        &mut self,
        domain_name: &str,
        storage_type: &str,
        collection: &str,
        domains: Option<&DataDomainManager>,
        now_ms: u64,
        random: u64,
    ) -> (r: Result<RouteDecision, String>)
        requires
            old(self).counters.total_requests < u64::MAX,
            old(self).counters.routed_requests < u64::MAX,
            old(self).round_robin_index < usize::MAX,
            domains matches Some(d) ==> d.wf(),
        ensures
            ({
                let direct = match domain_members(domains, domain_name@) {
                    Some(members) => domain_route_node(node_views(old(self).nodes@), old(self).node_id@, members),
                    None => None,
                };
                match direct {
                    Some(n) => {
                        &&& r matches Ok(d) && routes_to(d, n, NodeSelectorStrategy::DomainAware)
                        &&& *final(self) == *old(self)
                    },
                    None => routed(
                        *old(self),
                        *final(self),
                        Some(collection@),
                        None,
                        domain_list(domains),
                        now_ms,
                        random,
                        r,
                    ),
                }
            }),
    {
        let ghost vs = node_views(self.nodes@);
        match domains {
            Some(dm) => {
                match dm.get_domain(domain_name) {
                    Some(domain) => {
                        let members = &domain.member_clusters;
                        if members.len() > 1 && contains_word(members, self.node_id.as_str()) {
                            match find_node(&self.nodes, self.node_id.as_str()) {
                                Some(i) => {
                                    proof {
                                        assert(vs[i as int] == self.nodes@[i as int]@);
                                    }
                                    return Ok(route_to(&self.nodes[i], NodeSelectorStrategy::DomainAware));
                                },
                                None => {},
                            }
                        }
                        match first_listed_index(&self.nodes, members, Some(self.node_id.as_str())) {
                            Some(i) => {
                                proof {
                                    assert(vs[i as int] == self.nodes@[i as int]@);
                                }
                                return Ok(route_to(&self.nodes[i], NodeSelectorStrategy::DomainAware));
                            },
                            None => {},
                        }
                    },
                    None => {},
                }
            },
            None => {},
        }
        self.get_route(Some(collection), None, domains, now_ms, random)
    }

    /// Records how a request routed to `node_id` ended, at `now_ms`: a
    /// success is recorded and answered with `Ok`; an unsuccessful status or
    /// a failure is recorded as a failure and answered with its error.
    pub fn complete_request(&mut self, node_id: &str, outcome: RequestOutcome, now_ms: u64) -> (r: Result<(), String>)
        requires
            old(self).counters.failed_requests < u64::MAX,
            old(self).counters.circuit_breaks_triggered < u64::MAX,
            now_ms + old(self).config.circuit_breaker_reset_ms <= u64::MAX,
            forall|j: int|
                0 <= j < old(self).nodes@.len() && (#[trigger] old(self).nodes@[j]).node_id@ == node_id@
                    ==> old(self).nodes@[j].consecutive_failures < u32::MAX,
        ensures
            match outcome {
                RequestOutcome::Success { latency_key } => {
                    let vs = node_views(old(self).nodes@);
                    let i = first_index(vs, node_id@);
                    &&& r is Ok
                    &&& node_views(final(self).nodes@) == if i >= 0 {
                        vs.update(
                            i,
                            GatewayNodeView {
                                consecutive_failures: 0,
                                latency_key,
                                health: NodeHealth::Healthy,
                                last_seen: now_ms,
                                ..vs[i]
                            },
                        )
                    } else {
                        vs
                    }
                    &&& final(self).counters == old(self).counters
                },
                RequestOutcome::Status(code) => {
                    &&& r matches Err(e) && e@ == status_failure_message(node_id@, code)
                    &&& final(self).counters.failed_requests == old(self).counters.failed_requests + 1
                },
                RequestOutcome::Failed(why) => {
                    &&& r matches Err(e) && e@ == request_failure_message(node_id@, why@)
                    &&& final(self).counters.failed_requests == old(self).counters.failed_requests + 1
                },
            },
            final(self).config == old(self).config,
            final(self).node_id == old(self).node_id,
            final(self).round_robin_index == old(self).round_robin_index,
    {
        match outcome {
            RequestOutcome::Success { latency_key } => {
                self.record_success(node_id, latency_key, now_ms);
                Ok(())
            },
            RequestOutcome::Status(code) => {
                self.record_failure(node_id, now_ms);
                let mut msg = owned("Request to ");
                msg.append(node_id);
                msg.append(" failed with status ");
                let digits = decimal_string(code as u64);
                msg.append(digits.as_str());
                Err(msg)
            },
            RequestOutcome::Failed(why) => {
                self.record_failure(node_id, now_ms);
                let mut msg = owned("Request to ");
                msg.append(node_id);
                msg.append(" failed: ");
                msg.append(why.as_str());
                Err(msg)
            },
        }
    }
}

impl ClusterGateway {
    /// Routes a request (one more request counted): see [`route_choice`];
    /// among several candidates the strategy picks, and every routed
    /// request is counted. `random` is the value a random pick uses.
    pub fn get_route(
        &mut self,
        shard_key: Option<&str>,
        preferred_nodes: Option<&Vec<String>>,
        domains: Option<&DataDomainManager>,
        now_ms: u64,
        random: u64,
    ) -> (r: Result<RouteDecision, String>)
        requires
            old(self).counters.total_requests < u64::MAX,
            old(self).counters.routed_requests < u64::MAX,
            old(self).round_robin_index < usize::MAX,
            domains matches Some(d) ==> d.wf(),
        ensures
            routed(*old(self), *final(self), opt_str(shard_key), opt_words(preferred_nodes), domain_list(domains), now_ms, random, r),
    {
        let ghost vs = node_views(self.nodes@);
        self.counters.total_requests = self.counters.total_requests + 1;
        if self.config.strategy == NodeSelectorStrategy::DomainAware {
            match (shard_key, domains) {
                (Some(key), Some(dm)) => {
                    let list = dm.list_domains();
                    let covered = domains_cover(&list, key);
                    let ghost ds = crate::cluster::domain::entry_domain_views(dm.domains.entry_seq());
                    proof {
                        assert(ds.len() == list@.len()) by {
                            assert(list@.map_values(|x: DataDomain| x@).len() == list@.len());
                        }
                        assert forall|d: int| 0 <= d < ds.len() implies ds[d] == list@[d]@ by {
                            assert(list@.map_values(|x: DataDomain| x@)[d] == list@[d]@);
                        }
                        if covered {
                            let d = choose|d: int| 0 <= d < list@.len() && covers_key(#[trigger] list@[d]@, key@);
                            assert(covers_key(ds[d], key@));
                        } else {
                            assert forall|d: int| 0 <= d < ds.len() implies !covers_key(#[trigger] ds[d], key@) by {
                                assert(ds[d] == list@[d]@);
                            }
                        }
                    }
                    if covered {
                        match find_node(&self.nodes, self.node_id.as_str()) {
                            Some(i) => {
                                proof {
                                    assert(opt_str(shard_key) == Some(key@));
                                    assert(domain_list(domains) == Some(ds));
                                    let d = choose|d: int| 0 <= d < list@.len() && covers_key(#[trigger] list@[d]@, key@);
                                    assert(covers_key(ds[d], key@));
                                    assert(vs[i as int] == self.nodes@[i as int]@);
                                    assert(covers_key(domain_list(domains)->0[d], opt_str(shard_key)->0));
                                    assert(first_index(vs, old(self).node_id@) == i);
                                    assert(old(self).config.strategy == NodeSelectorStrategy::DomainAware);
                                    assert(route_choice(
                                        vs,
                                        old(self).node_id@,
                                        old(self).config.strategy,
                                        opt_str(shard_key),
                                        opt_words(preferred_nodes),
                                        domain_list(domains),
                                        now_ms,
                                    ) == RouteChoice::Node(vs[i as int], NodeSelectorStrategy::DomainAware));
                                }
                                self.counters.routed_requests = self.counters.routed_requests + 1;
                                return Ok(route_to(&self.nodes[i], NodeSelectorStrategy::DomainAware));
                            },
                            None => {},
                        }
                    }
                },
                _ => {},
            }
        }
        let healthy = available_list(&self.nodes, now_ms);
        if healthy.len() == 0 {
            return Err(owned("No healthy nodes available"));
        }
        match preferred_nodes {
            Some(pref) => {
                match first_listed_index(&healthy, pref, None) {
                    Some(i) => {
                        self.counters.routed_requests = self.counters.routed_requests + 1;
                        return Ok(route_to(&healthy[i], NodeSelectorStrategy::ShardAware));
                    },
                    None => {},
                }
            },
            None => {},
        }
        let strategy = self.config.strategy;
        match shard_key {
            Some(key) => {
                let holders = holders_of(&healthy, key);
                if holders.len() > 0 {
                    let d = select_best_node(&holders, strategy, &mut self.round_robin_index, random);
                    self.counters.routed_requests = self.counters.routed_requests + 1;
                    return Ok(d);
                }
            },
            None => {},
        }
        let d = select_best_node(&healthy, strategy, &mut self.round_robin_index, random);
        self.counters.routed_requests = self.counters.routed_requests + 1;
        Ok(d)
    }
}

/// The nodes that can take requests at `now` are exactly the healthy or
/// degraded ones whose circuit is closed or due to close.
pub proof fn lemma_routable_nodes(nodes: Seq<GatewayNodeView>, now: u64)
    ensures
        forall|i: int|
            0 <= i < nodes.len() ==> (available_nodes(nodes, now).contains(#[trigger] nodes[i]) <==> ((nodes[i].health
                == NodeHealth::Healthy || nodes[i].health == NodeHealth::Degraded) && (!nodes[i].circuit_open
                || nodes[i].circuit_open_until <= now))),
        forall|x: GatewayNodeView|
            #[trigger] available_nodes(nodes, now).contains(x) ==> nodes.contains(x) && (x.health == NodeHealth::Healthy
                || x.health == NodeHealth::Degraded) && (!x.circuit_open || x.circuit_open_until <= now),
    decreases nodes.len(),
{
    lemma_available_nodes(nodes, now);
    let a = available_nodes(nodes, now);
    assert forall|x: GatewayNodeView| #[trigger] a.contains(x) implies nodes.contains(x) && (x.health == NodeHealth::Healthy
        || x.health == NodeHealth::Degraded) && (!x.circuit_open || x.circuit_open_until <= now) by {
        let k = choose|k: int| 0 <= k < a.len() && a[k] == x;
        assert(available(a[k], now));
    }
    if nodes.len() > 0 {
        let n = nodes.len() - 1;
        let rest = available_nodes(nodes.drop_last(), now);
        lemma_routable_nodes(nodes.drop_last(), now);
        assert forall|i: int|
            0 <= i < nodes.len() && (nodes[i].health == NodeHealth::Healthy || nodes[i].health == NodeHealth::Degraded)
                && (!nodes[i].circuit_open || nodes[i].circuit_open_until <= now) implies a.contains(#[trigger] nodes[i]) by {
            if i < n {
                assert(nodes.drop_last()[i] == nodes[i]);
                assert(rest.contains(nodes[i]));
                let k = choose|k: int| 0 <= k < rest.len() && rest[k] == nodes[i];
                if available(nodes.last(), now) {
                    assert(a == rest.push(nodes.last()));
                    assert(a[k] == nodes[i]);
                } else {
                    assert(a == rest);
                }
            } else {
                assert(available(nodes.last(), now));
                assert(a == rest.push(nodes.last()));
                assert(a[rest.len() as int] == nodes[i]);
            }
        }
    }
}

/// Routing fails for want of a node only when no node of the table can
/// take requests: with a healthy or degraded node whose circuit is closed
/// or due to close, a request is always routed.
pub proof fn lemma_route_found(
    old: ClusterGateway,
    new: ClusterGateway,
    key: Option<Seq<char>>,
    preferred: Option<Seq<Seq<char>>>,
    domains: Option<Seq<DataDomainView>>,
    now: u64,
    random: u64,
    r: Result<RouteDecision, String>,
    i: int,
)
    requires
        routed(old, new, key, preferred, domains, now, random, r),
        0 <= i < old.nodes@.len(),
        old.nodes@[i]@.health == NodeHealth::Healthy || old.nodes@[i]@.health == NodeHealth::Degraded,
        !old.nodes@[i]@.circuit_open || old.nodes@[i]@.circuit_open_until <= now,
    ensures
        r is Ok,
{
    let vs = node_views(old.nodes@);
    assert(vs[i] == old.nodes@[i]@);
    lemma_routable_nodes(vs, now);
    assert(available_nodes(vs, now).contains(vs[i]));
    assert(available_nodes(vs, now).len() > 0);
}

/// Least-loaded picks the first candidate with the fewest active
/// connections, lowest-latency the first with the least latency key, and
/// round robin the candidate at the turn's position.
pub proof fn lemma_pick_rule(c: Seq<GatewayNodeView>, rr: nat, random: u64)
    requires
        c.len() > 0,
    ensures
        ({
            let i = pick_index(c, NodeSelectorStrategy::LeastLoaded, rr, random);
            &&& 0 <= i < c.len()
            &&& forall|j: int| 0 <= j < c.len() ==> c[i].active_connections <= (#[trigger] c[j]).active_connections
            &&& forall|j: int| 0 <= j < i ==> c[i].active_connections < (#[trigger] c[j]).active_connections
        }),
        ({
            let i = pick_index(c, NodeSelectorStrategy::LowestLatency, rr, random);
            &&& 0 <= i < c.len()
            &&& forall|j: int| 0 <= j < c.len() ==> c[i].latency_key <= (#[trigger] c[j]).latency_key
            &&& forall|j: int| 0 <= j < i ==> c[i].latency_key < (#[trigger] c[j]).latency_key
        }),
        pick_index(c, NodeSelectorStrategy::RoundRobin, rr, random) == rr % c.len(),
{
    lemma_first_min_least(c, false);
    lemma_first_min_least(c, true);
}

proof fn lemma_first_min_least(c: Seq<GatewayNodeView>, by_latency: bool)
    requires
        c.len() > 0,
    ensures
        0 <= first_min(c, by_latency) < c.len(),
        forall|j: int| 0 <= j < c.len() ==> sort_key(c[first_min(c, by_latency)], by_latency) <= sort_key(#[trigger] c[j], by_latency),
        forall|j: int| 0 <= j < first_min(c, by_latency) ==> sort_key(c[first_min(c, by_latency)], by_latency) < sort_key(#[trigger] c[j], by_latency),
    decreases c.len(),
{
    if c.len() > 1 {
        let d = c.drop_last();
        lemma_first_min_least(d, by_latency);
        let p = first_min(d, by_latency);
        assert forall|j: int| 0 <= j < d.len() implies #[trigger] c[j] == d[j] by {}
        assert(c[p] == d[p]);
    }
}

} // verus!
