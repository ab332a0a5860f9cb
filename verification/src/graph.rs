//! An in-memory property graph: nodes with labels and properties, directed
//! labelled edges with properties, traversal and breadth-first queries.
//!
//! Node and edge ids are handed out in increasing order and never reused;
//! nodes and edges are kept in id order. A property value is held as its
//! JSON text, and two values match when their texts are equal.

use vstd::prelude::*;
use crate::format::{decimal, decimal_string};
use vstd::string::StringExecFns;
use crate::strmap::StrMap;
use crate::text::{contains_word, copy_strings, owned, str_eq, word_views};

verus! {

/// Identifier of a node.
pub type NodeId = u64;

/// Identifier of an edge.
pub type EdgeId = u64;

/// A node with its labels and properties.
pub struct GraphNode {
    pub id: NodeId,
    pub labels: Vec<String>,
    /// Property name to JSON text of the value.
    pub properties: StrMap<String>,
}

/// A directed edge from `source` to `target`.
pub struct GraphEdge {
    pub id: EdgeId,
    pub source: NodeId,
    pub target: NodeId,
    pub label: String,
    /// Property name to JSON text of the value.
    pub properties: StrMap<String>,
}

/// The texts of a property map.
pub open spec fn text_map(m: Map<Seq<char>, String>) -> Map<Seq<char>, Seq<char>> {
    m.map_values(|s: String| s@)
}

/// A node as plain values.
pub struct NodeView {
    pub id: NodeId,
    pub labels: Seq<Seq<char>>,
    pub properties: Map<Seq<char>, Seq<char>>,
}

/// An edge as plain values.
pub struct EdgeView {
    pub id: EdgeId,
    pub source: NodeId,
    pub target: NodeId,
    pub label: Seq<char>,
    pub properties: Map<Seq<char>, Seq<char>>,
}

impl View for GraphNode {
    type V = NodeView;

    open spec fn view(&self) -> NodeView {
        NodeView { id: self.id, labels: word_views(self.labels@), properties: text_map(self.properties@) }
    }
}

impl View for GraphEdge {
    type V = EdgeView;

    open spec fn view(&self) -> EdgeView {
        EdgeView {
            id: self.id,
            source: self.source,
            target: self.target,
            label: self.label@,
            properties: text_map(self.properties@),
        }
    }
}

impl GraphNode {
    /// A copy of the node.
    pub fn copy(&self) -> (r: GraphNode)
        requires
            self.properties.wf(),
        ensures
            r@ == self@,
            r.properties.wf(),
    {
        let properties = self.properties.copy_text();
        GraphNode { id: self.id, labels: copy_strings(&self.labels), properties }
    }
}

impl GraphEdge {
    /// A copy of the edge.
    pub fn copy(&self) -> (r: GraphEdge)
        requires
            self.properties.wf(),
        ensures
            r@ == self@,
            r.properties.wf(),
    {
        let properties = self.properties.copy_text();
        GraphEdge {
            id: self.id,
            source: self.source,
            target: self.target,
            label: self.label.clone(),
            properties,
        }
    }
}

/// The views of a sequence of nodes.
pub open spec fn node_views(s: Seq<GraphNode>) -> Seq<NodeView> {
    s.map_values(|n: GraphNode| n@)
}

/// The views of a sequence of edges.
pub open spec fn edge_views(s: Seq<GraphEdge>) -> Seq<EdgeView> {
    s.map_values(|e: GraphEdge| e@)
}

/// Whether some node of `ns` has id `id`.
pub open spec fn has_node(ns: Seq<NodeView>, id: NodeId) -> bool {
    exists|i: int| 0 <= i < ns.len() && #[trigger] ns[i].id == id
}

/// The node of `ns` with id `id` (meaningful when there is one).
pub open spec fn node_of(ns: Seq<NodeView>, id: NodeId) -> NodeView {
    ns[choose|i: int| 0 <= i < ns.len() && #[trigger] ns[i].id == id]
}

/// Whether some edge of `es` has id `id`.
pub open spec fn has_edge(es: Seq<EdgeView>, id: EdgeId) -> bool {
    exists|i: int| 0 <= i < es.len() && #[trigger] es[i].id == id
}

/// The edge of `es` with id `id` (meaningful when there is one).
pub open spec fn edge_of(es: Seq<EdgeView>, id: EdgeId) -> EdgeView {
    es[choose|i: int| 0 <= i < es.len() && #[trigger] es[i].id == id]
}

/// Whether the ids of `ns` increase strictly.
pub open spec fn node_ids_increase(ns: Seq<NodeView>) -> bool {
    forall|i: int, j: int| 0 <= i < j < ns.len() ==> #[trigger] ns[i].id < #[trigger] ns[j].id
}

/// Whether the ids of `es` increase strictly.
pub open spec fn edge_ids_increase(es: Seq<EdgeView>) -> bool {
    forall|i: int, j: int| 0 <= i < j < es.len() ==> #[trigger] es[i].id < #[trigger] es[j].id
}

/// The edges of `es` whose source is `n`, in order.
pub open spec fn edges_from(es: Seq<EdgeView>, n: NodeId) -> Seq<EdgeView>
    decreases es.len(),
{
    if es.len() == 0 {
        Seq::empty()
    } else {
        let p = edges_from(es.drop_last(), n);
        if es.last().source == n {
            p.push(es.last())
        } else {
            p
        }
    }
}

/// The edges of `es` whose target is `n`, in order.
pub open spec fn edges_to(es: Seq<EdgeView>, n: NodeId) -> Seq<EdgeView>
    decreases es.len(),
{
    if es.len() == 0 {
        Seq::empty()
    } else {
        let p = edges_to(es.drop_last(), n);
        if es.last().target == n {
            p.push(es.last())
        } else {
            p
        }
    }
}

/// The edges of `es` labelled `label`, in order.
pub open spec fn edges_labelled(es: Seq<EdgeView>, label: Seq<char>) -> Seq<EdgeView>
    decreases es.len(),
{
    if es.len() == 0 {
        Seq::empty()
    } else {
        let p = edges_labelled(es.drop_last(), label);
        if es.last().label == label {
            p.push(es.last())
        } else {
            p
        }
    }
}

/// The nodes of `ns` that carry `label`, in order.
pub open spec fn nodes_labelled(ns: Seq<NodeView>, label: Seq<char>) -> Seq<NodeView>
    decreases ns.len(),
{
    if ns.len() == 0 {
        Seq::empty()
    } else {
        let p = nodes_labelled(ns.drop_last(), label);
        if ns.last().labels.contains(label) {
            p.push(ns.last())
        } else {
            p
        }
    }
}

/// The edges of `es` that neither start nor end at `n`, in order.
pub open spec fn not_touching(es: Seq<EdgeView>, n: NodeId) -> Seq<EdgeView>
    decreases es.len(),
{
    if es.len() == 0 {
        Seq::empty()
    } else {
        let p = not_touching(es.drop_last(), n);
        if es.last().source != n && es.last().target != n {
            p.push(es.last())
        } else {
            p
        }
    }
}

/// The targets of the edges of `es` that leave `start` with `label`, in
/// order, as nodes of `ns`.
pub open spec fn out_targets(es: Seq<EdgeView>, ns: Seq<NodeView>, start: NodeId, label: Seq<char>) -> Seq<NodeView>
    decreases es.len(),
{
    if es.len() == 0 {
        Seq::empty()
    } else {
        let p = out_targets(es.drop_last(), ns, start, label);
        let e = es.last();
        if e.source == start && e.label == label && has_node(ns, e.target) {
            p.push(node_of(ns, e.target))
        } else {
            p
        }
    }
}

/// The sources of the edges of `es` that enter `start` with `label`, in
/// order, as nodes of `ns`.
pub open spec fn in_sources(es: Seq<EdgeView>, ns: Seq<NodeView>, start: NodeId, label: Seq<char>) -> Seq<NodeView>
    decreases es.len(),
{
    if es.len() == 0 {
        Seq::empty()
    } else {
        let p = in_sources(es.drop_last(), ns, start, label);
        let e = es.last();
        if e.target == start && e.label == label && has_node(ns, e.source) {
            p.push(node_of(ns, e.source))
        } else {
            p
        }
    }
}

/// The views of a sequence of node references.
pub open spec fn node_refs(s: Seq<&GraphNode>) -> Seq<NodeView> {
    s.map_values(|n: &GraphNode| n@)
}

/// The views of a sequence of edge references.
pub open spec fn edge_refs(s: Seq<&GraphEdge>) -> Seq<EdgeView> {
    s.map_values(|e: &GraphEdge| e@)
}

/// The message for an edge end that names no node: `lead` ("Source node "
/// or "Target node ") and the id, then " does not exist".
pub open spec fn missing_node_message(lead: Seq<char>, id: NodeId) -> Seq<char> {
    lead + decimal(id as nat) + " does not exist"@
}

/// Every edge that `not_touching` keeps avoids the node.
proof fn lemma_not_touching_excludes(es: Seq<EdgeView>, n: NodeId, k: int)
    requires
        0 <= k < not_touching(es, n).len(),
    ensures
        not_touching(es, n)[k].source != n,
        not_touching(es, n)[k].target != n,
    decreases es.len(),
{
    if es.len() > 0 {
        let p = not_touching(es.drop_last(), n);
        if k < p.len() {
            lemma_not_touching_excludes(es.drop_last(), n, k);
        }
    }
}

/// Which way edges are followed.
#[derive(Debug, Clone, Copy, PartialEq, Eq, Structural)]
pub enum TraversalDirection {
    /// From source to target.
    Outgoing,
    /// From target to source.
    Incoming,
    /// Both ways.
    Both,
}

/// The neighbours `traverse` finds: none for an unknown start, else the
/// far ends of the matching edges, outgoing ones before incoming ones.
pub open spec fn traversal(
    es: Seq<EdgeView>,
    ns: Seq<NodeView>,
    start: NodeId,
    label: Seq<char>,
    direction: TraversalDirection,
) -> Seq<NodeView> {
    if !has_node(ns, start) {
        Seq::empty()
    } else {
        match direction {
            TraversalDirection::Outgoing => out_targets(es, ns, start, label),
            TraversalDirection::Incoming => in_sources(es, ns, start, label),
            TraversalDirection::Both => out_targets(es, ns, start, label) + in_sources(es, ns, start, label),
        }
    }
}

/// A breadth-first query: start at the nodes carrying any of
/// `start_labels`, follow edges (labelled `edge_label`, when given) in
/// `direction` up to `max_depth` steps, and keep the nodes whose properties
/// hold every filter.
pub struct GraphQuery {
    pub start_labels: Vec<String>,
    pub edge_label: Option<String>,
    pub direction: TraversalDirection,
    pub max_depth: usize,
    /// Property name to JSON text that the property must have.
    pub property_filters: StrMap<String>,
}

/// A query as plain values.
pub struct QueryView {
    pub start_labels: Seq<Seq<char>>,
    pub edge_label: Option<Seq<char>>,
    pub direction: TraversalDirection,
    pub max_depth: nat,
    pub property_filters: Map<Seq<char>, Seq<char>>,
}

impl View for GraphQuery {
    type V = QueryView;

    open spec fn view(&self) -> QueryView {
        QueryView {
            start_labels: word_views(self.start_labels@),
            edge_label: match self.edge_label {
                Some(l) => Some(l@),
                None => None,
            },
            direction: self.direction,
            max_depth: self.max_depth as nat,
            property_filters: text_map(self.property_filters@),
        }
    }
}

/// What a query found: the matching nodes, each with the path (node ids
/// from a start node) by which it was reached, and the edges followed.
pub struct GraphQueryResult {
    pub nodes: Vec<GraphNode>,
    pub edges: Vec<GraphEdge>,
    pub paths: Vec<Vec<NodeId>>,
}

/// Whether a node carries one of `labels`.
pub open spec fn is_start(n: NodeView, labels: Seq<Seq<char>>) -> bool {
    exists|j: int| 0 <= j < labels.len() && n.labels.contains(#[trigger] labels[j])
}

/// Whether `props` has every property of `filters`, with the same text.
pub open spec fn filters_match(props: Map<Seq<char>, Seq<char>>, filters: Map<Seq<char>, Seq<char>>) -> bool {
    forall|k: Seq<char>| #[trigger] filters.contains_key(k) ==> props.contains_key(k) && props[k] == filters[k]
}

/// Whether an edge passes the query's label filter.
pub open spec fn label_ok(e: EdgeView, label: Option<Seq<char>>) -> bool {
    match label {
        Some(l) => e.label == l,
        None => true,
    }
}

/// Whether `e` leads from `a` to `b` when edges are followed in `d`.
pub open spec fn links(e: EdgeView, a: NodeId, b: NodeId, d: TraversalDirection) -> bool {
    match d {
        TraversalDirection::Outgoing => e.source == a && e.target == b,
        TraversalDirection::Incoming => e.target == a && e.source == b,
        TraversalDirection::Both => (e.source == a && e.target == b) || (e.target == a && e.source == b),
    }
}

/// Whether one edge of `es` that the query may follow leads from `a` to `b`.
pub open spec fn step(es: Seq<EdgeView>, a: NodeId, b: NodeId, q: QueryView) -> bool {
    exists|k: int| 0 <= k < es.len() && label_ok(es[k], q.edge_label) && #[trigger] links(es[k], a, b, q.direction)
}

/// Whether consecutive ids of `p` are joined by steps the query may take.
pub open spec fn is_walk(es: Seq<EdgeView>, p: Seq<NodeId>, q: QueryView) -> bool {
    forall|i: int| #![trigger p[i]] 0 <= i < p.len() - 1 ==> step(es, p[i], p[i + 1], q)
}

/// Whether `p` is a path the query may report for `id`: it starts at a
/// start node, takes at most `max_depth` steps the query may take, and
/// ends at `id`.
pub open spec fn path_ok(p: Seq<NodeId>, id: NodeId, ns: Seq<NodeView>, es: Seq<EdgeView>, q: QueryView) -> bool {
    &&& 1 <= p.len() <= q.max_depth + 1
    &&& p.last() == id
    &&& has_node(ns, p[0])
    &&& is_start(node_of(ns, p[0]), q.start_labels)
    &&& is_walk(es, p, q)
}

/// Whether a reported node and its path are right: the node is the
/// graph's, it passes the filters, and the path leads to it.
pub open spec fn node_result_ok(n: GraphNode, p: Seq<NodeId>, ns: Seq<NodeView>, es: Seq<EdgeView>, q: QueryView) -> bool {
    &&& has_node(ns, n.id)
    &&& n@ == node_of(ns, n.id)
    &&& filters_match(n@.properties, q.property_filters)
    &&& path_ok(p, n.id, ns, es, q)
}

/// Whether a reported edge is an edge of the graph the query may follow.
pub open spec fn edge_ok(e: EdgeView, es: Seq<EdgeView>, q: QueryView) -> bool {
    exists|k: int| 0 <= k < es.len() && #[trigger] es[k] == e && label_ok(e, q.edge_label)
}

/// A queued node: its id, depth and path.
pub open spec fn entry_ok(e: (NodeId, usize, Vec<NodeId>), ns: Seq<NodeView>, es: Seq<EdgeView>, q: QueryView) -> bool {
    &&& has_node(ns, e.0)
    &&& e.2@.len() == e.1 + 1
    &&& path_ok(e.2@, e.0, ns, es, q)
}

/// The state of a breadth-first query.
struct Bfs {
    queue: Vec<(NodeId, usize, Vec<NodeId>)>,
    visited: Vec<NodeId>,
    nodes: Vec<GraphNode>,
    edges: Vec<GraphEdge>,
    paths: Vec<Vec<NodeId>>,
}

/// The queue holds each visited node once, with a right path; the edges
/// followed so far are edges the query may follow.
spec fn queue_inv(st: Bfs, ns: Seq<NodeView>, es: Seq<EdgeView>, q: QueryView) -> bool {
    &&& st.queue@.len() == st.visited@.len()
    &&& st.visited@.len() <= ns.len()
    &&& forall|k: int| 0 <= k < st.queue@.len() ==> (#[trigger] st.queue@[k]).0 == st.visited@[k]
    &&& st.visited@.no_duplicates()
    &&& forall|k: int| 0 <= k < st.queue@.len() ==> entry_ok(#[trigger] st.queue@[k], ns, es, q)
    &&& forall|j: int| 0 <= j < st.edges@.len() ==> edge_ok((#[trigger] st.edges@[j])@, es, q)
}

/// Whether node `n` was reported with the path of one of the first `head`
/// queued entries for it.
spec fn from_queue(queue: Seq<(NodeId, usize, Vec<NodeId>)>, n: GraphNode, p: Seq<NodeId>, head: int) -> bool {
    exists|k: int| 0 <= k < head && (#[trigger] queue[k]).0 == n.id && queue[k].2@ == p
}

/// The reported nodes are right, distinct, and come from the first `head`
/// queued ones, with their queued paths, no shorter than those reported
/// before them; each of those that passes the filters is reported.
spec fn results_inv(st: Bfs, ns: Seq<NodeView>, es: Seq<EdgeView>, q: QueryView, head: int) -> bool {
    &&& 0 <= head <= st.queue@.len()
    &&& st.nodes@.len() == st.paths@.len()
    &&& forall|i: int| 0 <= i < st.nodes@.len() ==> node_result_ok(#[trigger] st.nodes@[i], st.paths@[i]@, ns, es, q)
    &&& forall|i: int| 0 <= i < st.nodes@.len() ==> from_queue(st.queue@, #[trigger] st.nodes@[i], st.paths@[i]@, head)
    &&& forall|i: int, j: int| 0 <= i < j < st.paths@.len() ==> (#[trigger] st.paths@[i])@.len() <= (#[trigger] st.paths@[j])@.len()
    &&& forall|i: int, j: int| 0 <= i < j < st.nodes@.len() ==> (#[trigger] st.nodes@[i]).id != (#[trigger] st.nodes@[j]).id
    &&& forall|i: int| 0 <= i < st.nodes@.len() ==> st.visited@.take(head).contains((#[trigger] st.nodes@[i]).id)
    &&& forall|k: int|
        0 <= k < head && filters_match(node_of(ns, #[trigger] st.visited@[k]).properties, q.property_filters)
            ==> reported_ids(st.nodes@).contains(st.visited@[k])
}

/// Whether `b` is queued at depth `d` or less.
spec fn reached(queue: Seq<(NodeId, usize, Vec<NodeId>)>, b: NodeId, d: int) -> bool {
    exists|j: int| 0 <= j < queue.len() && (#[trigger] queue[j]).0 == b && queue[j].1 <= d
}

/// The end of `e` that a step leaves from: its target when edges are
/// followed backwards, else its source.
spec fn near_end(e: EdgeView, incoming: bool) -> NodeId {
    if incoming {
        e.target
    } else {
        e.source
    }
}

/// The end of `e` that a step arrives at.
spec fn far_end(e: EdgeView, incoming: bool) -> NodeId {
    if incoming {
        e.source
    } else {
        e.target
    }
}

/// Every edge the query may follow away from `cur` (backwards, for
/// `incoming`) arrives at a node queued at depth `d + 1` or less.
spec fn expanded(
    queue: Seq<(NodeId, usize, Vec<NodeId>)>,
    es: Seq<EdgeView>,
    q: QueryView,
    cur: NodeId,
    d: int,
    incoming: bool,
) -> bool {
    forall|m: int|
        0 <= m < es.len() && label_ok(es[m], q.edge_label) && near_end(#[trigger] es[m], incoming) == cur
            ==> reached(queue, far_end(es[m], incoming), d + 1)
}

/// Every one of the first `head` queued nodes that lies less than
/// `max_depth` steps away has had its neighbours queued, in each direction
/// the query follows.
spec fn closed_upto(queue: Seq<(NodeId, usize, Vec<NodeId>)>, es: Seq<EdgeView>, q: QueryView, head: int) -> bool {
    forall|k: int|
        0 <= k < head && (#[trigger] queue[k]).1 < q.max_depth ==> (q.direction != TraversalDirection::Incoming
            ==> expanded(queue, es, q, queue[k].0, queue[k].1 as int, false)) && (q.direction
            != TraversalDirection::Outgoing ==> expanded(queue, es, q, queue[k].0, queue[k].1 as int, true))
}

/// Whether one of `edges` is `e`.
pub open spec fn edge_recorded(edges: Seq<GraphEdge>, e: EdgeView) -> bool {
    exists|j: int| 0 <= j < edges.len() && (#[trigger] edges[j])@ == e
}

/// Every edge the query may follow away from `cur` (backwards, for
/// `incoming`) is among `edges`.
spec fn edges_expanded(edges: Seq<GraphEdge>, es: Seq<EdgeView>, q: QueryView, cur: NodeId, incoming: bool) -> bool {
    forall|m: int|
        0 <= m < es.len() && label_ok(es[m], q.edge_label) && near_end(#[trigger] es[m], incoming) == cur
            ==> edge_recorded(edges, es[m])
}

/// Every one of the first `head` queued nodes that lies less than
/// `max_depth` steps away has had the edges leaving it recorded, in each
/// direction the query follows.
spec fn edges_closed(
    queue: Seq<(NodeId, usize, Vec<NodeId>)>,
    edges: Seq<GraphEdge>,
    es: Seq<EdgeView>,
    q: QueryView,
    head: int,
) -> bool {
    forall|k: int|
        0 <= k < head && (#[trigger] queue[k]).1 < q.max_depth ==> (q.direction != TraversalDirection::Incoming
            ==> edges_expanded(edges, es, q, queue[k].0, false)) && (q.direction != TraversalDirection::Outgoing
            ==> edges_expanded(edges, es, q, queue[k].0, true))
}

/// The state of the search after the first `head` queued nodes have been
/// visited.
#[verifier::opaque]
spec fn bfs_inv(st: Bfs, ns: Seq<NodeView>, es: Seq<EdgeView>, q: QueryView, head: int) -> bool {
    &&& queue_inv(st, ns, es, q)
    &&& results_inv(st, ns, es, q, head)
    &&& forall|b: int| 0 <= b < ns.len() && is_start(#[trigger] ns[b], q.start_labels) ==> st.visited@.contains(ns[b].id)
    &&& forall|b: int| 0 <= b < ns.len() && is_start(#[trigger] ns[b], q.start_labels) ==> reached(st.queue@, ns[b].id, 0)
    &&& depths_sorted(st.queue@)
    &&& head < st.queue@.len() ==> forall|k: int|
        0 <= k < st.queue@.len() ==> (#[trigger] st.queue@[k]).1 <= st.queue@[head].1 + 1
    &&& closed_upto(st.queue@, es, q, head)
    &&& edges_closed(st.queue@, st.edges@, es, q, head)
}

/// Recorded edges stay recorded while the list only grows.
proof fn lemma_edges_expanded_grow(
    e1: Seq<GraphEdge>,
    e2: Seq<GraphEdge>,
    es: Seq<EdgeView>,
    q: QueryView,
    cur: NodeId,
    incoming: bool,
)
    requires
        e1.len() <= e2.len(),
        forall|j: int| 0 <= j < e1.len() ==> #[trigger] e2[j] == e1[j],
        edges_expanded(e1, es, q, cur, incoming),
    ensures
        edges_expanded(e2, es, q, cur, incoming),
{
    assert forall|m: int|
        0 <= m < es.len() && label_ok(es[m], q.edge_label) && near_end(#[trigger] es[m], incoming) == cur implies edge_recorded(
        e2,
        es[m],
    ) by {
        let j = choose|j: int| 0 <= j < e1.len() && (#[trigger] e1[j])@ == es[m];
        assert(e2[j] == e1[j]);
    }
}

/// Queued depths never decrease along the queue.
spec fn depths_sorted(queue: Seq<(NodeId, usize, Vec<NodeId>)>) -> bool {
    forall|i: int, j: int| 0 <= i < j < queue.len() ==> (#[trigger] queue[i]).1 <= (#[trigger] queue[j]).1
}

/// What is reached stays reached while the queue only grows.
proof fn lemma_reached_grow(q1: Seq<(NodeId, usize, Vec<NodeId>)>, q2: Seq<(NodeId, usize, Vec<NodeId>)>, b: NodeId, d: int)
    requires
        q1.len() <= q2.len(),
        forall|k: int| 0 <= k < q1.len() ==> #[trigger] q2[k] == q1[k],
        reached(q1, b, d),
    ensures
        reached(q2, b, d),
{
    let j = choose|j: int| 0 <= j < q1.len() && (#[trigger] q1[j]).0 == b && q1[j].1 <= d;
    assert(q2[j] == q1[j]);
}

/// An expansion stays done while the queue only grows.
proof fn lemma_expanded_grow(
    q1: Seq<(NodeId, usize, Vec<NodeId>)>,
    q2: Seq<(NodeId, usize, Vec<NodeId>)>,
    es: Seq<EdgeView>,
    q: QueryView,
    cur: NodeId,
    d: int,
    incoming: bool,
)
    requires
        q1.len() <= q2.len(),
        forall|k: int| 0 <= k < q1.len() ==> #[trigger] q2[k] == q1[k],
        expanded(q1, es, q, cur, d, incoming),
    ensures
        expanded(q2, es, q, cur, d, incoming),
{
    assert forall|m: int|
        0 <= m < es.len() && label_ok(es[m], q.edge_label) && near_end(#[trigger] es[m], incoming) == cur implies reached(
        q2,
        far_end(es[m], incoming),
        d + 1,
    ) by {
        lemma_reached_grow(q1, q2, far_end(es[m], incoming), d + 1);
    }
}

/// Along a walk the query may take from a start node, in at most
/// `max_depth` steps, each node is queued no deeper than its place on the
/// walk, once the search has closed the whole queue.
proof fn lemma_walk_reached(
    queue: Seq<(NodeId, usize, Vec<NodeId>)>,
    ns: Seq<NodeView>,
    es: Seq<EdgeView>,
    q: QueryView,
    p: Seq<NodeId>,
    i: int,
)
    requires
        closed_upto(queue, es, q, queue.len() as int),
        forall|b: int| 0 <= b < ns.len() && is_start(#[trigger] ns[b], q.start_labels) ==> reached(queue, ns[b].id, 0),
        1 <= p.len() <= q.max_depth + 1,
        has_node(ns, p[0]),
        is_start(node_of(ns, p[0]), q.start_labels),
        is_walk(es, p, q),
        0 <= i < p.len(),
    ensures
        reached(queue, p[i], i),
    decreases i,
{
    if i == 0 {
        let c = choose|c: int| 0 <= c < ns.len() && #[trigger] ns[c].id == p[0];
        assert(node_of(ns, p[0]).id == p[0]);
        let b = choose|b: int| 0 <= b < ns.len() && #[trigger] ns[b].id == p[0] && ns[b] == node_of(ns, p[0]);
        assert(reached(queue, ns[b].id, 0));
    } else {
        lemma_walk_reached(queue, ns, es, q, p, i - 1);
        let j = choose|j: int| 0 <= j < queue.len() && (#[trigger] queue[j]).0 == p[i - 1] && queue[j].1 <= i - 1;
        assert(step(es, p[i - 1], p[i], q));
        let m = choose|m: int| 0 <= m < es.len() && label_ok(es[m], q.edge_label) && #[trigger] links(es[m], p[i - 1], p[i], q.direction);
        assert(queue[j].1 < q.max_depth);
        let d = queue[j].1 as int;
        if q.direction != TraversalDirection::Incoming && es[m].source == p[i - 1] && es[m].target == p[i] {
            assert(expanded(queue, es, q, p[i - 1], d, false));
            assert(near_end(es[m], false) == p[i - 1]);
            assert(reached(queue, p[i], d + 1));
        } else {
            assert(expanded(queue, es, q, p[i - 1], d, true));
            assert(near_end(es[m], true) == p[i - 1]);
            assert(reached(queue, p[i], d + 1));
        }
        let w = choose|w: int| 0 <= w < queue.len() && (#[trigger] queue[w]).0 == p[i] && queue[w].1 <= d + 1;
        assert(queue[w].1 <= i);
    }
}

/// The ids of reported nodes.
spec fn reported_ids(s: Seq<GraphNode>) -> Seq<NodeId> {
    s.map_values(|n: GraphNode| n.id)
}

/// Distinct node ids, each naming a node, are no more than the nodes.
proof fn lemma_distinct_ids_bounded(vis: Seq<NodeId>, ns: Seq<NodeView>)
    requires
        vis.no_duplicates(),
        forall|k: int| 0 <= k < vis.len() ==> has_node(ns, #[trigger] vis[k]),
    ensures
        vis.len() <= ns.len(),
{
    broadcast use vstd::seq_lib::seq_to_set_is_finite;
    let ids = ns.map_values(|n: NodeView| n.id);
    assert forall|x: NodeId| vis.to_set().contains(x) implies ids.to_set().contains(x) by {
        let k = choose|k: int| 0 <= k < vis.len() && vis[k] == x;
        assert(has_node(ns, vis[k]));
        let a = choose|a: int| 0 <= a < ns.len() && #[trigger] ns[a].id == x;
        assert(ids[a] == x);
    }
    vis.unique_seq_to_set();
    ids.lemma_cardinality_of_set();
    vstd::set_lib::lemma_len_subset(vis.to_set(), ids.to_set());
}

/// Whether `v` holds `x`.
fn contains_id(v: &Vec<NodeId>, x: NodeId) -> (b: bool)
    ensures
        b == v@.contains(x),
{
    let mut i: usize = 0;
    while i < v.len()
        invariant
            i <= v@.len(),
            forall|j: int| 0 <= j < i ==> v@[j] != x,
        decreases v@.len() - i,
    {
        if v[i] == x {
            return true;
        }
        i = i + 1;
    }
    false
}

/// A copy of a list of node ids.
fn copy_ids(v: &Vec<NodeId>) -> (r: Vec<NodeId>)
    ensures
        r@ == v@,
{
    let mut r: Vec<NodeId> = Vec::new();
    let mut i: usize = 0;
    while i < v.len()
        invariant
            i <= v@.len(),
            r@ == v@.take(i as int),
        decreases v@.len() - i,
    {
        r.push(v[i]);
        assert(r@ =~= v@.take(i + 1));
        i = i + 1;
    }
    assert(v@.take(v@.len() as int) =~= v@);
    r
}

/// Whether `node` has every property of `filters`, with the same text.
fn matches_filters(node: &GraphNode, filters: &StrMap<String>) -> (b: bool)
    requires
        node.properties.wf(),
        filters.wf(),
    ensures
        b == filters_match(node@.properties, text_map(filters@)),
{
    proof {
        filters.lemma_view();
    }
    let mut i: usize = 0;
    while i < filters.entry_count()
        invariant
            filters.wf(),
            node.properties.wf(),
            i <= filters.entry_seq().len(),
            forall|j: int|
                0 <= j < i ==> node.properties@.contains_key((#[trigger] filters.entry_seq()[j]).0@)
                    && node.properties@[filters.entry_seq()[j].0@]@ == filters.entry_seq()[j].1@,
        decreases filters.entry_seq().len() - i,
    {
        proof {
            filters.lemma_view();
        }
        let k = filters.key_at(i);
        let v = filters.value_at(i);
        let ghost kv = filters.entry_seq()[i as int];
        match node.properties.get(k) {
            Some(pv) => {
                if !str_eq(pv.as_str(), v.as_str()) {
                    assert(text_map(filters@).contains_key(kv.0@));
                    return false;
                }
            },
            None => {
                assert(text_map(filters@).contains_key(kv.0@));
                return false;
            },
        }
        i = i + 1;
    }
    proof {
        assert forall|k: Seq<char>| #[trigger] text_map(filters@).contains_key(k) implies node@.properties.contains_key(k)
            && node@.properties[k] == text_map(filters@)[k] by {
            assert(filters.key_seq().to_set().contains(k));
            let j = choose|j: int| 0 <= j < filters.key_seq().len() && filters.key_seq()[j] == k;
            assert(filters.entry_seq()[j].0@ == k);
        }
    }
    true
}

/// Whether `node` carries one of `labels`.
fn is_start_node(node: &GraphNode, labels: &Vec<String>) -> (b: bool)
    ensures
        b == is_start(node@, word_views(labels@)),
{
    let mut j: usize = 0;
    while j < labels.len()
        invariant
            j <= labels@.len(),
            forall|a: int| 0 <= a < j ==> !word_views(node.labels@).contains(#[trigger] word_views(labels@)[a]),
        decreases labels@.len() - j,
    {
        if contains_word(&node.labels, labels[j].as_str()) {
            assert(word_views(node.labels@).contains(word_views(labels@)[j as int]));
            return true;
        }
        j = j + 1;
    }
    false
}

/// The reported nodes stay right while the queue only grows.
proof fn lemma_results_grow(st1: Bfs, st2: Bfs, ns: Seq<NodeView>, es: Seq<EdgeView>, q: QueryView, head: int)
    requires
        results_inv(st1, ns, es, q, head),
        st2.nodes == st1.nodes,
        st2.paths == st1.paths,
        st1.queue@.len() <= st2.queue@.len(),
        forall|k: int| 0 <= k < st1.visited@.len() ==> #[trigger] st2.visited@[k] == st1.visited@[k],
        forall|k: int| 0 <= k < st1.queue@.len() ==> #[trigger] st2.queue@[k] == st1.queue@[k],
        st1.queue@.len() == st1.visited@.len(),
        st2.queue@.len() == st2.visited@.len(),
    ensures
        results_inv(st2, ns, es, q, head),
{
    assert(st2.visited@.take(head) =~= st1.visited@.take(head));
    assert forall|i: int| 0 <= i < st2.nodes@.len() implies from_queue(st2.queue@, #[trigger] st2.nodes@[i], st2.paths@[i]@, head) by {
        assert(from_queue(st1.queue@, st1.nodes@[i], st1.paths@[i]@, head));
        let k = choose|k: int| 0 <= k < head && (#[trigger] st1.queue@[k]).0 == st1.nodes@[i].id && st1.queue@[k].2@ == st1.paths@[i]@;
        assert(st2.queue@[k] == st1.queue@[k]);
    }
    assert forall|k: int|
        0 <= k < head && filters_match(node_of(ns, #[trigger] st2.visited@[k]).properties, q.property_filters)
            implies reported_ids(st2.nodes@).contains(st2.visited@[k]) by {
        assert(st2.visited@[k] == st1.visited@[k]);
    }
}

/// After the queued node at `h` has been expanded in each direction the
/// query follows, the first `h + 1` queued nodes are closed.
proof fn lemma_step_closed(
    q0: Seq<(NodeId, usize, Vec<NodeId>)>,
    qn: Seq<(NodeId, usize, Vec<NodeId>)>,
    e1: Seq<GraphEdge>,
    en: Seq<GraphEdge>,
    es: Seq<EdgeView>,
    q: QueryView,
    h: int,
    cur: NodeId,
    d: int,
)
    requires
        0 <= h < q0.len(),
        q0[h].0 == cur,
        q0[h].1 == d,
        q0.len() <= qn.len(),
        forall|k: int| 0 <= k < q0.len() ==> #[trigger] qn[k] == q0[k],
        e1.len() <= en.len(),
        forall|j: int| 0 <= j < e1.len() ==> #[trigger] en[j] == e1[j],
        closed_upto(q0, es, q, h),
        edges_closed(q0, e1, es, q, h),
        q.direction != TraversalDirection::Incoming ==> expanded(qn, es, q, cur, d, false) && edges_expanded(en, es, q, cur, false),
        q.direction != TraversalDirection::Outgoing ==> expanded(qn, es, q, cur, d, true) && edges_expanded(en, es, q, cur, true),
    ensures
        closed_upto(qn, es, q, h + 1),
        edges_closed(qn, en, es, q, h + 1),
{
    assert forall|k: int| 0 <= k < h + 1 && (#[trigger] qn[k]).1 < q.max_depth implies (q.direction
        != TraversalDirection::Incoming ==> expanded(qn, es, q, qn[k].0, qn[k].1 as int, false)) && (q.direction
        != TraversalDirection::Outgoing ==> expanded(qn, es, q, qn[k].0, qn[k].1 as int, true)) by {
        assert(qn[k] == q0[k]);
        if k < h {
            assert(q0[k].1 < q.max_depth);
            if q.direction != TraversalDirection::Incoming {
                lemma_expanded_grow(q0, qn, es, q, q0[k].0, q0[k].1 as int, false);
            }
            if q.direction != TraversalDirection::Outgoing {
                lemma_expanded_grow(q0, qn, es, q, q0[k].0, q0[k].1 as int, true);
            }
        }
    }
    assert forall|k: int| 0 <= k < h + 1 && (#[trigger] qn[k]).1 < q.max_depth implies (q.direction
        != TraversalDirection::Incoming ==> edges_expanded(en, es, q, qn[k].0, false)) && (q.direction
        != TraversalDirection::Outgoing ==> edges_expanded(en, es, q, qn[k].0, true)) by {
        assert(qn[k] == q0[k]);
        if k < h {
            assert(q0[k].1 < q.max_depth);
            if q.direction != TraversalDirection::Incoming {
                lemma_edges_expanded_grow(e1, en, es, q, q0[k].0, false);
            }
            if q.direction != TraversalDirection::Outgoing {
                lemma_edges_expanded_grow(e1, en, es, q, q0[k].0, true);
            }
        }
    }
}

/// Once the whole queue is closed, a reported node's path is no longer
/// than any walk the query may take to it.
proof fn lemma_reported_shortest(st: Bfs, ns: Seq<NodeView>, es: Seq<EdgeView>, q: QueryView, i: int, p: Seq<NodeId>)
    requires
        queue_inv(st, ns, es, q),
        results_inv(st, ns, es, q, st.queue@.len() as int),
        closed_upto(st.queue@, es, q, st.queue@.len() as int),
        forall|b: int| 0 <= b < ns.len() && is_start(#[trigger] ns[b], q.start_labels) ==> reached(st.queue@, ns[b].id, 0),
        0 <= i < st.nodes@.len(),
        path_ok(p, st.nodes@[i].id, ns, es, q),
    ensures
        st.paths@[i]@.len() <= p.len(),
{
    let queue = st.queue@;
    let id = st.nodes@[i].id;
    assert(from_queue(queue, st.nodes@[i], st.paths@[i]@, queue.len() as int));
    let k = choose|k: int| 0 <= k < queue.len() && (#[trigger] queue[k]).0 == id && queue[k].2@ == st.paths@[i]@;
    lemma_walk_reached(queue, ns, es, q, p, p.len() - 1);
    let j = choose|j: int| 0 <= j < queue.len() && (#[trigger] queue[j]).0 == p[p.len() - 1] && queue[j].1 <= p.len() - 1;
    assert(st.visited@[j] == queue[j].0 && st.visited@[k] == queue[k].0);
    if j != k {
        assert(st.visited@[j] == st.visited@[k]);
        assert(false);
    }
    assert(entry_ok(queue[k], ns, es, q));
}

/// Once the whole queue is closed, every edge the query may follow away
/// from a node that a walk reaches in fewer than `max_depth` steps is
/// recorded.
proof fn lemma_edge_followed(st: Bfs, ns: Seq<NodeView>, es: Seq<EdgeView>, q: QueryView, p: Seq<NodeId>, id: NodeId, m: int)
    requires
        closed_upto(st.queue@, es, q, st.queue@.len() as int),
        edges_closed(st.queue@, st.edges@, es, q, st.queue@.len() as int),
        forall|b: int| 0 <= b < ns.len() && is_start(#[trigger] ns[b], q.start_labels) ==> reached(st.queue@, ns[b].id, 0),
        path_ok(p, id, ns, es, q),
        p.len() <= q.max_depth,
        0 <= m < es.len(),
        label_ok(es[m], q.edge_label),
        (q.direction != TraversalDirection::Incoming && es[m].source == id) || (q.direction != TraversalDirection::Outgoing
            && es[m].target == id),
    ensures
        edge_recorded(st.edges@, es[m]),
{
    let queue = st.queue@;
    lemma_walk_reached(queue, ns, es, q, p, p.len() - 1);
    let j = choose|j: int| 0 <= j < queue.len() && (#[trigger] queue[j]).0 == p[p.len() - 1] && queue[j].1 <= p.len() - 1;
    assert(queue[j].1 < q.max_depth);
    if q.direction != TraversalDirection::Incoming && es[m].source == id {
        assert(edges_expanded(st.edges@, es, q, id, false));
        assert(near_end(es[m], false) == id);
    } else {
        assert(edges_expanded(st.edges@, es, q, id, true));
        assert(near_end(es[m], true) == id);
    }
}

/// Once the whole queue is closed: every start node that passes the
/// filters is reported, so is every node that passes them and that a walk
/// the query may take reaches; a reported path is no longer than any such
/// walk to its node; and every edge the query may follow away from a node
/// that a walk reaches in fewer than `max_depth` steps is recorded.
proof fn lemma_query_complete(st: Bfs, ns: Seq<NodeView>, es: Seq<EdgeView>, qv: QueryView)
    requires
        queue_inv(st, ns, es, qv),
        results_inv(st, ns, es, qv, st.queue@.len() as int),
        closed_upto(st.queue@, es, qv, st.queue@.len() as int),
        edges_closed(st.queue@, st.edges@, es, qv, st.queue@.len() as int),
        forall|b: int| 0 <= b < ns.len() && is_start(#[trigger] ns[b], qv.start_labels) ==> st.visited@.contains(ns[b].id),
        forall|b: int| 0 <= b < ns.len() && is_start(#[trigger] ns[b], qv.start_labels) ==> reached(st.queue@, ns[b].id, 0),
        node_ids_increase(ns),
    ensures
        forall|b: int|
            0 <= b < ns.len() && is_start(#[trigger] ns[b], qv.start_labels) && filters_match(ns[b].properties, qv.property_filters)
                ==> exists|i: int| 0 <= i < st.nodes@.len() && (#[trigger] st.nodes@[i]).id == ns[b].id,
        forall|p: Seq<NodeId>, id: NodeId|
            #[trigger] path_ok(p, id, ns, es, qv) && has_node(ns, id) && filters_match(node_of(ns, id).properties, qv.property_filters)
                ==> exists|i: int| 0 <= i < st.nodes@.len() && (#[trigger] st.nodes@[i]).id == id,
        forall|i: int, p: Seq<NodeId>|
            0 <= i < st.nodes@.len() && #[trigger] path_ok(p, st.nodes@[i].id, ns, es, qv) ==> st.paths@[i]@.len() <= p.len(),
        forall|p: Seq<NodeId>, id: NodeId, m: int|
            #![trigger path_ok(p, id, ns, es, qv), es[m]]
            path_ok(p, id, ns, es, qv) && p.len() <= qv.max_depth && 0 <= m < es.len() && label_ok(es[m], qv.edge_label) && ((
            qv.direction != TraversalDirection::Incoming && es[m].source == id) || (qv.direction
            != TraversalDirection::Outgoing && es[m].target == id)) ==> edge_recorded(st.edges@, es[m]),
{
    assert forall|b: int|
        0 <= b < ns.len() && is_start(#[trigger] ns[b], qv.start_labels) && filters_match(ns[b].properties, qv.property_filters) implies exists|i: int|
        0 <= i < st.nodes@.len() && (#[trigger] st.nodes@[i]).id == ns[b].id by {
        let k = choose|k: int| 0 <= k < st.visited@.len() && st.visited@[k] == ns[b].id;
        assert(node_of(ns, ns[b].id) == ns[b]) by {
            let c = choose|c: int| 0 <= c < ns.len() && #[trigger] ns[c].id == ns[b].id;
            if c < b {
                assert(ns[c].id < ns[b].id);
            } else if c > b {
                assert(ns[b].id < ns[c].id);
            }
        }
        assert(filters_match(node_of(ns, st.visited@[k]).properties, qv.property_filters));
        assert(reported_ids(st.nodes@).contains(st.visited@[k]));
        let i = choose|i: int| 0 <= i < reported_ids(st.nodes@).len() && reported_ids(st.nodes@)[i] == st.visited@[k];
        assert(st.nodes@[i].id == ns[b].id);
    }
    assert forall|p: Seq<NodeId>, id: NodeId|
        #[trigger] path_ok(p, id, ns, es, qv) && has_node(ns, id) && filters_match(node_of(ns, id).properties, qv.property_filters)
            implies exists|i: int| 0 <= i < st.nodes@.len() && (#[trigger] st.nodes@[i]).id == id by {
        lemma_walk_reached(st.queue@, ns, es, qv, p, p.len() - 1);
        let j = choose|j: int| 0 <= j < st.queue@.len() && (#[trigger] st.queue@[j]).0 == id && st.queue@[j].1 <= p.len() - 1;
        assert(st.visited@[j] == id);
        assert(reported_ids(st.nodes@).contains(st.visited@[j]));
        let i = choose|i: int| 0 <= i < reported_ids(st.nodes@).len() && reported_ids(st.nodes@)[i] == st.visited@[j];
        assert(st.nodes@[i].id == id);
    }
    assert forall|i: int, p: Seq<NodeId>|
        0 <= i < st.nodes@.len() && #[trigger] path_ok(p, st.nodes@[i].id, ns, es, qv) implies st.paths@[i]@.len() <= p.len() by {
        lemma_reported_shortest(st, ns, es, qv, i, p);
    }
    assert forall|p: Seq<NodeId>, id: NodeId, m: int|
        #![trigger path_ok(p, id, ns, es, qv), es[m]]
        path_ok(p, id, ns, es, qv) && p.len() <= qv.max_depth && 0 <= m < es.len() && label_ok(es[m], qv.edge_label) && ((
        qv.direction != TraversalDirection::Incoming && es[m].source == id) || (qv.direction
        != TraversalDirection::Outgoing && es[m].target == id)) implies edge_recorded(st.edges@, es[m]) by {
        lemma_edge_followed(st, ns, es, qv, p, id, m);
    }
}

/// What following the edges away from `cur` at depth `d` did to the state:
/// the queue, the visited ids and the recorded edges only grew, nothing
/// was reported, the queue stays right and sorted by depth, and every edge
/// the query may follow away from `cur` is recorded with its far end queued
/// at depth `d + 1` or less.
spec fn steps_taken(st1: Bfs, st: Bfs, ns: Seq<NodeView>, es: Seq<EdgeView>, q: QueryView, cur: NodeId, d: int) -> bool {
    &&& queue_inv(st, ns, es, q)
    &&& st.nodes == st1.nodes
    &&& st.paths == st1.paths
    &&& st1.queue@.len() <= st.queue@.len()
    &&& forall|k: int| 0 <= k < st1.queue@.len() ==> #[trigger] st.visited@[k] == st1.visited@[k]
    &&& forall|k: int| 0 <= k < st1.queue@.len() ==> #[trigger] st.queue@[k] == st1.queue@[k]
    &&& st1.edges@.len() <= st.edges@.len()
    &&& forall|j: int| 0 <= j < st1.edges@.len() ==> #[trigger] st.edges@[j] == st1.edges@[j]
    &&& depths_sorted(st.queue@)
    &&& forall|k: int| 0 <= k < st.queue@.len() ==> (#[trigger] st.queue@[k]).1 <= d + 1
    &&& q.direction != TraversalDirection::Incoming ==> expanded(st.queue@, es, q, cur, d, false) && edges_expanded(
        st.edges@,
        es,
        q,
        cur,
        false,
    )
    &&& q.direction != TraversalDirection::Outgoing ==> expanded(st.queue@, es, q, cur, d, true) && edges_expanded(
        st.edges@,
        es,
        q,
        cur,
        true,
    )
}

/// After the node at `h` is reported (`st0` to `st1`) and its edges are
/// followed (`st1` to `st`), the search holds for the first `h + 1` nodes.
proof fn lemma_visit_closed(st0: Bfs, st1: Bfs, st: Bfs, ns: Seq<NodeView>, es: Seq<EdgeView>, q: QueryView, h: int)
    requires
        bfs_inv(st0, ns, es, q, h),
        0 <= h < st0.queue@.len(),
        st0.queue@[h].1 < q.max_depth,
        queue_inv(st1, ns, es, q),
        results_inv(st1, ns, es, q, h + 1),
        st1.queue == st0.queue,
        st1.visited == st0.visited,
        st1.edges == st0.edges,
        steps_taken(st1, st, ns, es, q, st0.queue@[h].0, st0.queue@[h].1 as int),
    ensures
        bfs_inv(st, ns, es, q, h + 1),
{
    reveal(bfs_inv);
    let q0 = st0.queue@;
    let qn = st.queue@;
    lemma_step_closed(q0, qn, st1.edges@, st.edges@, es, q, h, q0[h].0, q0[h].1 as int);
    assert forall|b: int| 0 <= b < ns.len() && is_start(#[trigger] ns[b], q.start_labels) implies reached(qn, ns[b].id, 0) by {
        lemma_reached_grow(q0, qn, ns[b].id, 0);
    }
    if h + 1 < qn.len() {
        assert(qn[h] == q0[h]);
        assert(qn[h].1 <= qn[h + 1].1);
    }
    lemma_results_grow(st1, st, ns, es, q, h + 1);
    assert forall|b: int| 0 <= b < ns.len() && is_start(#[trigger] ns[b], q.start_labels) implies st.visited@.contains(ns[b].id) by {
        let k = choose|k: int| 0 <= k < st1.visited@.len() && st1.visited@[k] == ns[b].id;
        assert(st.visited@[k] == st1.visited@[k]);
    }
}

/// The parts of the search's state that visiting the node at `h` reads.
proof fn lemma_bfs_parts(st: Bfs, ns: Seq<NodeView>, es: Seq<EdgeView>, q: QueryView, h: int)
    requires
        bfs_inv(st, ns, es, q, h),
        0 <= h < st.queue@.len(),
    ensures
        queue_inv(st, ns, es, q),
        results_inv(st, ns, es, q, h),
        depths_sorted(st.queue@),
        forall|k: int| 0 <= k < st.queue@.len() ==> (#[trigger] st.queue@[k]).1 <= st.queue@[h].1 + 1,
{
    reveal(bfs_inv);
}

/// After the node at `h`, which lies `max_depth` steps away, is reported
/// (`st0` to `st1`), the search holds for the first `h + 1` nodes.
proof fn lemma_visit_leaf(st0: Bfs, st1: Bfs, ns: Seq<NodeView>, es: Seq<EdgeView>, q: QueryView, h: int)
    requires
        bfs_inv(st0, ns, es, q, h),
        0 <= h < st0.queue@.len(),
        st0.queue@[h].1 >= q.max_depth,
        queue_inv(st1, ns, es, q),
        results_inv(st1, ns, es, q, h + 1),
        st1.queue == st0.queue,
        st1.visited == st0.visited,
        st1.edges == st0.edges,
    ensures
        bfs_inv(st1, ns, es, q, h + 1),
{
    reveal(bfs_inv);
    let qq = st1.queue@;
    if h + 1 < qq.len() {
        assert(qq[h].1 <= qq[h + 1].1);
    }
}

/// The search before any node is visited, and what it has found once
/// every queued node is.
proof fn lemma_bfs_ends(st: Bfs, ns: Seq<NodeView>, es: Seq<EdgeView>, q: QueryView, h: int)
    ensures
        (h == 0 && queue_inv(st, ns, es, q) && st.nodes@.len() == 0 && st.paths@.len() == 0 && (forall|b: int|
            0 <= b < ns.len() && is_start(#[trigger] ns[b], q.start_labels) ==> st.visited@.contains(ns[b].id))
            && (forall|b: int| 0 <= b < ns.len() && is_start(#[trigger] ns[b], q.start_labels) ==> reached(st.queue@, ns[b].id, 0))
            && (forall|k: int| 0 <= k < st.queue@.len() ==> (#[trigger] st.queue@[k]).1 == 0)) ==> bfs_inv(st, ns, es, q, h),
        (bfs_inv(st, ns, es, q, h) && h >= st.queue@.len()) ==> {
            &&& queue_inv(st, ns, es, q)
            &&& results_inv(st, ns, es, q, st.queue@.len() as int)
            &&& closed_upto(st.queue@, es, q, st.queue@.len() as int)
            &&& edges_closed(st.queue@, st.edges@, es, q, st.queue@.len() as int)
            &&& forall|b: int| 0 <= b < ns.len() && is_start(#[trigger] ns[b], q.start_labels) ==> st.visited@.contains(ns[b].id)
            &&& forall|b: int| 0 <= b < ns.len() && is_start(#[trigger] ns[b], q.start_labels) ==> reached(st.queue@, ns[b].id, 0)
        },
        bfs_inv(st, ns, es, q, h) ==> h <= st.queue@.len() <= ns.len(),
{
    reveal(bfs_inv);
}

/// The property graph.
pub struct GraphEngine {
    nodes: Vec<GraphNode>,
    edges: Vec<GraphEdge>,
    next_node_id: NodeId,
    next_edge_id: EdgeId,
}

impl GraphEngine {
    /// The nodes, in id order.
    pub closed spec fn node_seq(&self) -> Seq<NodeView> {
        node_views(self.nodes@)
    }

    /// The edges, in id order.
    pub closed spec fn edge_seq(&self) -> Seq<EdgeView> {
        edge_views(self.edges@)
    }

    /// The id the next node will get.
    pub closed spec fn next_node(&self) -> NodeId {
        self.next_node_id
    }

    /// The id the next edge will get.
    pub closed spec fn next_edge(&self) -> EdgeId {
        self.next_edge_id
    }

    /// Ids increase along the nodes and along the edges, lie below the next
    /// ones to hand out, every edge joins two nodes of the graph, and every
    /// property map is well formed.
    pub closed spec fn wf(&self) -> bool {
        &&& node_ids_increase(self.node_seq())
        &&& edge_ids_increase(self.edge_seq())
        &&& forall|i: int| 0 <= i < self.nodes@.len() ==> (#[trigger] self.nodes@[i]).id < self.next_node_id
        &&& forall|i: int| 0 <= i < self.edges@.len() ==> (#[trigger] self.edges@[i]).id < self.next_edge_id
        &&& forall|i: int| 0 <= i < self.nodes@.len() ==> (#[trigger] self.nodes@[i]).properties.wf()
        &&& forall|i: int| 0 <= i < self.edges@.len() ==> (#[trigger] self.edges@[i]).properties.wf()
        &&& forall|i: int|
            0 <= i < self.edges@.len() ==> has_node(self.node_seq(), (#[trigger] self.edges@[i]).source)
                && has_node(self.node_seq(), self.edges@[i].target)
    }

    /// An empty graph.
    pub fn new() -> (g: Self)
        ensures
            g.wf(),
            g.node_seq() == Seq::<NodeView>::empty(),
            g.edge_seq() == Seq::<EdgeView>::empty(),
            g.next_node() == 0,
            g.next_edge() == 0,
    {
        let g = GraphEngine { nodes: Vec::new(), edges: Vec::new(), next_node_id: 0, next_edge_id: 0 };
        assert(g.node_seq() =~= Seq::<NodeView>::empty());
        assert(g.edge_seq() =~= Seq::<EdgeView>::empty());
        g
    }

    /// Adds a node with the next node id and returns that id.
    pub fn add_node(&mut self, labels: Vec<String>, properties: StrMap<String>) -> (id: NodeId)
        requires
            old(self).wf(),
            properties.wf(),
            old(self).next_node() < u64::MAX,
        ensures
            final(self).wf(),
            id == old(self).next_node(),
            final(self).next_node() == id + 1,
            final(self).next_edge() == old(self).next_edge(),
            final(self).node_seq() == old(self).node_seq().push(
                NodeView { id, labels: word_views(labels@), properties: text_map(properties@) },
            ),
            final(self).edge_seq() == old(self).edge_seq(),
    {
        let id = self.next_node_id;
        self.next_node_id = self.next_node_id + 1;
        let ghost before = self.nodes@;
        self.nodes.push(GraphNode { id, labels, properties });
        proof {
            assert(self.node_seq() =~= node_views(before).push(self.nodes@.last()@));
            assert forall|i: int| 0 <= i < self.edges@.len() implies has_node(
                self.node_seq(),
                (#[trigger] self.edges@[i]).source,
            ) && has_node(self.node_seq(), self.edges@[i].target) by {
                let a = choose|a: int| 0 <= a < node_views(before).len() && #[trigger] node_views(before)[a].id == self.edges@[i].source;
                let b = choose|b: int| 0 <= b < node_views(before).len() && #[trigger] node_views(before)[b].id == self.edges@[i].target;
                assert(self.node_seq()[a].id == self.edges@[i].source);
                assert(self.node_seq()[b].id == self.edges@[i].target);
            }
        }
        id
    }

    /// The position of the node with id `id`, if any.
    fn find_node(&self, id: NodeId) -> (r: Option<usize>)
        requires
            self.wf(),
        ensures
            r is None <==> !has_node(self.node_seq(), id),
            r matches Some(i) ==> i < self.nodes@.len() && self.nodes@[i as int].id == id && node_of(
                self.node_seq(),
                id,
            ) == self.node_seq()[i as int],
    {
        let mut i: usize = 0;
        while i < self.nodes.len()
            invariant
                self.wf(),
                i <= self.nodes@.len(),
                forall|j: int| 0 <= j < i ==> self.nodes@[j].id != id,
            decreases self.nodes@.len() - i,
        {
            if self.nodes[i].id == id {
                proof {
                    assert(self.node_seq()[i as int].id == id);
                    let k = choose|k: int| 0 <= k < self.node_seq().len() && #[trigger] self.node_seq()[k].id == id;
                    if k != i {
                        if k < i {
                            assert(self.node_seq()[k].id < self.node_seq()[i as int].id);
                        } else {
                            assert(self.node_seq()[i as int].id < self.node_seq()[k].id);
                        }
                    }
                }
                return Some(i);
            }
            i = i + 1;
        }
        proof {
            if has_node(self.node_seq(), id) {
                let k = choose|k: int| 0 <= k < self.node_seq().len() && #[trigger] self.node_seq()[k].id == id;
                assert(self.nodes@[k].id == id);
            }
        }
        None
    }

    /// The node with id `id`, if any.
    pub fn get_node(&self, id: NodeId) -> (r: Option<&GraphNode>)
        requires
            self.wf(),
        ensures
            r is Some <==> has_node(self.node_seq(), id),
            r matches Some(n) ==> n@ == node_of(self.node_seq(), id) && n.properties.wf(),
    {
        match self.find_node(id) {
            Some(i) => Some(&self.nodes[i]),
            None => None,
        }
    }

    /// Adds an edge from `source` to `target` with the next edge id and
    /// returns that id; refused when either end names no node.
    pub fn add_edge(&mut self, source: NodeId, target: NodeId, label: String, properties: StrMap<String>) -> (r:
        Result<EdgeId, String>)
        requires
            old(self).wf(),
            properties.wf(),
            has_node(old(self).node_seq(), source) && has_node(old(self).node_seq(), target) ==> old(
                self,
            ).next_edge() < u64::MAX,
        ensures
            final(self).wf(),
            !has_node(old(self).node_seq(), source) ==> (r matches Err(e) && e@ == missing_node_message(
                "Source node "@,
                source,
            )) && *final(self) == *old(self),
            has_node(old(self).node_seq(), source) && !has_node(old(self).node_seq(), target) ==> (r matches Err(
                e,
            ) && e@ == missing_node_message("Target node "@, target)) && *final(self) == *old(self),
            has_node(old(self).node_seq(), source) && has_node(old(self).node_seq(), target) ==> (r matches Ok(id)
                && id == old(self).next_edge() && final(self).next_edge() == id + 1 && final(self).edge_seq()
                == old(self).edge_seq().push(
                EdgeView { id, source, target, label: label@, properties: text_map(properties@) },
            )),
            final(self).node_seq() == old(self).node_seq(),
            final(self).next_node() == old(self).next_node(),
    {
        if self.find_node(source).is_none() {
            let mut e = owned("Source node ");
            e.append(decimal_string(source).as_str());
            e.append(" does not exist");
            return Err(e);
        }
        if self.find_node(target).is_none() {
            let mut e = owned("Target node ");
            e.append(decimal_string(target).as_str());
            e.append(" does not exist");
            return Err(e);
        }
        let id = self.next_edge_id;
        self.next_edge_id = self.next_edge_id + 1;
        let ghost before = self.edges@;
        self.edges.push(GraphEdge { id, source, target, label, properties });
        assert(self.edge_seq() =~= edge_views(before).push(self.edges@.last()@));
        Ok(id)
    }

    /// The position of the edge with id `id`, if any.
    fn find_edge(&self, id: EdgeId) -> (r: Option<usize>)
        requires
            self.wf(),
        ensures
            r is None <==> !has_edge(self.edge_seq(), id),
            r matches Some(i) ==> i < self.edges@.len() && self.edges@[i as int].id == id && edge_of(
                self.edge_seq(),
                id,
            ) == self.edge_seq()[i as int],
    {
        let mut i: usize = 0;
        while i < self.edges.len()
            invariant
                self.wf(),
                i <= self.edges@.len(),
                forall|j: int| 0 <= j < i ==> self.edges@[j].id != id,
            decreases self.edges@.len() - i,
        {
            if self.edges[i].id == id {
                proof {
                    assert(self.edge_seq()[i as int].id == id);
                    let k = choose|k: int| 0 <= k < self.edge_seq().len() && #[trigger] self.edge_seq()[k].id == id;
                    if k != i {
                        if k < i {
                            assert(self.edge_seq()[k].id < self.edge_seq()[i as int].id);
                        } else {
                            assert(self.edge_seq()[i as int].id < self.edge_seq()[k].id);
                        }
                    }
                }
                return Some(i);
            }
            i = i + 1;
        }
        proof {
            if has_edge(self.edge_seq(), id) {
                let k = choose|k: int| 0 <= k < self.edge_seq().len() && #[trigger] self.edge_seq()[k].id == id;
                assert(self.edges@[k].id == id);
            }
        }
        None
    }

    /// The edge with id `id`, if any.
    pub fn get_edge(&self, id: EdgeId) -> (r: Option<&GraphEdge>)
        requires
            self.wf(),
        ensures
            r is Some <==> has_edge(self.edge_seq(), id),
            r matches Some(e) ==> e@ == edge_of(self.edge_seq(), id) && e.properties.wf(),
    {
        match self.find_edge(id) {
            Some(i) => Some(&self.edges[i]),
            None => None,
        }
    }

    /// Removes the edge with id `id`; tells whether there was one.
    pub fn remove_edge(&mut self, id: EdgeId) -> (removed: bool)
        requires
            old(self).wf(),
        ensures
            final(self).wf(),
            removed == has_edge(old(self).edge_seq(), id),
            removed ==> exists|i: int|
                0 <= i < old(self).edge_seq().len() && #[trigger] old(self).edge_seq()[i].id == id
                    && final(self).edge_seq() == old(self).edge_seq().remove(i),
            !removed ==> final(self).edge_seq() == old(self).edge_seq(),
            final(self).node_seq() == old(self).node_seq(),
            final(self).next_node() == old(self).next_node(),
            final(self).next_edge() == old(self).next_edge(),
    {
        match self.find_edge(id) {
            Some(i) => {
                let ghost before = self.edges@;
                self.edges.remove(i);
                proof {
                    assert(self.edge_seq() =~= edge_views(before).remove(i as int));
                    assert(edge_views(before)[i as int].id == id);
                    assert forall|a: int, b: int| 0 <= a < b < self.edge_seq().len() implies #[trigger] self.edge_seq()[a].id
                        < #[trigger] self.edge_seq()[b].id by {
                        let a2 = if a < i { a } else { a + 1 };
                        let b2 = if b < i { b } else { b + 1 };
                        assert(self.edge_seq()[a] == edge_views(before)[a2]);
                        assert(self.edge_seq()[b] == edge_views(before)[b2]);
                        assert(edge_views(before)[a2].id < edge_views(before)[b2].id);
                    }
                    assert forall|a: int| 0 <= a < self.edges@.len() implies #[trigger] self.edges@[a].id < self.next_edge_id
                        && self.edges@[a].properties.wf() && has_node(self.node_seq(), self.edges@[a].source)
                        && has_node(self.node_seq(), self.edges@[a].target) by {
                        let a2 = if a < i { a } else { a + 1 };
                        assert(self.edges@[a] == before[a2]);
                    }
                }
                true
            },
            None => false,
        }
    }

    /// Removes the node with id `id` and every edge that starts or ends at
    /// it; tells whether there was such a node.
    pub fn remove_node(&mut self, id: NodeId) -> (removed: bool)
        requires
            old(self).wf(),
        ensures
            final(self).wf(),
            removed == has_node(old(self).node_seq(), id),
            removed ==> exists|i: int|
                0 <= i < old(self).node_seq().len() && #[trigger] old(self).node_seq()[i].id == id
                    && final(self).node_seq() == old(self).node_seq().remove(i),
            removed ==> final(self).edge_seq() == not_touching(old(self).edge_seq(), id),
            !removed ==> *final(self) == *old(self),
            final(self).next_node() == old(self).next_node(),
            final(self).next_edge() == old(self).next_edge(),
    {
        let idx = match self.find_node(id) {
            Some(i) => i,
            None => {
                return false;
            },
        };
        let ghost es = self.edge_seq();
        let ghost ns = self.node_seq();
        let mut kept: Vec<GraphEdge> = Vec::new();
        let mut i: usize = 0;
        while i < self.edges.len()
            invariant
                self.wf(),
                es == self.edge_seq(),
                ns == self.node_seq(),
                idx < ns.len(),
                ns[idx as int].id == id,
                i <= self.edges@.len(),
                edge_views(kept@) == not_touching(es.take(i as int), id),
                forall|k: int|
                    0 <= k < kept@.len() ==> exists|j: int|
                        0 <= j < i && #[trigger] kept@[k]@ == es[j] && (#[trigger] kept@[k]).properties.wf(),
                edge_ids_increase(edge_views(kept@)),
            decreases self.edges@.len() - i,
        {
            proof {
                assert(es.take(i + 1).drop_last() =~= es.take(i as int));
            }
            let e = &self.edges[i];
            if e.source != id && e.target != id {
                let c = e.copy();
                let ghost before = kept@;
                kept.push(c);
                proof {
                    assert(edge_views(kept@) =~= edge_views(before).push(es[i as int]));
                    assert forall|k: int| 0 <= k < kept@.len() implies exists|j: int|
                        0 <= j < i + 1 && #[trigger] kept@[k]@ == es[j] && (#[trigger] kept@[k]).properties.wf() by {
                        if k < before.len() {
                            assert(kept@[k] == before[k]);
                        } else {
                            assert(kept@[k]@ == es[i as int]);
                        }
                    }
                    assert forall|a: int, b: int| 0 <= a < b < kept@.len() implies #[trigger] edge_views(kept@)[a].id
                        < #[trigger] edge_views(kept@)[b].id by {
                        if b < before.len() {
                            assert(edge_views(kept@)[a] == edge_views(before)[a]);
                            assert(edge_views(kept@)[b] == edge_views(before)[b]);
                        } else {
                            assert(kept@[a] == before[a]);
                            let j = choose|j: int| 0 <= j < i && #[trigger] before[a]@ == es[j] && before[a].properties.wf();
                            assert(es[j].id < es[i as int].id);
                        }
                    }
                }
            }
            i = i + 1;
        }
        proof {
            assert(es.take(es.len() as int) =~= es);
        }
        let ghost before_nodes = self.nodes@;
        self.edges = kept;
        self.nodes.remove(idx);
        proof {
            let ns2 = self.node_seq();
            assert(ns2 =~= ns.remove(idx as int));
            assert forall|a: int, b: int| 0 <= a < b < ns2.len() implies #[trigger] ns2[a].id < #[trigger] ns2[b].id by {
                let a2 = if a < idx { a } else { a + 1 };
                let b2 = if b < idx { b } else { b + 1 };
                assert(ns2[a] == ns[a2] && ns2[b] == ns[b2]);
            }
            assert forall|a: int| 0 <= a < self.nodes@.len() implies #[trigger] self.nodes@[a].id < self.next_node_id
                && self.nodes@[a].properties.wf() by {
                let a2 = if a < idx { a } else { a + 1 };
                assert(self.nodes@[a] == before_nodes[a2]);
            }
            assert forall|k: int| 0 <= k < self.edges@.len() implies self.edges@[k].id < self.next_edge_id
                && self.edges@[k].properties.wf() && has_node(
                ns2,
                (#[trigger] self.edges@[k]).source,
            ) && has_node(ns2, self.edges@[k].target) by {
                let j = choose|j: int| 0 <= j < es.len() && #[trigger] self.edges@[k]@ == es[j] && self.edges@[k].properties.wf();
                assert(self.edges@[k].id == es[j].id);
                lemma_not_touching_excludes(es.take(es.len() as int), id, k);
                let s = self.edges@[k].source;
                let t = self.edges@[k].target;
                let a = choose|a: int| 0 <= a < ns.len() && #[trigger] ns[a].id == s;
                let b = choose|b: int| 0 <= b < ns.len() && #[trigger] ns[b].id == t;
                assert(a != idx && b != idx);
                let a2 = if a < idx { a } else { a - 1 };
                let b2 = if b < idx { b } else { b - 1 };
                assert(ns2[a2].id == s);
                assert(ns2[b2].id == t);
            }
            assert(ns[idx as int].id == id);
        }
        true
    }

    /// The edges that leave `node_id`, in id order.
    pub fn get_outgoing_edges(&self, node_id: NodeId) -> (r: Vec<&GraphEdge>)
        ensures
            edge_refs(r@) == edges_from(self.edge_seq(), node_id),
    {
        let ghost es = self.edge_seq();
        let mut r: Vec<&GraphEdge> = Vec::new();
        let mut i: usize = 0;
        while i < self.edges.len()
            invariant
                es == self.edge_seq(),
                i <= self.edges@.len(),
                edge_refs(r@) == edges_from(es.take(i as int), node_id),
            decreases self.edges@.len() - i,
        {
            proof {
                assert(es.take(i + 1).drop_last() =~= es.take(i as int));
            }
            if self.edges[i].source == node_id {
                let ghost before = edge_refs(r@);
                r.push(&self.edges[i]);
                assert(edge_refs(r@) =~= before.push(es[i as int]));
            }
            i = i + 1;
        }
        assert(es.take(es.len() as int) =~= es);
        r
    }

    /// The edges that enter `node_id`, in id order.
    pub fn get_incoming_edges(&self, node_id: NodeId) -> (r: Vec<&GraphEdge>)
        ensures
            edge_refs(r@) == edges_to(self.edge_seq(), node_id),
    {
        let ghost es = self.edge_seq();
        let mut r: Vec<&GraphEdge> = Vec::new();
        let mut i: usize = 0;
        while i < self.edges.len()
            invariant
                es == self.edge_seq(),
                i <= self.edges@.len(),
                edge_refs(r@) == edges_to(es.take(i as int), node_id),
            decreases self.edges@.len() - i,
        {
            proof {
                assert(es.take(i + 1).drop_last() =~= es.take(i as int));
            }
            if self.edges[i].target == node_id {
                let ghost before = edge_refs(r@);
                r.push(&self.edges[i]);
                assert(edge_refs(r@) =~= before.push(es[i as int]));
            }
            i = i + 1;
        }
        assert(es.take(es.len() as int) =~= es);
        r
    }

    /// The nodes that carry `label`, in id order.
    pub fn find_nodes_by_label(&self, label: &str) -> (r: Vec<&GraphNode>)
        ensures
            node_refs(r@) == nodes_labelled(self.node_seq(), label@),
    {
        let ghost ns = self.node_seq();
        let mut r: Vec<&GraphNode> = Vec::new();
        let mut i: usize = 0;
        while i < self.nodes.len()
            invariant
                ns == self.node_seq(),
                i <= self.nodes@.len(),
                node_refs(r@) == nodes_labelled(ns.take(i as int), label@),
            decreases self.nodes@.len() - i,
        {
            proof {
                assert(ns.take(i + 1).drop_last() =~= ns.take(i as int));
            }
            if contains_word(&self.nodes[i].labels, label) {
                let ghost before = node_refs(r@);
                r.push(&self.nodes[i]);
                assert(node_refs(r@) =~= before.push(ns[i as int]));
            }
            i = i + 1;
        }
        assert(ns.take(ns.len() as int) =~= ns);
        r
    }

    /// The edges labelled `label`, in id order.
    pub fn find_edges_by_label(&self, label: &str) -> (r: Vec<&GraphEdge>)
        ensures
            edge_refs(r@) == edges_labelled(self.edge_seq(), label@),
    {
        let ghost es = self.edge_seq();
        let mut r: Vec<&GraphEdge> = Vec::new();
        let mut i: usize = 0;
        while i < self.edges.len()
            invariant
                es == self.edge_seq(),
                i <= self.edges@.len(),
                edge_refs(r@) == edges_labelled(es.take(i as int), label@),
            decreases self.edges@.len() - i,
        {
            proof {
                assert(es.take(i + 1).drop_last() =~= es.take(i as int));
            }
            if str_eq(self.edges[i].label.as_str(), label) {
                let ghost before = edge_refs(r@);
                r.push(&self.edges[i]);
                assert(edge_refs(r@) =~= before.push(es[i as int]));
            }
            i = i + 1;
        }
        assert(es.take(es.len() as int) =~= es);
        r
    }

    /// The far ends of the edges labelled `edge_label` that leave (or, for
    /// `incoming`, enter) `start`, in edge order.
    fn neighbours<'a>(&'a self, start: NodeId, edge_label: &str, incoming: bool, r: &mut Vec<&'a GraphNode>)
        requires
            self.wf(),
        ensures
            !incoming ==> node_refs(final(r)@) == node_refs(old(r)@) + out_targets(
                self.edge_seq(),
                self.node_seq(),
                start,
                edge_label@,
            ),
            incoming ==> node_refs(final(r)@) == node_refs(old(r)@) + in_sources(
                self.edge_seq(),
                self.node_seq(),
                start,
                edge_label@,
            ),
    {
        let ghost es = self.edge_seq();
        let ghost ns = self.node_seq();
        let ghost r0 = node_refs(r@);
        let mut i: usize = 0;
        assert(r0 + out_targets(es.take(0), ns, start, edge_label@) =~= r0);
        assert(r0 + in_sources(es.take(0), ns, start, edge_label@) =~= r0);
        while i < self.edges.len()
            invariant
                self.wf(),
                es == self.edge_seq(),
                ns == self.node_seq(),
                i <= self.edges@.len(),
                !incoming ==> node_refs(r@) == r0 + out_targets(es.take(i as int), ns, start, edge_label@),
                incoming ==> node_refs(r@) == r0 + in_sources(es.take(i as int), ns, start, edge_label@),
            decreases self.edges@.len() - i,
        {
            proof {
                assert(es.take(i + 1).drop_last() =~= es.take(i as int));
            }
            let e = &self.edges[i];
            let (near, far) = if incoming {
                (e.target, e.source)
            } else {
                (e.source, e.target)
            };
            if near == start && str_eq(e.label.as_str(), edge_label) {
                match self.find_node(far) {
                    Some(k) => {
                        let ghost before = node_refs(r@);
                        r.push(&self.nodes[k]);
                        proof {
                            assert(node_refs(r@) =~= before.push(ns[k as int]));
                            if incoming {
                                assert(r0 + in_sources(es.take(i + 1), ns, start, edge_label@) =~= (r0 + in_sources(
                                    es.take(i as int),
                                    ns,
                                    start,
                                    edge_label@,
                                )).push(ns[k as int]));
                            } else {
                                assert(r0 + out_targets(es.take(i + 1), ns, start, edge_label@) =~= (r0 + out_targets(
                                    es.take(i as int),
                                    ns,
                                    start,
                                    edge_label@,
                                )).push(ns[k as int]));
                            }
                        }
                    },
                    None => {},
                }
            }
            i = i + 1;
        }
        assert(es.take(es.len() as int) =~= es);
    }

    /// The neighbours of `start` over edges labelled `edge_label` in the
    /// given direction, in edge order (outgoing ones first for `Both`); none
    /// when there is no such node.
    pub fn traverse(&self, start_id: NodeId, edge_label: &str, direction: TraversalDirection) -> (r: Vec<&GraphNode>)
        requires
            self.wf(),
        ensures
            node_refs(r@) == traversal(self.edge_seq(), self.node_seq(), start_id, edge_label@, direction),
    {
        let mut r: Vec<&GraphNode> = Vec::new();
        if self.find_node(start_id).is_none() {
            assert(node_refs(r@) =~= Seq::<NodeView>::empty());
            return r;
        }
        assert(node_refs(r@) =~= Seq::<NodeView>::empty());
        match direction {
            TraversalDirection::Outgoing => {
                self.neighbours(start_id, edge_label, false, &mut r);
                assert(node_refs(r@) =~= out_targets(self.edge_seq(), self.node_seq(), start_id, edge_label@));
            },
            TraversalDirection::Incoming => {
                self.neighbours(start_id, edge_label, true, &mut r);
                assert(node_refs(r@) =~= in_sources(self.edge_seq(), self.node_seq(), start_id, edge_label@));
            },
            TraversalDirection::Both => {
                self.neighbours(start_id, edge_label, false, &mut r);
                self.neighbours(start_id, edge_label, true, &mut r);
                assert(node_refs(r@) =~= out_targets(self.edge_seq(), self.node_seq(), start_id, edge_label@)
                    + in_sources(self.edge_seq(), self.node_seq(), start_id, edge_label@));
            },
        }
        r
    }

    /// Follows, from the queued node `cur` at `depth` reached by `path`, the
    /// edges the query may take that leave it (or, for `incoming`, enter it):
    /// each is recorded, and each far end not yet visited is queued.
    fn expand(&self, q: &GraphQuery, st: &mut Bfs, cur: NodeId, depth: usize, path: &Vec<NodeId>, incoming: bool)
        requires
            self.wf(),
            queue_inv(*old(st), self.node_seq(), self.edge_seq(), q@),
            depth < q.max_depth,
            path@.len() == depth + 1,
            path_ok(path@, cur, self.node_seq(), self.edge_seq(), q@),
            !incoming ==> q.direction != TraversalDirection::Incoming,
            incoming ==> q.direction != TraversalDirection::Outgoing,
            depths_sorted(old(st).queue@),
            forall|k: int| 0 <= k < old(st).queue@.len() ==> (#[trigger] old(st).queue@[k]).1 <= depth + 1,
        ensures
            queue_inv(*final(st), self.node_seq(), self.edge_seq(), q@),
            final(st).nodes == old(st).nodes,
            final(st).paths == old(st).paths,
            old(st).queue@.len() <= final(st).queue@.len(),
            forall|k: int| 0 <= k < old(st).queue@.len() ==> #[trigger] final(st).visited@[k] == old(st).visited@[k],
            forall|k: int| 0 <= k < old(st).queue@.len() ==> #[trigger] final(st).queue@[k] == old(st).queue@[k],
            depths_sorted(final(st).queue@),
            forall|k: int| 0 <= k < final(st).queue@.len() ==> (#[trigger] final(st).queue@[k]).1 <= depth + 1,
            expanded(final(st).queue@, self.edge_seq(), q@, cur, depth as int, incoming),
            old(st).edges@.len() <= final(st).edges@.len(),
            forall|j: int| 0 <= j < old(st).edges@.len() ==> #[trigger] final(st).edges@[j] == old(st).edges@[j],
            edges_expanded(final(st).edges@, self.edge_seq(), q@, cur, incoming),
    {
        let ghost ns = self.node_seq();
        let ghost es = self.edge_seq();
        let ghost qv = q@;
        let ghost v0 = st.visited@;
        let ghost q0 = st.queue@;
        let ghost e0 = st.edges@;
        let mut i: usize = 0;
        while i < self.edges.len()
            invariant
                self.wf(),
                ns == self.node_seq(),
                es == self.edge_seq(),
                qv == q@,
                queue_inv(*st, ns, es, qv),
                st.nodes == old(st).nodes,
                st.paths == old(st).paths,
                v0 == old(st).visited@,
                v0.len() <= st.visited@.len(),
                forall|k: int| 0 <= k < v0.len() ==> #[trigger] st.visited@[k] == v0[k],
                q0 == old(st).queue@,
                q0.len() <= st.queue@.len(),
                forall|k: int| 0 <= k < q0.len() ==> #[trigger] st.queue@[k] == q0[k],
                depths_sorted(st.queue@),
                forall|k: int| 0 <= k < st.queue@.len() ==> (#[trigger] st.queue@[k]).1 <= depth + 1,
                forall|m: int|
                    0 <= m < i && label_ok(es[m], qv.edge_label) && near_end(#[trigger] es[m], incoming) == cur
                        ==> reached(st.queue@, far_end(es[m], incoming), depth + 1),
                e0 == old(st).edges@,
                e0.len() <= st.edges@.len(),
                forall|j: int| 0 <= j < e0.len() ==> #[trigger] st.edges@[j] == e0[j],
                forall|m: int|
                    0 <= m < i && label_ok(es[m], qv.edge_label) && near_end(#[trigger] es[m], incoming) == cur
                        ==> edge_recorded(st.edges@, es[m]),
                depth < q.max_depth,
                path@.len() == depth + 1,
                path_ok(path@, cur, ns, es, qv),
                !incoming ==> q.direction != TraversalDirection::Incoming,
                incoming ==> q.direction != TraversalDirection::Outgoing,
                i <= self.edges@.len(),
            decreases self.edges@.len() - i,
        {
            let ghost qi = st.queue@;
            let ghost ei = st.edges@;
            proof {
                assert(es[i as int] == self.edges@[i as int]@);
                assert(near_end(es[i as int], incoming) == (if incoming { self.edges@[i as int].target } else { self.edges@[i as int].source }));
            }
            let e = &self.edges[i];
            let (near, far) = if incoming {
                (e.target, e.source)
            } else {
                (e.source, e.target)
            };
            let label_fits = match &q.edge_label {
                Some(l) => str_eq(e.label.as_str(), l.as_str()),
                None => true,
            };
            if near == cur && label_fits {
                if self.find_node(far).is_some() {
                    let c = e.copy();
                    let ghost eb = st.edges@;
                    st.edges.push(c);
                    proof {
                        assert(es[i as int] == e@);
                        assert(label_ok(es[i as int], qv.edge_label));
                        assert forall|j: int| 0 <= j < st.edges@.len() implies edge_ok((#[trigger] st.edges@[j])@, es, qv) by {
                            if j < eb.len() {
                                assert(st.edges@[j] == eb[j]);
                            } else {
                                assert(es[i as int] == st.edges@[j]@);
                            }
                        }
                    }
                    if !contains_id(&st.visited, far) {
                        let mut new_path = copy_ids(path);
                        new_path.push(far);
                        let ghost qb = st.queue@;
                        let ghost vb = st.visited@;
                        st.visited.push(far);
                        st.queue.push((far, depth + 1, new_path));
                        proof {
                            let np = new_path@;
                            assert(links(es[i as int], cur, far, qv.direction));
                            assert(step(es, cur, far, qv));
                            assert forall|a: int| #![trigger np[a]] 0 <= a < np.len() - 1 implies step(es, np[a], np[a + 1], qv) by {
                                if a < path@.len() - 1 {
                                    assert(np[a] == path@[a] && np[a + 1] == path@[a + 1]);
                                    assert(step(es, path@[a], path@[a + 1], qv));
                                } else {
                                    assert(np[a] == cur && np[a + 1] == far);
                                }
                            }
                            assert(np[0] == path@[0]);
                            assert(path_ok(np, far, ns, es, qv));
                            assert forall|k: int| 0 <= k < st.queue@.len() implies (#[trigger] st.queue@[k]).0 == st.visited@[k]
                                && entry_ok(st.queue@[k], ns, es, qv) by {
                                if k < qb.len() {
                                    assert(st.queue@[k] == qb[k]);
                                    assert(st.visited@[k] == vb[k]);
                                }
                            }
                            assert forall|a: int, b: int| 0 <= a < b < st.visited@.len() implies st.visited@[a] != st.visited@[b] by {
                                if b == vb.len() {
                                    assert(st.visited@[a] == vb[a]);
                                }
                            }
                            assert forall|k: int| 0 <= k < st.visited@.len() implies has_node(ns, #[trigger] st.visited@[k]) by {
                                assert(entry_ok(st.queue@[k], ns, es, qv));
                            }
                            lemma_distinct_ids_bounded(st.visited@, ns);
                            assert(st.queue@[qb.len() as int].0 == far && st.queue@[qb.len() as int].1 == depth + 1);
                            assert(reached(st.queue@, far, depth + 1));
                            assert forall|k: int| 0 <= k < qb.len() implies #[trigger] st.queue@[k] == qb[k] by {}
                            assert forall|a: int, b: int| 0 <= a < b < st.queue@.len() implies (#[trigger] st.queue@[a]).1
                                <= (#[trigger] st.queue@[b]).1 by {
                                if b < qb.len() {
                                    assert(st.queue@[a] == qb[a] && st.queue@[b] == qb[b]);
                                } else {
                                    assert(st.queue@[a] == qb[a]);
                                }
                            }
                        }
                    } else {
                        proof {
                            let j = choose|j: int| 0 <= j < st.visited@.len() && st.visited@[j] == far;
                            assert(st.queue@[j].0 == far);
                            assert(reached(st.queue@, far, depth + 1));
                        }
                    }
                } else {
                    proof {
                        assert(has_node(ns, self.edges@[i as int].source) && has_node(ns, self.edges@[i as int].target));
                        assert(false);
                    }
                }
            }
            proof {
                assert(qi.len() <= st.queue@.len());
                assert forall|m: int|
                    0 <= m < i + 1 && label_ok(es[m], qv.edge_label) && near_end(#[trigger] es[m], incoming) == cur
                        implies reached(st.queue@, far_end(es[m], incoming), depth + 1) by {
                    if m < i {
                        lemma_reached_grow(qi, st.queue@, far_end(es[m], incoming), depth + 1);
                    } else {
                        assert(near == cur);
                        assert(label_fits);
                        assert(far_end(es[m], incoming) == far);
                    }
                }
                assert forall|m: int|
                    0 <= m < i + 1 && label_ok(es[m], qv.edge_label) && near_end(#[trigger] es[m], incoming) == cur
                        implies edge_recorded(st.edges@, es[m]) by {
                    if m < i {
                        let j = choose|j: int| 0 <= j < ei.len() && (#[trigger] ei[j])@ == es[m];
                        assert(st.edges@[j] == ei[j]);
                    } else {
                        assert(near == cur);
                        assert(label_fits);
                        assert(st.edges@[ei.len() as int]@ == es[m]);
                    }
                }
            }
            i = i + 1;
        }
    }

    /// Reports the queued node at `head` when it passes the filters.
    fn report(&self, q: &GraphQuery, st: &mut Bfs, head: usize)
        requires
            self.wf(),
            q.property_filters.wf(),
            queue_inv(*old(st), self.node_seq(), self.edge_seq(), q@),
            results_inv(*old(st), self.node_seq(), self.edge_seq(), q@, head as int),
            head < old(st).queue@.len(),
            depths_sorted(old(st).queue@),
        ensures
            queue_inv(*final(st), self.node_seq(), self.edge_seq(), q@),
            results_inv(*final(st), self.node_seq(), self.edge_seq(), q@, head + 1),
            final(st).queue == old(st).queue,
            final(st).visited == old(st).visited,
            final(st).edges == old(st).edges,
    {
        let ghost ns = self.node_seq();
        let ghost es = self.edge_seq();
        let ghost qv = q@;
        let cur = st.queue[head].0;
        proof {
            assert(entry_ok(st.queue@[head as int], ns, es, qv));
            assert(st.visited@[head as int] == cur);
        }
        let k = match self.find_node(cur) {
            Some(k) => k,
            None => {
                return;
            },
        };
        if matches_filters(&self.nodes[k], &q.property_filters) {
            let c = self.nodes[k].copy();
            let p2 = copy_ids(&st.queue[head].2);
            let ghost nb = st.nodes@;
            let ghost pb = st.paths@;
            st.nodes.push(c);
            st.paths.push(p2);
            proof {
                let v = st.visited@;
                assert(v.take(head + 1) =~= v.take(head as int).push(cur));
                assert forall|i: int| 0 <= i < st.nodes@.len() implies node_result_ok(
                    #[trigger] st.nodes@[i],
                    st.paths@[i]@,
                    ns,
                    es,
                    qv,
                ) && v.take(head + 1).contains(st.nodes@[i].id) by {
                    if i < nb.len() {
                        assert(st.nodes@[i] == nb[i] && st.paths@[i] == pb[i]);
                        assert(v.take(head as int).contains(nb[i].id));
                    } else {
                        assert(v.take(head + 1)[head as int] == cur);
                    }
                }
                assert forall|i: int, j: int| 0 <= i < j < st.nodes@.len() implies (#[trigger] st.nodes@[i]).id
                    != (#[trigger] st.nodes@[j]).id by {
                    if j < nb.len() {
                        assert(st.nodes@[i] == nb[i] && st.nodes@[j] == nb[j]);
                    } else {
                        assert(st.nodes@[i] == nb[i]);
                        assert(v.take(head as int).contains(nb[i].id));
                        let x = choose|x: int| 0 <= x < v.take(head as int).len() && v.take(head as int)[x] == nb[i].id;
                        assert(v[x] == nb[i].id);
                    }
                }
                let qq = st.queue@;
                assert forall|i: int| 0 <= i < st.nodes@.len() implies from_queue(qq, #[trigger] st.nodes@[i], st.paths@[i]@, head + 1) by {
                    if i < nb.len() {
                        assert(st.nodes@[i] == nb[i] && st.paths@[i] == pb[i]);
                        let k = choose|k: int| 0 <= k < head && (#[trigger] qq[k]).0 == nb[i].id && qq[k].2@ == pb[i]@;
                    } else {
                        assert(qq[head as int].0 == st.nodes@[i].id && qq[head as int].2@ == st.paths@[i]@);
                    }
                }
                assert forall|i: int, j: int| 0 <= i < j < st.paths@.len() implies (#[trigger] st.paths@[i])@.len()
                    <= (#[trigger] st.paths@[j])@.len() by {
                    if j < pb.len() {
                        assert(st.paths@[i] == pb[i] && st.paths@[j] == pb[j]);
                    } else {
                        assert(st.paths@[i] == pb[i] && st.nodes@[i] == nb[i]);
                        assert(from_queue(qq, nb[i], pb[i]@, head as int));
                        let k = choose|k: int| 0 <= k < head && (#[trigger] qq[k]).0 == nb[i].id && qq[k].2@ == pb[i]@;
                        assert(entry_ok(qq[k], ns, es, qv));
                        assert(entry_ok(qq[head as int], ns, es, qv));
                        assert(qq[k].1 <= qq[head as int].1);
                    }
                }
                assert(reported_ids(st.nodes@) =~= reported_ids(nb).push(cur));
                assert forall|x: int|
                    0 <= x < head + 1 && filters_match(node_of(ns, #[trigger] st.visited@[x]).properties, qv.property_filters)
                        implies reported_ids(st.nodes@).contains(st.visited@[x]) by {
                    if x < head {
                        let i = choose|i: int| 0 <= i < reported_ids(nb).len() && reported_ids(nb)[i] == v[x];
                        assert(reported_ids(st.nodes@)[i] == v[x]);
                    } else {
                        assert(reported_ids(st.nodes@)[nb.len() as int] == cur);
                    }
                }
            }
        } else {
            proof {
                assert(node_of(ns, cur) == self.nodes@[k as int]@);
                assert(st.visited@.take(head + 1) =~= st.visited@.take(head as int).push(cur));
                assert forall|i: int| 0 <= i < st.nodes@.len() implies st.visited@.take(head + 1).contains(
                    (#[trigger] st.nodes@[i]).id,
                ) by {
                    let x = choose|x: int| 0 <= x < st.visited@.take(head as int).len() && st.visited@.take(head as int)[x] == st.nodes@[i].id;
                    assert(st.visited@.take(head + 1)[x] == st.nodes@[i].id);
                }
            }
        }
    }

    /// Follows, from the queued node `cur` at `depth` reached by `path`, the
    /// edges the query may take away from it in each direction it follows.
    fn expand_dirs(&self, q: &GraphQuery, st: &mut Bfs, cur: NodeId, depth: usize, path: &Vec<NodeId>)
        requires
            self.wf(),
            queue_inv(*old(st), self.node_seq(), self.edge_seq(), q@),
            depth < q.max_depth,
            path@.len() == depth + 1,
            path_ok(path@, cur, self.node_seq(), self.edge_seq(), q@),
            depths_sorted(old(st).queue@),
            forall|k: int| 0 <= k < old(st).queue@.len() ==> (#[trigger] old(st).queue@[k]).1 <= depth + 1,
        ensures
            steps_taken(*old(st), *final(st), self.node_seq(), self.edge_seq(), q@, cur, depth as int),
    {
        let ghost es = self.edge_seq();
        let ghost qv = q@;
        let ghost st1 = *st;
        match q.direction {
            TraversalDirection::Outgoing => {
                self.expand(q, st, cur, depth, path, false);
            },
            TraversalDirection::Incoming => {
                self.expand(q, st, cur, depth, path, true);
            },
            TraversalDirection::Both => {
                self.expand(q, st, cur, depth, path, false);
                let ghost st2 = *st;
                self.expand(q, st, cur, depth, path, true);
                proof {
                    assert forall|k: int| 0 <= k < st1.visited@.len() implies #[trigger] st.visited@[k] == st1.visited@[k] by {
                        assert(st2.visited@[k] == st1.visited@[k]);
                    }
                    assert forall|k: int| 0 <= k < st1.queue@.len() implies #[trigger] st.queue@[k] == st1.queue@[k] by {
                        assert(st2.queue@[k] == st1.queue@[k]);
                    }
                    assert forall|j: int| 0 <= j < st1.edges@.len() implies #[trigger] st.edges@[j] == st1.edges@[j] by {
                        assert(st2.edges@[j] == st1.edges@[j]);
                    }
                    lemma_expanded_grow(st2.queue@, st.queue@, es, qv, cur, depth as int, false);
                    lemma_edges_expanded_grow(st2.edges@, st.edges@, es, qv, cur, false);
                }
            },
        }
    }

    /// Reports the queued node at `head` if it passes the filters and, when
    /// it lies less than `max_depth` steps away, follows the edges the query
    /// may take away from it.
    fn visit(&self, q: &GraphQuery, st: &mut Bfs, head: usize)
        requires
            self.wf(),
            q.property_filters.wf(),
            bfs_inv(*old(st), self.node_seq(), self.edge_seq(), q@, head as int),
            head < old(st).queue@.len(),
        ensures
            bfs_inv(*final(st), self.node_seq(), self.edge_seq(), q@, head + 1),
    {
        let ghost ns = self.node_seq();
        let ghost es = self.edge_seq();
        let ghost qv = q@;
        let ghost st0 = *st;
        proof {
            lemma_bfs_parts(st0, ns, es, qv, head as int);
        }
        let cur = st.queue[head].0;
        let depth = st.queue[head].1;
        let path = copy_ids(&st.queue[head].2);
        proof {
            assert(entry_ok(st.queue@[head as int], ns, es, qv));
        }
        self.report(q, st, head);
        if depth < q.max_depth {
            let ghost st1 = *st;
            self.expand_dirs(q, st, cur, depth, &path);
            proof {
                lemma_visit_closed(st0, st1, *st, ns, es, qv, head as int);
            }
        } else {
            proof {
                lemma_visit_leaf(st0, *st, ns, es, qv, head as int);
            }
        }
    }

    /// Queues every start node, in id order, at depth zero with itself as
    /// its path; nothing is reported yet.
    fn seed(&self, q: &GraphQuery) -> (st: Bfs)
        requires
            self.wf(),
        ensures
            queue_inv(st, self.node_seq(), self.edge_seq(), q@),
            st.nodes@.len() == 0,
            st.paths@.len() == 0,
            forall|b: int|
                0 <= b < self.node_seq().len() && is_start(#[trigger] self.node_seq()[b], q@.start_labels)
                    ==> st.visited@.contains(self.node_seq()[b].id),
            forall|b: int|
                0 <= b < self.node_seq().len() && is_start(#[trigger] self.node_seq()[b], q@.start_labels)
                    ==> reached(st.queue@, self.node_seq()[b].id, 0),
            forall|k: int| 0 <= k < st.queue@.len() ==> (#[trigger] st.queue@[k]).1 == 0,
    {
        let ghost ns = self.node_seq();
        let ghost es = self.edge_seq();
        let ghost qv = q@;
        let mut st = Bfs { queue: Vec::new(), visited: Vec::new(), nodes: Vec::new(), edges: Vec::new(), paths: Vec::new() };
        let mut a: usize = 0;
        while a < self.nodes.len()
            invariant
                self.wf(),
                ns == self.node_seq(),
                es == self.edge_seq(),
                qv == q@,
                a <= self.nodes@.len(),
                queue_inv(st, ns, es, qv),
                st.nodes@.len() == 0,
                st.paths@.len() == 0,
                forall|k: int| 0 <= k < st.visited@.len() ==> exists|b: int| 0 <= b < a && #[trigger] st.visited@[k] == ns[b].id,
                forall|b: int| 0 <= b < a && is_start(#[trigger] ns[b], qv.start_labels) ==> st.visited@.contains(ns[b].id),
                forall|k: int| 0 <= k < st.queue@.len() ==> (#[trigger] st.queue@[k]).1 == 0,
            decreases self.nodes@.len() - a,
        {
            let n = &self.nodes[a];
            if is_start_node(n, &q.start_labels) {
                let id = n.id;
                let mut path: Vec<NodeId> = Vec::new();
                path.push(id);
                let ghost qb = st.queue@;
                let ghost vb = st.visited@;
                st.visited.push(id);
                st.queue.push((id, 0, path));
                proof {
                    assert(ns[a as int].id == id);
                    assert(has_node(ns, id));
                    assert(node_of(ns, id) == ns[a as int]) by {
                        let c = choose|c: int| 0 <= c < ns.len() && #[trigger] ns[c].id == id;
                        if c < a {
                            assert(ns[c].id < ns[a as int].id);
                        } else if c > a {
                            assert(ns[a as int].id < ns[c].id);
                        }
                    }
                    assert(path@[0] == id);
                    assert forall|k: int| 0 <= k < st.queue@.len() implies (#[trigger] st.queue@[k]).0 == st.visited@[k]
                        && entry_ok(st.queue@[k], ns, es, qv) by {
                        if k < qb.len() {
                            assert(st.queue@[k] == qb[k]);
                            assert(st.visited@[k] == vb[k]);
                        }
                    }
                    assert forall|x: int, y: int| 0 <= x < y < st.visited@.len() implies st.visited@[x] != st.visited@[y] by {
                        if y == vb.len() {
                            assert(st.visited@[x] == vb[x]);
                            let b = choose|b: int| 0 <= b < a && #[trigger] vb[x] == ns[b].id;
                            assert(ns[b].id < ns[a as int].id);
                        }
                    }
                    assert forall|k: int| 0 <= k < st.visited@.len() implies exists|b: int| 0 <= b < a + 1 && #[trigger] st.visited@[k]
                        == ns[b].id by {
                        if k < vb.len() {
                            assert(st.visited@[k] == vb[k]);
                        } else {
                            assert(st.visited@[k] == ns[a as int].id);
                        }
                    }
                    assert forall|k: int| 0 <= k < st.visited@.len() implies has_node(ns, #[trigger] st.visited@[k]) by {
                        assert(entry_ok(st.queue@[k], ns, es, qv));
                    }
                    lemma_distinct_ids_bounded(st.visited@, ns);
                    assert forall|k: int| 0 <= k < st.queue@.len() implies (#[trigger] st.queue@[k]).1 == 0 by {
                        if k < qb.len() {
                            assert(st.queue@[k] == qb[k]);
                        }
                    }
                    assert forall|b: int| 0 <= b < a + 1 && is_start(#[trigger] ns[b], qv.start_labels) implies st.visited@.contains(
                        ns[b].id,
                    ) by {
                        if b < a {
                            let k = choose|k: int| 0 <= k < vb.len() && vb[k] == ns[b].id;
                            assert(st.visited@[k] == vb[k]);
                        } else {
                            assert(st.visited@[vb.len() as int] == ns[b].id);
                        }
                    }
                }
            } else {
                proof {
                    assert(ns[a as int] == n@);
                }
            }
            a = a + 1;
        }
        proof {
            assert forall|b: int| 0 <= b < ns.len() && is_start(#[trigger] ns[b], qv.start_labels) implies reached(
                st.queue@,
                ns[b].id,
                0,
            ) by {
                let k = choose|k: int| 0 <= k < st.visited@.len() && st.visited@[k] == ns[b].id;
                assert(st.queue@[k].0 == ns[b].id);
            }
        }
        st
    }

    /// Runs a breadth-first query. Every reported node is a node of the
    /// graph that passes the filters, reported once, with a path of at most
    /// `max_depth` steps from a start node; every reported edge is an edge
    /// the query may follow; every node that passes the filters and that a
    /// walk the query may take reaches from a start node in at most
    /// `max_depth` steps is reported (start nodes among them). Nodes are
    /// reported in breadth-first order: their paths never get shorter along
    /// the result, and each is a shortest walk the query may take to its
    /// node. Every edge the query may follow away from a node that lies
    /// less than `max_depth` steps away is reported.
    pub fn query(&self, q: &GraphQuery) -> (r: GraphQueryResult)
        requires
            self.wf(),
            q.property_filters.wf(),
        ensures
            r.nodes@.len() == r.paths@.len(),
            forall|i: int|
                0 <= i < r.nodes@.len() ==> node_result_ok(
                    #[trigger] r.nodes@[i],
                    r.paths@[i]@,
                    self.node_seq(),
                    self.edge_seq(),
                    q@,
                ),
            forall|i: int, j: int| 0 <= i < j < r.nodes@.len() ==> (#[trigger] r.nodes@[i]).id != (#[trigger] r.nodes@[j]).id,
            forall|j: int| 0 <= j < r.edges@.len() ==> edge_ok((#[trigger] r.edges@[j])@, self.edge_seq(), q@),
            forall|a: int|
                0 <= a < self.node_seq().len() && is_start(#[trigger] self.node_seq()[a], q@.start_labels)
                    && filters_match(self.node_seq()[a].properties, q@.property_filters) ==> exists|i: int|
                    0 <= i < r.nodes@.len() && (#[trigger] r.nodes@[i]).id == self.node_seq()[a].id,
            forall|p: Seq<NodeId>, id: NodeId|
                #[trigger] path_ok(p, id, self.node_seq(), self.edge_seq(), q@) && has_node(self.node_seq(), id)
                    && filters_match(node_of(self.node_seq(), id).properties, q@.property_filters) ==> exists|i: int|
                    0 <= i < r.nodes@.len() && (#[trigger] r.nodes@[i]).id == id,
            forall|i: int, j: int| 0 <= i < j < r.paths@.len() ==> (#[trigger] r.paths@[i])@.len() <= (#[trigger] r.paths@[j])@.len(),
            forall|i: int, p: Seq<NodeId>|
                0 <= i < r.nodes@.len() && #[trigger] path_ok(p, r.nodes@[i].id, self.node_seq(), self.edge_seq(), q@)
                    ==> r.paths@[i]@.len() <= p.len(),
            forall|p: Seq<NodeId>, id: NodeId, m: int|
                #![trigger path_ok(p, id, self.node_seq(), self.edge_seq(), q@), self.edge_seq()[m]]
                path_ok(p, id, self.node_seq(), self.edge_seq(), q@) && p.len() <= q@.max_depth && 0 <= m
                    < self.edge_seq().len() && label_ok(self.edge_seq()[m], q@.edge_label) && ((q@.direction
                    != TraversalDirection::Incoming && self.edge_seq()[m].source == id) || (q@.direction
                    != TraversalDirection::Outgoing && self.edge_seq()[m].target == id)) ==> edge_recorded(r.edges@, self.edge_seq()[m]),
    {
        let ghost ns = self.node_seq();
        let ghost es = self.edge_seq();
        let ghost qv = q@;
        let mut st = self.seed(q);
        proof {
            lemma_bfs_ends(st, ns, es, qv, 0);
        }
        let mut head: usize = 0;
        while head < st.queue.len()
            invariant
                self.wf(),
                ns == self.node_seq(),
                es == self.edge_seq(),
                qv == q@,
                q.property_filters.wf(),
                bfs_inv(st, ns, es, qv, head as int),
            decreases ns.len() - head,
        {
            proof {
                lemma_bfs_ends(st, ns, es, qv, head as int);
            }
            self.visit(q, &mut st, head);
            head = head + 1;
        }
        proof {
            lemma_bfs_ends(st, ns, es, qv, head as int);
            lemma_query_complete(st, ns, es, qv);
            assert(forall|a: int|
                0 <= a < ns.len() && is_start(#[trigger] ns[a], qv.start_labels)
                    && filters_match(ns[a].properties, qv.property_filters) ==> exists|i: int|
                    0 <= i < st.nodes@.len() && (#[trigger] st.nodes@[i]).id == ns[a].id);
            assert(forall|p: Seq<NodeId>, id: NodeId|
                #[trigger] path_ok(p, id, ns, es, qv) && has_node(ns, id) && filters_match(node_of(ns, id).properties, qv.property_filters)
                    ==> exists|i: int| 0 <= i < st.nodes@.len() && (#[trigger] st.nodes@[i]).id == id);
            assert(forall|i: int, p: Seq<NodeId>|
                0 <= i < st.nodes@.len() && #[trigger] path_ok(p, st.nodes@[i].id, ns, es, qv) ==> st.paths@[i]@.len() <= p.len());
            assert(forall|p: Seq<NodeId>, id: NodeId, m: int|
                #![trigger path_ok(p, id, ns, es, qv), es[m]]
                path_ok(p, id, ns, es, qv) && p.len() <= qv.max_depth && 0 <= m < es.len() && label_ok(es[m], qv.edge_label) && ((
                qv.direction != TraversalDirection::Incoming && es[m].source == id) || (qv.direction
                != TraversalDirection::Outgoing && es[m].target == id)) ==> edge_recorded(st.edges@, es[m]));
        }
        GraphQueryResult { nodes: st.nodes, edges: st.edges, paths: st.paths }
    }

    /// Every node, in id order.
    pub fn all_nodes(&self) -> (r: Vec<&GraphNode>)
        ensures
            node_refs(r@) == self.node_seq(),
    {
        let mut r: Vec<&GraphNode> = Vec::new();
        let mut i: usize = 0;
        while i < self.nodes.len()
            invariant
                i <= self.nodes@.len(),
                node_refs(r@) == self.node_seq().take(i as int),
            decreases self.nodes@.len() - i,
        {
            let ghost before = node_refs(r@);
            r.push(&self.nodes[i]);
            assert(node_refs(r@) =~= before.push(self.nodes@[i as int]@));
            assert(node_refs(r@) =~= self.node_seq().take(i + 1));
            i = i + 1;
        }
        assert(self.node_seq().take(self.nodes@.len() as int) =~= self.node_seq());
        r
    }

    /// Every edge, in id order.
    pub fn all_edges(&self) -> (r: Vec<&GraphEdge>)
        ensures
            edge_refs(r@) == self.edge_seq(),
    {
        let mut r: Vec<&GraphEdge> = Vec::new();
        let mut i: usize = 0;
        while i < self.edges.len()
            invariant
                i <= self.edges@.len(),
                edge_refs(r@) == self.edge_seq().take(i as int),
            decreases self.edges@.len() - i,
        {
            let ghost before = edge_refs(r@);
            r.push(&self.edges[i]);
            assert(edge_refs(r@) =~= before.push(self.edges@[i as int]@));
            assert(edge_refs(r@) =~= self.edge_seq().take(i + 1));
            i = i + 1;
        }
        assert(self.edge_seq().take(self.edges@.len() as int) =~= self.edge_seq());
        r
    }

    /// Number of nodes.
    pub fn node_count(&self) -> (n: usize)
        ensures
            n == self.node_seq().len(),
    {
        self.nodes.len()
    }

    /// Number of edges.
    pub fn edge_count(&self) -> (n: usize)
        ensures
            n == self.edge_seq().len(),
    {
        self.edges.len()
    }
}

impl Default for GraphEngine {
    fn default() -> (g: Self)
        ensures
            g.wf(),
            g.node_seq() == Seq::<NodeView>::empty(),
            g.edge_seq() == Seq::<EdgeView>::empty(),
            g.next_node() == 0,
            g.next_edge() == 0,
    {
        GraphEngine::new()
    }
}

} // verus!
