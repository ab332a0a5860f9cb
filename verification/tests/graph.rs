use primusdb::graph::{EdgeId, GraphEngine, GraphQuery, TraversalDirection};
use primusdb::strmap::StrMap;

fn json_text<T: serde::Serialize>(v: T) -> String {
    serde_json::to_string(&v).unwrap()
}

fn make_props(pairs: Vec<(&str, String)>) -> StrMap<String> {
    let mut m = StrMap::new();
    for (k, v) in pairs {
        m.insert(k.to_string(), v);
    }
    m
}

fn none() -> StrMap<String> {
    StrMap::new()
}

fn prop<'a>(props: &'a StrMap<String>, key: &str) -> &'a String {
    props.get(&key.to_string()).unwrap()
}

#[test]
fn test_add_and_get_node() {
    let mut graph = GraphEngine::new();
    let id = graph.add_node(vec!["Person".to_string()], make_props(vec![("name", json_text("Alice"))]));
    let node = graph.get_node(id).unwrap();
    assert_eq!(node.id, id);
    assert_eq!(node.labels, vec!["Person"]);
    assert_eq!(prop(&node.properties, "name"), &json_text("Alice"));
}

#[test]
fn test_add_edge() {
    let mut graph = GraphEngine::new();
    let a = graph.add_node(vec!["A".to_string()], none());
    let b = graph.add_node(vec!["B".to_string()], none());
    let eid = graph.add_edge(a, b, "connected".to_string(), none()).unwrap();
    let edge = graph.get_edge(eid).unwrap();
    assert_eq!(edge.source, a);
    assert_eq!(edge.target, b);
    assert_eq!(edge.label, "connected");
}

#[test]
fn test_remove_node_cascades() {
    let mut graph = GraphEngine::new();
    let a = graph.add_node(vec!["A".to_string()], none());
    let b = graph.add_node(vec!["B".to_string()], none());
    graph.add_edge(a, b, "link".to_string(), none()).unwrap();
    assert_eq!(graph.node_count(), 2);
    assert_eq!(graph.edge_count(), 1);
    assert!(graph.remove_node(a));
    assert_eq!(graph.node_count(), 1);
    assert_eq!(graph.edge_count(), 0);
    assert!(graph.get_node(a).is_none());
    assert!(graph.get_node(b).is_some());
}

#[test]
fn test_remove_edge() {
    let mut graph = GraphEngine::new();
    let a = graph.add_node(vec!["A".to_string()], none());
    let b = graph.add_node(vec!["B".to_string()], none());
    let eid = graph.add_edge(a, b, "link".to_string(), none()).unwrap();
    assert_eq!(graph.edge_count(), 1);
    assert!(graph.remove_edge(eid));
    assert_eq!(graph.edge_count(), 0);
    assert!(graph.get_edge(eid).is_none());
    assert!(graph.get_node(a).is_some());
    assert!(graph.get_node(b).is_some());
}

#[test]
fn test_find_by_label() {
    let mut graph = GraphEngine::new();
    graph.add_node(vec!["Person".to_string()], make_props(vec![("name", json_text("Alice"))]));
    graph.add_node(vec!["Person".to_string()], make_props(vec![("name", json_text("Bob"))]));
    graph.add_node(vec!["Company".to_string()], make_props(vec![("name", json_text("Acme"))]));
    assert_eq!(graph.find_nodes_by_label("Person").len(), 2);
    assert_eq!(graph.find_nodes_by_label("Company").len(), 1);
    assert!(graph.find_nodes_by_label("Nonexistent").is_empty());
}

#[test]
fn test_traverse_outgoing() {
    let mut graph = GraphEngine::new();
    let alice = graph.add_node(vec!["Person".to_string()], make_props(vec![("name", json_text("Alice"))]));
    let bob = graph.add_node(vec!["Person".to_string()], make_props(vec![("name", json_text("Bob"))]));
    let carol = graph.add_node(vec!["Person".to_string()], make_props(vec![("name", json_text("Carol"))]));
    graph.add_edge(alice, bob, "knows".to_string(), none()).unwrap();
    graph.add_edge(alice, carol, "knows".to_string(), none()).unwrap();
    graph.add_edge(bob, carol, "knows".to_string(), none()).unwrap();
    let friends = graph.traverse(alice, "knows", TraversalDirection::Outgoing);
    assert_eq!(friends.len(), 2);
    let names: Vec<String> = friends.iter().map(|n| prop(&n.properties, "name").clone()).collect();
    assert!(names.contains(&json_text("Bob")));
    assert!(names.contains(&json_text("Carol")));
}

#[test]
fn test_traverse_incoming() {
    let mut graph = GraphEngine::new();
    let alice = graph.add_node(vec!["Person".to_string()], make_props(vec![("name", json_text("Alice"))]));
    let bob = graph.add_node(vec!["Person".to_string()], make_props(vec![("name", json_text("Bob"))]));
    graph.add_edge(alice, bob, "knows".to_string(), none()).unwrap();
    let result = graph.traverse(bob, "knows", TraversalDirection::Incoming);
    assert_eq!(result.len(), 1);
    assert_eq!(prop(&result[0].properties, "name"), &json_text("Alice"));
}

#[test]
fn test_edge_to_nonexistent_node_errors() {
    let mut graph = GraphEngine::new();
    let a = graph.add_node(vec!["A".to_string()], none());
    let result = graph.add_edge(a, 999, "link".to_string(), none());
    assert!(result.is_err());
    let result = graph.add_edge(999, a, "link".to_string(), none());
    assert!(result.is_err());
}

#[test]
fn test_empty_graph() {
    let graph = GraphEngine::new();
    assert_eq!(graph.node_count(), 0);
    assert_eq!(graph.edge_count(), 0);
    assert!(graph.all_nodes().is_empty());
    assert!(graph.all_edges().is_empty());
}

#[test]
fn test_query_by_label() {
    let mut graph = GraphEngine::new();
    let alice = graph.add_node(vec!["Person".to_string()], make_props(vec![("name", json_text("Alice"))]));
    let bob = graph.add_node(vec!["Person".to_string()], make_props(vec![("name", json_text("Bob"))]));
    let charlie = graph.add_node(vec!["Person".to_string()], make_props(vec![("name", json_text("Charlie"))]));
    graph.add_edge(alice, bob, "knows".to_string(), none()).unwrap();
    graph.add_edge(bob, charlie, "knows".to_string(), none()).unwrap();
    let query = GraphQuery {
        start_labels: vec!["Person".to_string()],
        edge_label: Some("knows".to_string()),
        direction: TraversalDirection::Outgoing,
        max_depth: 2,
        property_filters: none(),
    };
    let result = graph.query(&query);
    assert_eq!(result.nodes.len(), 3);
    assert_eq!(result.edges.len(), 2);
}

#[test]
fn test_multiple_labels() {
    let mut graph = GraphEngine::new();
    let id = graph.add_node(
        vec!["Person".to_string(), "Employee".to_string()],
        make_props(vec![("name", json_text("Alice"))]),
    );
    let people = graph.find_nodes_by_label("Person");
    assert_eq!(people.len(), 1);
    let employees = graph.find_nodes_by_label("Employee");
    assert_eq!(employees.len(), 1);
    assert_eq!(people[0].id, id);
    assert_eq!(employees[0].id, id);
}

#[test]
fn test_node_properties() {
    let mut graph = GraphEngine::new();
    let id = graph.add_node(
        vec!["Person".to_string()],
        make_props(vec![("name", json_text("Alice")), ("age", json_text(30)), ("active", json_text(true))]),
    );
    let node = graph.get_node(id).unwrap();
    assert_eq!(prop(&node.properties, "name"), &json_text("Alice"));
    assert_eq!(prop(&node.properties, "age"), &json_text(30));
    assert_eq!(prop(&node.properties, "active"), &json_text(true));
}

#[test]
fn test_edge_properties() {
    let mut graph = GraphEngine::new();
    let a = graph.add_node(vec!["A".to_string()], none());
    let b = graph.add_node(vec!["B".to_string()], none());
    let eid = graph
        .add_edge(a, b, "works_at".to_string(), make_props(vec![("since", json_text(2020)), ("role", json_text("Engineer"))]))
        .unwrap();
    let edge = graph.get_edge(eid).unwrap();
    assert_eq!(prop(&edge.properties, "since"), &json_text(2020));
    assert_eq!(prop(&edge.properties, "role"), &json_text("Engineer"));
}

#[test]
fn test_traverse_both_directions() {
    let mut graph = GraphEngine::new();
    let a = graph.add_node(vec!["Node".to_string()], none());
    let b = graph.add_node(vec!["Node".to_string()], none());
    graph.add_edge(a, b, "linked".to_string(), none()).unwrap();
    assert_eq!(graph.traverse(a, "linked", TraversalDirection::Outgoing).len(), 1);
    assert!(graph.traverse(a, "linked", TraversalDirection::Incoming).is_empty());
    assert_eq!(graph.traverse(a, "linked", TraversalDirection::Both).len(), 1);
    assert_eq!(graph.traverse(b, "linked", TraversalDirection::Both).len(), 1);
}

#[test]
fn test_self_loop_edge() {
    let mut graph = GraphEngine::new();
    let a = graph.add_node(vec!["Node".to_string()], make_props(vec![("name", json_text("self"))]));
    let eid = graph.add_edge(a, a, "self_loop".to_string(), none()).unwrap();
    let edge = graph.get_edge(eid).unwrap();
    assert_eq!(edge.source, a);
    assert_eq!(edge.target, a);
    assert_eq!(graph.traverse(a, "self_loop", TraversalDirection::Outgoing).len(), 1);
    assert_eq!(graph.traverse(a, "self_loop", TraversalDirection::Incoming).len(), 1);
    assert_eq!(graph.traverse(a, "self_loop", TraversalDirection::Both).len(), 2);
}

#[test]
fn test_remove_nonexistent_node() {
    let mut graph = GraphEngine::new();
    assert!(!graph.remove_node(999));
}

#[test]
fn test_remove_nonexistent_edge() {
    let mut graph = GraphEngine::new();
    assert!(!graph.remove_edge(999));
}

#[test]
fn test_outgoing_edges_index() {
    let mut graph = GraphEngine::new();
    let a = graph.add_node(vec!["A".to_string()], none());
    let b = graph.add_node(vec!["B".to_string()], none());
    let c = graph.add_node(vec!["C".to_string()], none());
    let e1 = graph.add_edge(a, b, "to_b".to_string(), none()).unwrap();
    let e2 = graph.add_edge(a, c, "to_c".to_string(), none()).unwrap();
    let outgoing = graph.get_outgoing_edges(a);
    assert_eq!(outgoing.len(), 2);
    let ids: Vec<EdgeId> = outgoing.iter().map(|e| e.id).collect();
    assert!(ids.contains(&e1));
    assert!(ids.contains(&e2));
}

#[test]
fn test_incoming_edges_index() {
    let mut graph = GraphEngine::new();
    let a = graph.add_node(vec!["A".to_string()], none());
    let b = graph.add_node(vec!["B".to_string()], none());
    let c = graph.add_node(vec!["C".to_string()], none());
    let e1 = graph.add_edge(a, c, "to_c".to_string(), none()).unwrap();
    let e2 = graph.add_edge(b, c, "also_to_c".to_string(), none()).unwrap();
    let incoming = graph.get_incoming_edges(c);
    assert_eq!(incoming.len(), 2);
    let ids: Vec<EdgeId> = incoming.iter().map(|e| e.id).collect();
    assert!(ids.contains(&e1));
    assert!(ids.contains(&e2));
}

#[test]
fn test_query_with_property_filter() {
    let mut graph = GraphEngine::new();
    graph.add_node(vec!["Person".to_string()], make_props(vec![("name", json_text("Alice")), ("age", json_text(30))]));
    graph.add_node(vec!["Person".to_string()], make_props(vec![("name", json_text("Bob")), ("age", json_text(25))]));
    graph.add_node(vec!["Person".to_string()], make_props(vec![("name", json_text("Charlie")), ("age", json_text(30))]));
    let query = GraphQuery {
        start_labels: vec!["Person".to_string()],
        edge_label: None,
        direction: TraversalDirection::Outgoing,
        max_depth: 0,
        property_filters: make_props(vec![("age", json_text(30))]),
    };
    let result = graph.query(&query);
    assert_eq!(result.nodes.len(), 2);
}

#[test]
fn test_query_max_depth_zero() {
    let mut graph = GraphEngine::new();
    let a = graph.add_node(vec!["A".to_string()], none());
    let b = graph.add_node(vec!["B".to_string()], none());
    graph.add_edge(a, b, "link".to_string(), none()).unwrap();
    let query = GraphQuery {
        start_labels: vec!["A".to_string()],
        edge_label: None,
        direction: TraversalDirection::Outgoing,
        max_depth: 0,
        property_filters: none(),
    };
    let result = graph.query(&query);
    assert_eq!(result.nodes.len(), 1);
    assert_eq!(result.nodes[0].id, a);
    assert!(result.edges.is_empty());
}

#[test]
fn test_find_edges_by_label() {
    let mut graph = GraphEngine::new();
    let a = graph.add_node(vec!["A".to_string()], none());
    let b = graph.add_node(vec!["B".to_string()], none());
    let c = graph.add_node(vec!["C".to_string()], none());
    graph.add_edge(a, b, "knows".to_string(), none()).unwrap();
    graph.add_edge(b, c, "knows".to_string(), none()).unwrap();
    graph.add_edge(a, c, "likes".to_string(), none()).unwrap();
    assert_eq!(graph.find_edges_by_label("knows").len(), 2);
    assert_eq!(graph.find_edges_by_label("likes").len(), 1);
    assert!(graph.find_edges_by_label("nonexistent").is_empty());
}

#[test]
fn test_traverse_with_different_edge_labels() {
    let mut graph = GraphEngine::new();
    let a = graph.add_node(vec!["A".to_string()], none());
    let b = graph.add_node(vec!["B".to_string()], none());
    graph.add_edge(a, b, "knows".to_string(), none()).unwrap();
    graph.add_edge(a, b, "likes".to_string(), none()).unwrap();
    assert_eq!(graph.traverse(a, "knows", TraversalDirection::Outgoing).len(), 1);
    assert_eq!(graph.traverse(a, "likes", TraversalDirection::Outgoing).len(), 1);
}

#[test]
fn test_remove_node_cleans_indexes() {
    let mut graph = GraphEngine::new();
    let a = graph.add_node(vec!["A".to_string()], none());
    let b = graph.add_node(vec!["B".to_string()], none());
    let c = graph.add_node(vec!["C".to_string()], none());
    graph.add_edge(a, b, "link".to_string(), none()).unwrap();
    graph.add_edge(b, c, "link".to_string(), none()).unwrap();
    graph.remove_node(b);
    assert!(graph.get_node(b).is_none());
    assert_eq!(graph.edge_count(), 0);
    assert!(graph.get_outgoing_edges(a).is_empty());
    assert!(graph.get_incoming_edges(c).is_empty());
}

#[test]
fn test_large_graph_traversal() {
    let mut graph = GraphEngine::new();
    let first = graph.add_node(vec!["Root".to_string()], make_props(vec![("index", json_text(0))]));
    let mut rest = Vec::new();
    for i in 1..10 {
        rest.push(graph.add_node(vec!["Node".to_string()], make_props(vec![("index", json_text(i))])));
    }
    let mut prev = first;
    for &next in &rest {
        graph.add_edge(prev, next, "next".to_string(), none()).unwrap();
        prev = next;
    }
    let query = GraphQuery {
        start_labels: vec!["Root".to_string()],
        edge_label: Some("next".to_string()),
        direction: TraversalDirection::Outgoing,
        max_depth: 3,
        property_filters: none(),
    };
    let result = graph.query(&query);
    assert_eq!(result.nodes.len(), 4);
    assert_eq!(result.edges.len(), 3);
}

#[test]
fn missing_end_messages_name_the_id() {
    let mut graph = GraphEngine::new();
    let a = graph.add_node(vec![], none());
    assert_eq!(graph.add_edge(7, a, "x".to_string(), none()).unwrap_err(), "Source node 7 does not exist");
    assert_eq!(graph.add_edge(a, 42, "x".to_string(), none()).unwrap_err(), "Target node 42 does not exist");
    assert_eq!(graph.edge_count(), 0);
}

#[test]
fn ids_are_never_reused() {
    let mut graph = GraphEngine::new();
    let a = graph.add_node(vec![], none());
    assert!(graph.remove_node(a));
    let b = graph.add_node(vec![], none());
    assert_eq!(a, 0);
    assert_eq!(b, 1);
}

#[test]
fn query_paths_lead_from_start_nodes() {
    let mut graph = GraphEngine::new();
    let a = graph.add_node(vec!["S".to_string()], none());
    let b = graph.add_node(vec![], none());
    let c = graph.add_node(vec![], none());
    graph.add_edge(b, a, "l".to_string(), none()).unwrap();
    graph.add_edge(c, b, "l".to_string(), none()).unwrap();
    let query = GraphQuery {
        start_labels: vec!["S".to_string()],
        edge_label: None,
        direction: TraversalDirection::Incoming,
        max_depth: 5,
        property_filters: none(),
    };
    let result = graph.query(&query);
    let ids: Vec<u64> = result.nodes.iter().map(|n| n.id).collect();
    assert_eq!(ids, vec![a, b, c]);
    assert_eq!(result.paths, vec![vec![a], vec![a, b], vec![a, b, c]]);
    let both = GraphQuery { direction: TraversalDirection::Both, max_depth: 1, ..query };
    let result = graph.query(&both);
    assert_eq!(result.paths, vec![vec![a], vec![a, b]]);
}

#[test]
fn query_reaches_every_node_within_depth() {
    let mut graph = GraphEngine::new();
    let s = graph.add_node(vec!["S".to_string()], none());
    let x = graph.add_node(vec![], none());
    let y = graph.add_node(vec![], none());
    let t = graph.add_node(vec![], make_props(vec![("k", json_text(1))]));
    graph.add_edge(s, x, "l".to_string(), none()).unwrap();
    graph.add_edge(x, y, "l".to_string(), none()).unwrap();
    graph.add_edge(y, t, "l".to_string(), none()).unwrap();
    graph.add_edge(s, t, "l".to_string(), none()).unwrap();
    let query = GraphQuery {
        start_labels: vec!["S".to_string()],
        edge_label: None,
        direction: TraversalDirection::Outgoing,
        max_depth: 1,
        property_filters: make_props(vec![("k", json_text(1))]),
    };
    let result = graph.query(&query);
    let ids: Vec<u64> = result.nodes.iter().map(|n| n.id).collect();
    assert_eq!(ids, vec![t]);
    assert_eq!(result.paths, vec![vec![s, t]]);
}

#[test]
fn query_reports_shortest_paths_breadth_first() {
    let mut graph = GraphEngine::new();
    let s = graph.add_node(vec!["S".to_string()], none());
    let x = graph.add_node(vec![], none());
    let t = graph.add_node(vec![], none());
    let e0 = graph.add_edge(s, x, "l".to_string(), none()).unwrap();
    let e1 = graph.add_edge(x, t, "l".to_string(), none()).unwrap();
    let e2 = graph.add_edge(s, t, "l".to_string(), none()).unwrap();
    let query = GraphQuery {
        start_labels: vec!["S".to_string()],
        edge_label: None,
        direction: TraversalDirection::Outgoing,
        max_depth: 2,
        property_filters: none(),
    };
    let result = graph.query(&query);
    assert_eq!(result.paths, vec![vec![s], vec![s, x], vec![s, t]]);
    let edge_ids: Vec<u64> = result.edges.iter().map(|e| e.id).collect();
    assert_eq!(edge_ids, vec![e0, e2, e1]);
}

#[test]
fn query_follows_no_edge_beyond_max_depth() {
    let mut graph = GraphEngine::new();
    let s = graph.add_node(vec!["S".to_string()], none());
    let x = graph.add_node(vec![], none());
    let y = graph.add_node(vec![], none());
    let e0 = graph.add_edge(s, x, "l".to_string(), none()).unwrap();
    graph.add_edge(x, y, "l".to_string(), none()).unwrap();
    let query = GraphQuery {
        start_labels: vec!["S".to_string()],
        edge_label: None,
        direction: TraversalDirection::Outgoing,
        max_depth: 1,
        property_filters: none(),
    };
    let result = graph.query(&query);
    let edge_ids: Vec<u64> = result.edges.iter().map(|e| e.id).collect();
    assert_eq!(edge_ids, vec![e0]);
    assert_eq!(result.paths, vec![vec![s], vec![s, x]]);
}
