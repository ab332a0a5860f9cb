use primusdb::cluster::shard::{build_ring, nodes_for_key, shard_for_key, ShardManager, ShardRegion};

fn hash_string(s: &str) -> u64 {
    let mut hasher = std::collections::hash_map::DefaultHasher::new();
    std::hash::Hash::hash(s, &mut hasher);
    std::hash::Hasher::finish(&hasher)
}

#[test]
fn region_constructor() {
    let r = ShardRegion::new("eu-west", 2);
    assert_eq!(r.name, "eu-west");
    assert_eq!(r.priority, 2);
    let d = ShardRegion::default();
    assert_eq!(d.name, "default");
    assert_eq!(d.priority, 0);
}

#[test]
fn ring_is_sorted_and_complete() {
    let nodes = vec!["a".to_string(), "b".to_string(), "c".to_string()];
    let ring = build_ring(&nodes, 8, 16);
    assert_eq!(ring.len(), 24);
    for w in ring.windows(2) {
        assert!(w[0].hash <= w[1].hash);
    }
    let e = ring.iter().find(|e| e.virtual_node == "b:vn3").unwrap();
    assert_eq!(e.node_id, "b");
    assert_eq!(e.hash, hash_string("b:vn3"));
    assert_eq!(e.shard_id, format!("shard_{:016x}", e.hash % 16));
}

#[test]
fn key_owner_and_replicas() {
    let nodes = vec!["a".to_string(), "b".to_string(), "c".to_string()];
    let ring = build_ring(&nodes, 4, 8);
    for key in ["alpha", "beta", "gamma", "delta"] {
        let owner = shard_for_key(&ring, key).unwrap();
        let h = hash_string(key);
        let expected = ring.iter().find(|e| e.hash >= h).unwrap_or(&ring[0]);
        assert_eq!(owner.virtual_node, expected.virtual_node);
        let reps = nodes_for_key(&ring, key, 2);
        assert_eq!(reps.len(), 2);
        assert_eq!(reps[0], owner.node_id);
        assert_ne!(reps[0], reps[1]);
        let all = nodes_for_key(&ring, key, 10);
        assert_eq!(all.len(), 3);
        let one = nodes_for_key(&ring, key, 0);
        assert_eq!(one.len(), 1);
    }
    assert!(shard_for_key(&Vec::new(), "x").is_none());
    assert!(nodes_for_key(&Vec::new(), "x", 3).is_empty());
}

#[test]
fn manager_nodes_and_regions() {
    let mut m = ShardManager::new("self".to_string());
    m.add_node("n1");
    m.add_node("n1");
    assert_eq!(m.nodes.len(), 1);
    assert_eq!(m.ring.len(), 64);
    m.add_node_with_region("n2", Some("eu"));
    m.add_node_with_region("n3", Some("eu"));
    m.add_node_with_region("n4", Some("us"));
    assert_eq!(m.nodes_in_region("eu"), vec!["n2", "n3"]);
    assert!(m.nodes_in_region("asia").is_empty());
    assert_eq!(m.regions(), vec!["eu", "us"]);
    m.remove_node("n1");
    assert_eq!(m.nodes, vec!["n2", "n3", "n4"]);
    assert_eq!(m.ring.len(), 192);
    assert_eq!(m.get_nodes_for_key("k").len(), 3);
}

#[test]
fn geo_shards() {
    let mut m = ShardManager::new("self".to_string());
    m.add_node_with_region("p1", Some("primary"));
    m.add_node_with_region("e1", Some("eu"));
    m.add_node_with_region("e2", Some("eu"));
    m.add_node_with_region("e3", Some("eu"));
    assert!(m.create_geo_shard("t", "doc", 0, 10, "nowhere", &vec![]).is_none());
    let s = m
        .create_geo_shard("t", "doc", 255, 300, "primary", &vec!["eu".to_string(), "mars".to_string()])
        .unwrap();
    assert_eq!(s.shard_id, "geo_00000000000000ff");
    assert_eq!(s.primary_node, "p1");
    assert_eq!(s.replica_nodes, vec!["e1", "e2"]);
    assert_eq!(s.cross_region_replicas.len(), 1);
    assert_eq!(s.version, 1);
    let got = m.get_shard("t", "geo_00000000000000ff").unwrap();
    assert_eq!(got.replica_nodes, vec!["e1", "e2"]);
    assert!(m.has_cross_region_redundancy("geo_00000000000000ff"));
    assert!(!m.has_cross_region_redundancy("other"));
    assert_eq!(m.table_shards("t").len(), 1);
    assert_eq!(m.node_shards("e2").len(), 1);
    assert!(m.node_shards("p2").is_empty());
}
