//! Data sharding on a consistent-hash ring.
//!
//! Every node owns a number of virtual nodes on a ring of 64-bit hashes. A
//! key belongs to the first ring point at or after its own hash, wrapping
//! around to the first point; its replicas are the next distinct nodes met
//! walking the ring clockwise from there.

use vstd::prelude::*;
use vstd::string::StringExecFns;
use crate::format::{decimal, decimal_string, hex_fixed, write_hex_fixed};
use crate::strmap::StrMap;
use crate::text::{copy_strings, owned, str_eq, word_views};

verus! {

/// The 64-bit hash that `std`'s `DefaultHasher`, created with `new`, gives a
/// string.
pub uninterp spec fn string_hash(s: Seq<char>) -> u64;

/// Hashes a string with `std::collections::hash_map::DefaultHasher::new()`,
/// `Hash::hash` and `Hasher::finish`. A hasher made by `new` starts from
/// fixed keys, so the value depends on the string alone; it is named, not
/// described.
#[verifier::external_body]
pub(crate) fn hash_string(s: &str) -> (h: u64)
    ensures
        h == string_hash(s@),
{
    let mut hasher = std::collections::hash_map::DefaultHasher::new();
    std::hash::Hash::hash(s, &mut hasher);
    std::hash::Hasher::finish(&hasher)
}

/// Region location for geo-distributed shards.
pub struct ShardRegion {
    /// Region name.
    pub name: String,
    /// Region priority (lower is preferred).
    pub priority: u32,
}

impl ShardRegion {
    /// A region with the given name and placement priority.
    pub fn new(name: &str, priority: u32) -> (r: Self)
        ensures
            r.name@ == name@,
            r.priority == priority,
    {
        ShardRegion { name: owned(name), priority }
    }
}

impl Default for ShardRegion {
    fn default() -> (r: Self)
        ensures
            r.name@ == "default"@,
            r.priority == 0,
    {
        ShardRegion { name: owned("default"), priority: 0 }
    }
}

/// A single point on the consistent-hash ring.
pub struct ShardRingEntry {
    /// Hash value of the virtual node.
    pub hash: u64,
    /// Physical node owning this ring point.
    pub node_id: String,
    /// Shard assigned at this ring point.
    pub shard_id: String,
    /// Virtual node identifier (`node_id:vnN`).
    pub virtual_node: String,
}

/// A ring point as plain values.
pub struct RingPoint {
    pub hash: u64,
    pub node_id: Seq<char>,
    pub shard_id: Seq<char>,
    pub virtual_node: Seq<char>,
}

impl View for ShardRingEntry {
    type V = RingPoint;

    open spec fn view(&self) -> RingPoint {
        RingPoint {
            hash: self.hash,
            node_id: self.node_id@,
            shard_id: self.shard_id@,
            virtual_node: self.virtual_node@,
        }
    }
}

impl Clone for ShardRingEntry {
    fn clone(&self) -> (r: Self)
        ensures
            r@ == self@,
    {
        ShardRingEntry {
            hash: self.hash,
            node_id: self.node_id.clone(),
            shard_id: self.shard_id.clone(),
            virtual_node: self.virtual_node.clone(),
        }
    }
}

/// Overall distribution of shards across the cluster.
pub struct ShardDistribution {
    /// Number of shards in the ring.
    pub num_shards: u32,
    /// Replication factor in use.
    pub replication_factor: u32,
    /// Ordered consistent-hash ring entries.
    pub ring: Vec<ShardRingEntry>,
}

/// A proposed shard migration from one node to another.
pub struct ShardMigrationPlan {
    /// Shard to move.
    pub shard_id: String,
    /// Node currently hosting the shard.
    pub source_node: String,
    /// Node that should host the shard.
    pub target_node: String,
    /// Reason for the migration.
    pub reason: String,
}

/// The ring points of a sequence of entries.
pub open spec fn ring_points(s: Seq<ShardRingEntry>) -> Seq<RingPoint> {
    s.map_values(|e: ShardRingEntry| e@)
}

/// Whether ring points ascend by hash.
pub open spec fn sorted_by_hash(s: Seq<RingPoint>) -> bool {
    forall|i: int, j: int| 0 <= i < j < s.len() ==> #[trigger] s[i].hash <= #[trigger] s[j].hash
}

/// The name of virtual node `vn` of `node`.
pub open spec fn vnode_name(node: Seq<char>, vn: nat) -> Seq<char> {
    node + ":vn"@ + decimal(vn)
}

/// The ring point of virtual node `vn` of `node`, with its shard chosen by
/// its hash modulo the number of shards.
pub open spec fn ring_point(node: Seq<char>, vn: nat, num_shards: u32) -> RingPoint {
    let name = vnode_name(node, vn);
    let h = string_hash(name);
    RingPoint {
        hash: h,
        node_id: node,
        shard_id: "shard_"@ + hex_fixed((h % (num_shards as u64)) as nat, 16),
        virtual_node: name,
    }
}

/// The first `count` ring points of `node`.
pub open spec fn node_points(node: Seq<char>, count: nat, num_shards: u32) -> Seq<RingPoint>
    decreases count,
{
    if count == 0 {
        Seq::empty()
    } else {
        node_points(node, (count - 1) as nat, num_shards).push(ring_point(node, (count - 1) as nat, num_shards))
    }
}

/// The ring points of all virtual nodes of `nodes`, node by node.
pub open spec fn all_points(nodes: Seq<Seq<char>>, per_node: nat, num_shards: u32) -> Seq<RingPoint>
    decreases nodes.len(),
{
    if nodes.len() == 0 {
        Seq::empty()
    } else {
        all_points(nodes.drop_last(), per_node, num_shards) + node_points(nodes.last(), per_node, num_shards)
    }
}

/// Where a new point goes in a hash-sorted ring: after every point whose
/// hash is not larger.
fn insertion_point(ring: &Vec<ShardRingEntry>, hash: u64) -> (p: usize)
    requires
        sorted_by_hash(ring_points(ring@)),
    ensures
        p <= ring@.len(),
        forall|i: int| 0 <= i < p ==> (#[trigger] ring@[i]).hash <= hash,
        forall|i: int| p <= i < ring@.len() ==> (#[trigger] ring@[i]).hash > hash,
{
    let mut p: usize = ring.len();
    while p > 0 && ring[p - 1].hash > hash
        invariant
            p <= ring@.len(),
            sorted_by_hash(ring_points(ring@)),
            forall|i: int| p <= i < ring@.len() ==> (#[trigger] ring@[i]).hash > hash,
        decreases p,
    {
        p = p - 1;
    }
    proof {
        assert forall|i: int| 0 <= i < p implies (#[trigger] ring@[i]).hash <= hash by {
            if p > 0 {
                assert(ring_points(ring@)[i].hash <= ring_points(ring@)[p - 1].hash);
            }
        }
    }
    p
}

/// Builds the ring for `nodes`: `per_node` virtual nodes each, sorted by
/// hash.
pub fn build_ring(nodes: &Vec<String>, per_node: u32, num_shards: u32) -> (ring: Vec<ShardRingEntry>)
    requires
        num_shards > 0,
    ensures
        sorted_by_hash(ring_points(ring@)),
        ring_points(ring@).to_multiset() == all_points(word_views(nodes@), per_node as nat, num_shards).to_multiset(),
{
    broadcast use vstd::seq_lib::to_multiset_build, vstd::seq_lib::to_multiset_insert;

    let ghost nv = word_views(nodes@);
    let mut ring: Vec<ShardRingEntry> = Vec::new();
    let mut i: usize = 0;
    assert(nv.take(0) =~= Seq::<Seq<char>>::empty());
    assert(ring_points(ring@) =~= Seq::<RingPoint>::empty());
    while i < nodes.len()
        invariant
            i <= nodes@.len(),
            nv == word_views(nodes@),
            num_shards > 0,
            sorted_by_hash(ring_points(ring@)),
            ring_points(ring@).to_multiset() == all_points(nv.take(i as int), per_node as nat, num_shards).to_multiset(),
        decreases nodes@.len() - i,
    {
        let node = &nodes[i];
        let ghost base = all_points(nv.take(i as int), per_node as nat, num_shards);
        let mut vn: u32 = 0;
        proof {
            assert(node_points(node@, 0, num_shards) =~= Seq::<RingPoint>::empty());
            assert(base + node_points(node@, 0, num_shards) =~= base);
        }
        while vn < per_node
            invariant
                vn <= per_node,
                num_shards > 0,
                sorted_by_hash(ring_points(ring@)),
                ring_points(ring@).to_multiset() == (base + node_points(node@, vn as nat, num_shards)).to_multiset(),
            decreases per_node - vn,
        {
            let mut name = node.clone();
            name.append(":vn");
            name.append(decimal_string(vn as u64).as_str());
            let hash = hash_string(name.as_str());
            let mut shard_id = owned("shard_");
            write_hex_fixed(hash % (num_shards as u64), 16, &mut shard_id);
            let entry = ShardRingEntry { hash, node_id: node.clone(), shard_id, virtual_node: name };
            let ghost pt = ring_point(node@, vn as nat, num_shards);
            assert(entry@ == pt) by {
                assert(entry.virtual_node@ =~= vnode_name(node@, vn as nat));
                assert(entry.shard_id@ =~= pt.shard_id);
            }
            let p = insertion_point(&ring, hash);
            let ghost before = ring_points(ring@);
            ring.insert(p, entry);
            proof {
                assert(ring_points(ring@) =~= before.insert(p as int, pt));
                assert(base + node_points(node@, (vn + 1) as nat, num_shards) =~= (base + node_points(
                    node@,
                    vn as nat,
                    num_shards,
                )).push(pt));
                let cur = base + node_points(node@, vn as nat, num_shards);
                vstd::seq_lib::to_multiset_insert(before, p as int, pt);
                vstd::seq_lib::to_multiset_build(cur, pt);
                assert(ring_points(ring@).to_multiset() == cur.push(pt).to_multiset());
                let r = ring_points(ring@);
                assert forall|a: int, b: int| 0 <= a < b < r.len() implies #[trigger] r[a].hash
                    <= #[trigger] r[b].hash by {
                    if a < p && b < p {
                        assert(r[a] == before[a] && r[b] == before[b]);
                    } else if a < p && b == p {
                        assert(r[a] == before[a]);
                    } else if a < p {
                        assert(r[a] == before[a] && r[b] == before[b - 1]);
                    } else if a == p {
                        assert(r[b] == before[b - 1]);
                    } else {
                        assert(r[a] == before[a - 1] && r[b] == before[b - 1]);
                    }
                }
            }
            vn = vn + 1;
        }
        proof {
            assert(nv.take(i + 1).drop_last() =~= nv.take(i as int));
            assert(nv.take(i + 1).last() == node@);
        }
        i = i + 1;
    }
    assert(nv.take(nodes@.len() as int) =~= nv);
    ring
}


/// Whether `i` is where a key of hash `h` lands: the first point whose hash
/// is at least `h`.
pub open spec fn first_at_or_after(points: Seq<RingPoint>, h: u64, i: int) -> bool {
    &&& 0 <= i < points.len()
    &&& points[i].hash >= h
    &&& forall|j: int| 0 <= j < i ==> #[trigger] points[j].hash < h
}

/// The index of the ring point that owns a key of hash `h`: the first point
/// whose hash is at least `h`, or the first point when there is none.
pub open spec fn owner_index(points: Seq<RingPoint>, h: u64) -> int {
    if exists|i: int| first_at_or_after(points, h, i) {
        choose|i: int| first_at_or_after(points, h, i)
    } else {
        0
    }
}

/// Position `i` steps clockwise from `start` on a ring of `len` points.
pub open spec fn ring_step(start: int, i: int, len: int) -> int {
    if start + i < len {
        start + i
    } else {
        start + i - len
    }
}

/// The distinct nodes met walking `steps` points clockwise from `start`,
/// stopping once `rf` of them (at least one) are found.
pub open spec fn walk_nodes(points: Seq<RingPoint>, start: int, steps: nat, rf: nat) -> Seq<Seq<char>>
    decreases steps,
{
    if steps == 0 {
        Seq::empty()
    } else {
        let acc = walk_nodes(points, start, (steps - 1) as nat, rf);
        let node = points[ring_step(start, steps - 1, points.len() as int)].node_id;
        if acc.len() > 0 && acc.len() >= rf {
            acc
        } else if acc.contains(node) {
            acc
        } else {
            acc.push(node)
        }
    }
}

/// The index of the point that owns a key of hash `h`.
fn owner_position(ring: &Vec<ShardRingEntry>, h: u64) -> (i: usize)
    requires
        ring@.len() > 0,
    ensures
        i == owner_index(ring_points(ring@), h),
        i < ring@.len(),
{
    let ghost pts = ring_points(ring@);
    let mut i: usize = 0;
    while i < ring.len()
        invariant
            i <= ring@.len(),
            pts == ring_points(ring@),
            forall|j: int| 0 <= j < i ==> #[trigger] pts[j].hash < h,
        decreases ring@.len() - i,
    {
        if ring[i].hash >= h {
            proof {
                assert(first_at_or_after(pts, h, i as int));
                let k = choose|k: int| first_at_or_after(pts, h, k);
                if k < i {
                    assert(pts[k].hash < h);
                }
                if k > i {
                    assert(pts[i as int].hash < h);
                }
            }
            return i;
        }
        i = i + 1;
    }
    proof {
        if exists|k: int| first_at_or_after(pts, h, k) {
            let k = choose|k: int| first_at_or_after(pts, h, k);
            assert(pts[k].hash < h);
        }
    }
    0
}

/// Whether `v` holds a string equal to `s`.
fn contains_string(v: &Vec<String>, s: &String) -> (b: bool)
    ensures
        b == word_views(v@).contains(s@),
{
    let mut i: usize = 0;
    while i < v.len()
        invariant
            i <= v@.len(),
            forall|j: int| 0 <= j < i ==> v@[j]@ != s@,
        decreases v@.len() - i,
    {
        if v[i] == *s {
            assert(word_views(v@)[i as int] == s@);
            return true;
        }
        i = i + 1;
    }
    proof {
        if word_views(v@).contains(s@) {
            let j = choose|j: int| 0 <= j < word_views(v@).len() && word_views(v@)[j] == s@;
            assert(v@[j]@ == s@);
        }
    }
    false
}

/// The ring point that owns `key`, or none on an empty ring.
pub fn shard_for_key(ring: &Vec<ShardRingEntry>, key: &str) -> (r: Option<ShardRingEntry>)
    ensures
        r is None <==> ring@.len() == 0,
        r matches Some(e) ==> e@ == ring_points(ring@)[owner_index(ring_points(ring@), string_hash(key@))],
{
    if ring.len() == 0 {
        return None;
    }
    let h = hash_string(key);
    let i = owner_position(ring, h);
    Some(ring[i].clone())
}

/// Up to `rf` distinct nodes responsible for `key` (at least one on a
/// non-empty ring), met walking the ring clockwise from the key's owner.
pub fn nodes_for_key(ring: &Vec<ShardRingEntry>, key: &str, rf: usize) -> (nodes: Vec<String>)
    ensures
        ring@.len() == 0 ==> nodes@.len() == 0,
        ring@.len() > 0 ==> word_views(nodes@) == walk_nodes(
            ring_points(ring@),
            owner_index(ring_points(ring@), string_hash(key@)),
            ring@.len() as nat,
            rf as nat,
        ),
{
    let mut nodes: Vec<String> = Vec::new();
    if ring.len() == 0 {
        return nodes;
    }
    let ghost pts = ring_points(ring@);
    let h = hash_string(key);
    let start = owner_position(ring, h);
    let len = ring.len();
    let mut i: usize = 0;
    assert(word_views(nodes@) =~= Seq::<Seq<char>>::empty());
    while i < len
        invariant
            len == ring@.len(),
            pts == ring_points(ring@),
            start < len,
            i <= len,
            word_views(nodes@) == walk_nodes(pts, start as int, i as nat, rf as nat),
            nodes@.len() <= i,
        decreases len - i,
    {
        let idx = if i < len - start {
            start + i
        } else {
            i - (len - start)
        };
        assert(idx == ring_step(start as int, i as int, len as int));
        let node = &ring[idx].node_id;
        let done = nodes.len() > 0 && nodes.len() >= rf;
        if !done && !contains_string(&nodes, node) {
            let ghost before = word_views(nodes@);
            nodes.push(node.clone());
            assert(word_views(nodes@) =~= before.push(node@));
        }
        i = i + 1;
    }
    nodes
}

/// The walk toward the replicas of a key meets distinct nodes of the ring,
/// at most `rf` of them (at least one), and on a non-empty ring starts with
/// the node that owns the starting point.
pub proof fn lemma_replica_walk(points: Seq<RingPoint>, start: int, steps: nat, rf: nat)
    requires
        0 <= start < points.len(),
        steps <= points.len(),
    ensures
        walk_nodes(points, start, steps, rf).no_duplicates(),
        walk_nodes(points, start, steps, rf).len() <= if rf == 0 { 1 } else { rf },
        forall|x: Seq<char>|
            #[trigger] walk_nodes(points, start, steps, rf).contains(x) ==> exists|i: int|
                0 <= i < points.len() && points[i].node_id == x,
        steps > 0 ==> walk_nodes(points, start, steps, rf)[0] == points[start].node_id,
    decreases steps,
{
    if steps > 0 {
        let prev = walk_nodes(points, start, (steps - 1) as nat, rf);
        lemma_replica_walk(points, start, (steps - 1) as nat, rf);
        let idx = ring_step(start, steps - 1, points.len() as int);
        let node = points[idx].node_id;
        let cur = walk_nodes(points, start, steps, rf);
        if !(prev.len() > 0 && prev.len() >= rf) && !prev.contains(node) {
            assert(cur == prev.push(node));
            assert forall|a: int, b: int| 0 <= a < b < cur.len() implies cur[a] != cur[b] by {
                if b == prev.len() {
                    assert(prev.contains(cur[a]));
                }
            }
            assert forall|x: Seq<char>| #[trigger] cur.contains(x) implies exists|i: int|
                0 <= i < points.len() && points[i].node_id == x by {
                let k = choose|k: int| 0 <= k < cur.len() && cur[k] == x;
                if k < prev.len() {
                    assert(prev.contains(x));
                } else {
                    assert(points[idx].node_id == x);
                }
            }
        }
        if steps == 1 {
            assert(prev.len() == 0);
        }
    }
}

/// Placement parameters of the ring.
#[derive(Debug, Clone, Copy, PartialEq, Eq, Structural)]
pub struct RingConfig {
    /// Number of shards in the hash space.
    pub num_shards: u32,
    /// Replication factor for shard replicas.
    pub replication_factor: u32,
    /// Virtual nodes per physical node.
    pub virtual_nodes_per_node: u32,
}

impl Default for RingConfig {
    fn default() -> (c: Self)
        ensures
            c == (RingConfig { num_shards: 128, replication_factor: 3, virtual_nodes_per_node: 64 }),
    {
        RingConfig { num_shards: 128, replication_factor: 3, virtual_nodes_per_node: 64 }
    }
}

/// Metadata for one shard of a table.
pub struct ShardInfo {
    /// Unique shard identifier.
    pub shard_id: String,
    /// Table the shard belongs to.
    pub table: String,
    /// Storage engine type of the shard.
    pub storage_type: String,
    /// Start of the hash range covered by this shard.
    pub hash_range_start: u64,
    /// End of the hash range covered by this shard.
    pub hash_range_end: u64,
    /// Node hosting the shard primary.
    pub primary_node: String,
    /// Nodes hosting replicas of this shard.
    pub replica_nodes: Vec<String>,
    /// Number of records in the shard.
    pub record_count: u64,
    /// Estimated size of the shard in bytes.
    pub size_bytes: u64,
    /// Version of the shard metadata.
    pub version: u64,
    /// Primary region for this shard.
    pub primary_region: ShardRegion,
    /// Cross-region replica assignments: region to nodes, in the order the
    /// regions were assigned.
    pub cross_region_replicas: Vec<(String, Vec<String>)>,
}

/// Shard metadata as plain values.
pub struct ShardInfoView {
    pub shard_id: Seq<char>,
    pub table: Seq<char>,
    pub storage_type: Seq<char>,
    pub hash_range_start: u64,
    pub hash_range_end: u64,
    pub primary_node: Seq<char>,
    pub replica_nodes: Seq<Seq<char>>,
    pub record_count: u64,
    pub size_bytes: u64,
    pub version: u64,
    pub region_name: Seq<char>,
    pub region_priority: u32,
    pub cross_region_replicas: Seq<(Seq<char>, Seq<Seq<char>>)>,
}

/// Region assignments as plain values.
pub open spec fn assignment_views(s: Seq<(String, Vec<String>)>) -> Seq<(Seq<char>, Seq<Seq<char>>)> {
    s.map_values(|e: (String, Vec<String>)| (e.0@, word_views(e.1@)))
}

impl View for ShardInfo {
    type V = ShardInfoView;

    open spec fn view(&self) -> ShardInfoView {
        ShardInfoView {
            shard_id: self.shard_id@,
            table: self.table@,
            storage_type: self.storage_type@,
            hash_range_start: self.hash_range_start,
            hash_range_end: self.hash_range_end,
            primary_node: self.primary_node@,
            replica_nodes: word_views(self.replica_nodes@),
            record_count: self.record_count,
            size_bytes: self.size_bytes,
            version: self.version,
            region_name: self.primary_region.name@,
            region_priority: self.primary_region.priority,
            cross_region_replicas: assignment_views(self.cross_region_replicas@),
        }
    }
}

impl Clone for ShardInfo {
    fn clone(&self) -> (r: Self)
        ensures
            r@ == self@,
    {
        let mut assignments: Vec<(String, Vec<String>)> = Vec::new();
        let mut i: usize = 0;
        while i < self.cross_region_replicas.len()
            invariant
                i <= self.cross_region_replicas@.len(),
                assignment_views(assignments@) == assignment_views(self.cross_region_replicas@.take(i as int)),
            decreases self.cross_region_replicas@.len() - i,
        {
            let e = &self.cross_region_replicas[i];
            let ghost before = assignment_views(assignments@);
            assignments.push((e.0.clone(), copy_strings(&e.1)));
            assert(assignment_views(assignments@) =~= before.push((e.0@, word_views(e.1@))));
            assert(assignment_views(self.cross_region_replicas@.take(i + 1)) =~= assignment_views(
                self.cross_region_replicas@.take(i as int),
            ).push((e.0@, word_views(e.1@))));
            i = i + 1;
        }
        assert(self.cross_region_replicas@.take(self.cross_region_replicas@.len() as int)
            =~= self.cross_region_replicas@);
        ShardInfo {
            shard_id: self.shard_id.clone(),
            table: self.table.clone(),
            storage_type: self.storage_type.clone(),
            hash_range_start: self.hash_range_start,
            hash_range_end: self.hash_range_end,
            primary_node: self.primary_node.clone(),
            replica_nodes: copy_strings(&self.replica_nodes),
            record_count: self.record_count,
            size_bytes: self.size_bytes,
            version: self.version,
            primary_region: ShardRegion {
                name: self.primary_region.name.clone(),
                priority: self.primary_region.priority,
            },
            cross_region_replicas: assignments,
        }
    }
}

/// The nodes of `nodes` other than `node`, in order.
pub open spec fn without_node(nodes: Seq<Seq<char>>, node: Seq<char>) -> Seq<Seq<char>>
    decreases nodes.len(),
{
    if nodes.len() == 0 {
        Seq::empty()
    } else {
        let rest = without_node(nodes.drop_last(), node);
        if nodes.last() == node {
            rest
        } else {
            rest.push(nodes.last())
        }
    }
}

/// The key under which a shard is registered: its table and id joined by a
/// colon.
pub open spec fn shard_key(table: Seq<char>, shard_id: Seq<char>) -> Seq<char> {
    table + ":"@ + shard_id
}

/// Joins a table and a shard id into a registry key.
fn make_shard_key(table: &str, shard_id: &str) -> (k: String)
    ensures
        k@ == shard_key(table@, shard_id@),
{
    let mut k = owned(table);
    k.append(":");
    k.append(shard_id);
    k
}

/// The consistent-hash ring and the shard placement metadata of a cluster.
pub struct ShardManager {
    /// Ring parameters.
    pub config: RingConfig,
    /// ID of the local node.
    pub node_id: String,
    /// Shard metadata keyed by `table:shard_id`.
    pub shards: StrMap<ShardInfo>,
    /// Hash-sorted consistent-hash ring.
    pub ring: Vec<ShardRingEntry>,
    /// Nodes participating in the ring.
    pub nodes: Vec<String>,
    /// Region membership: region name to its nodes.
    pub region_map: StrMap<Vec<String>>,
}

impl ShardManager {
    /// Whether the ring is the hash-sorted set of virtual nodes of the
    /// current nodes.
    pub open spec fn ring_matches_nodes(&self) -> bool {
        &&& sorted_by_hash(ring_points(self.ring@))
        &&& ring_points(self.ring@).to_multiset() == all_points(
            word_views(self.nodes@),
            self.config.virtual_nodes_per_node as nat,
            self.config.num_shards,
        ).to_multiset()
    }

    /// What the manager keeps: its maps are well formed, the ring has at
    /// least one shard, and the ring matches the nodes.
    pub open spec fn wf(&self) -> bool {
        &&& self.shards.wf()
        &&& self.region_map.wf()
        &&& self.config.num_shards > 0
        &&& self.ring_matches_nodes()
    }

    /// A manager for the local node with the default ring parameters, no
    /// nodes and no shards.
    pub fn new(node_id: String) -> (m: Self)
        ensures
            m.wf(),
            m.node_id == node_id,
            m.config == (RingConfig { num_shards: 128, replication_factor: 3, virtual_nodes_per_node: 64 }),
            m.nodes@.len() == 0,
            m.ring@.len() == 0,
            m.shards@ == Map::<Seq<char>, ShardInfo>::empty(),
            m.region_map@ == Map::<Seq<char>, Vec<String>>::empty(),
    {
        let m = ShardManager {
            config: RingConfig::default(),
            node_id,
            shards: StrMap::new(),
            ring: Vec::new(),
            nodes: Vec::new(),
            region_map: StrMap::new(),
        };
        assert(word_views(m.nodes@) =~= Seq::<Seq<char>>::empty());
        assert(ring_points(m.ring@) =~= Seq::<RingPoint>::empty());
        m
    }

    /// Rebuilds the ring from the current nodes.
    pub fn rebuild_ring(&mut self)
        requires
            old(self).config.num_shards > 0,
        ensures
            final(self).ring_matches_nodes(),
            final(self).nodes == old(self).nodes,
            final(self).config == old(self).config,
            final(self).shards == old(self).shards,
            final(self).region_map == old(self).region_map,
            final(self).node_id == old(self).node_id,
    {
        self.ring = build_ring(&self.nodes, self.config.virtual_nodes_per_node, self.config.num_shards);
    }

    /// Adds a node to the ring unless it is already there.
    pub fn add_node(&mut self, node_id: &str)
        requires
            old(self).wf(),
        ensures
            final(self).wf(),
            word_views(old(self).nodes@).contains(node_id@) ==> final(self).nodes == old(self).nodes,
            !word_views(old(self).nodes@).contains(node_id@) ==> word_views(final(self).nodes@) == word_views(
                old(self).nodes@,
            ).push(node_id@),
            final(self).config == old(self).config,
            final(self).shards == old(self).shards,
            final(self).region_map == old(self).region_map,
    {
        let node = owned(node_id);
        if !contains_string(&self.nodes, &node) {
            let ghost before = word_views(self.nodes@);
            self.nodes.push(node);
            assert(word_views(self.nodes@) =~= before.push(node_id@));
            self.rebuild_ring();
        }
    }

    /// Removes a node from the ring.
    pub fn remove_node(&mut self, node_id: &str)
        requires
            old(self).wf(),
        ensures
            final(self).wf(),
            word_views(final(self).nodes@) == without_node(word_views(old(self).nodes@), node_id@),
            final(self).config == old(self).config,
            final(self).shards == old(self).shards,
            final(self).region_map == old(self).region_map,
    {
        let ghost nv = word_views(self.nodes@);
        let mut kept: Vec<String> = Vec::new();
        let mut i: usize = 0;
        assert(nv.take(0) =~= Seq::<Seq<char>>::empty());
        assert(word_views(kept@) =~= Seq::<Seq<char>>::empty());
        while i < self.nodes.len()
            invariant
                i <= self.nodes@.len(),
                nv == word_views(self.nodes@),
                word_views(kept@) == without_node(nv.take(i as int), node_id@),
            decreases self.nodes@.len() - i,
        {
            let ghost before = word_views(kept@);
            assert(nv.take(i + 1).drop_last() =~= nv.take(i as int));
            if !str_eq(self.nodes[i].as_str(), node_id) {
                kept.push(self.nodes[i].clone());
                assert(word_views(kept@) =~= before.push(nv[i as int]));
            }
            i = i + 1;
        }
        assert(nv.take(nv.len() as int) =~= nv);
        self.nodes = kept;
        self.rebuild_ring();
    }

    /// The ring point that owns `key`, or none on an empty ring.
    pub fn get_shard_for_key(&self, key: &str) -> (r: Option<ShardRingEntry>)
        ensures
            r is None <==> self.ring@.len() == 0,
            r matches Some(e) ==> e@ == ring_points(self.ring@)[owner_index(
                ring_points(self.ring@),
                string_hash(key@),
            )],
    {
        shard_for_key(&self.ring, key)
    }

    /// Up to the replication factor of distinct nodes responsible for
    /// `key`, walking the ring clockwise from its owner.
    pub fn get_nodes_for_key(&self, key: &str) -> (nodes: Vec<String>)
        ensures
            self.ring@.len() == 0 ==> nodes@.len() == 0,
            self.ring@.len() > 0 ==> word_views(nodes@) == walk_nodes(
                ring_points(self.ring@),
                owner_index(ring_points(self.ring@), string_hash(key@)),
                self.ring@.len() as nat,
                self.config.replication_factor as nat,
            ),
    {
        nodes_for_key(&self.ring, key, self.config.replication_factor as usize)
    }

    /// Records shard metadata under `table:shard_id`.
    pub fn register_shard(&mut self, shard: ShardInfo)
        requires
            old(self).wf(),
        ensures
            final(self).wf(),
            final(self).shards@ == old(self).shards@.insert(shard_key(shard.table@, shard.shard_id@), shard),
            final(self).ring == old(self).ring,
            final(self).nodes == old(self).nodes,
            final(self).region_map == old(self).region_map,
            final(self).config == old(self).config,
    {
        let key = make_shard_key(shard.table.as_str(), shard.shard_id.as_str());
        self.shards.insert(key, shard);
    }

    /// The metadata of a shard, if registered.
    pub fn get_shard(&self, table: &str, shard_id: &str) -> (r: Option<ShardInfo>)
        requires
            self.wf(),
        ensures
            r is Some <==> self.shards@.contains_key(shard_key(table@, shard_id@)),
            r matches Some(s) ==> s@ == self.shards@[shard_key(table@, shard_id@)]@,
    {
        let key = make_shard_key(table, shard_id);
        match self.shards.get(&key) {
            Some(s) => Some(s.clone()),
            None => None,
        }
    }

    /// The nodes registered in `region`, none if it is unknown.
    pub fn nodes_in_region(&self, region: &str) -> (r: Vec<String>)
        requires
            self.wf(),
        ensures
            self.region_map@.contains_key(region@) ==> word_views(r@) == word_views(self.region_map@[region@]@),
            !self.region_map@.contains_key(region@) ==> r@.len() == 0,
    {
        match self.region_map.get(&owned(region)) {
            Some(v) => copy_strings(v),
            None => Vec::new(),
        }
    }

    /// Adds a node to the ring and, when a region is given, to that
    /// region's members.
    pub fn add_node_with_region(&mut self, node_id: &str, region: Option<&str>)
        requires
            old(self).wf(),
        ensures
            final(self).wf(),
            region is None ==> final(self).region_map == old(self).region_map,
            region matches Some(r) ==> final(self).region_map@.dom() == old(self).region_map@.dom().insert(r@)
                && word_views(final(self).region_map@[r@]@) == (if old(self).region_map@.contains_key(r@) {
                    word_views(old(self).region_map@[r@]@)
                } else {
                    Seq::<Seq<char>>::empty()
                }).push(node_id@),
            final(self).shards == old(self).shards,
    {
        self.add_node(node_id);
        match region {
            Some(r) => {
                let key = owned(r);
                let mut members = match self.region_map.get(&key) {
                    Some(v) => copy_strings(v),
                    None => Vec::new(),
                };
                let ghost before = word_views(members@);
                members.push(owned(node_id));
                assert(word_views(members@) =~= before.push(node_id@));
                let ghost m0 = self.region_map@;
                self.region_map.insert(key, members);
                assert(self.region_map@.dom() =~= m0.dom().insert(r@));
            },
            None => {},
        }
    }
}

/// The first two nodes of a region.
pub open spec fn first_two(nodes: Seq<Seq<char>>) -> Seq<Seq<char>> {
    if nodes.len() <= 2 {
        nodes
    } else {
        nodes.take(2)
    }
}

/// The replica regions that get replicas: those known with at least one
/// node, each with its first two nodes.
pub open spec fn geo_assignments(
    regions: Map<Seq<char>, Vec<String>>,
    wanted: Seq<Seq<char>>,
) -> Seq<(Seq<char>, Seq<Seq<char>>)>
    decreases wanted.len(),
{
    if wanted.len() == 0 {
        Seq::empty()
    } else {
        let prev = geo_assignments(regions, wanted.drop_last());
        let r = wanted.last();
        if regions.contains_key(r) && regions[r]@.len() > 0 {
            prev.push((r, first_two(word_views(regions[r]@))))
        } else {
            prev
        }
    }
}

/// All replica nodes of a list of region assignments, in order.
pub open spec fn assigned_nodes(s: Seq<(Seq<char>, Seq<Seq<char>>)>) -> Seq<Seq<char>>
    decreases s.len(),
{
    if s.len() == 0 {
        Seq::empty()
    } else {
        assigned_nodes(s.drop_last()) + s.last().1
    }
}

impl ShardManager {
    /// Creates a shard whose primary is the first node of `primary_region`
    /// and whose replicas are the first two nodes of each known replica
    /// region, registers it and returns it; none when the primary region is
    /// unknown or has no node.
    pub fn create_geo_shard(
        &mut self,
        table: &str,
        storage_type: &str,
        hash_start: u64,
        hash_end: u64,
        primary_region: &str,
        replica_regions: &Vec<String>,
    ) -> (r: Option<ShardInfo>)
        requires
            old(self).wf(),
        ensures
            final(self).wf(),
            r is Some <==> old(self).region_map@.contains_key(primary_region@) && old(self).region_map@[primary_region@]@.len() > 0,
            r is None ==> final(self).shards == old(self).shards,
            r matches Some(shard) ==> {
                let assigned = geo_assignments(old(self).region_map@, word_views(replica_regions@));
                &&& shard@.shard_id == "geo_"@ + hex_fixed(hash_start as nat, 16)
                &&& shard@.table == table@
                &&& shard@.storage_type == storage_type@
                &&& shard@.hash_range_start == hash_start
                &&& shard@.hash_range_end == hash_end
                &&& shard@.primary_node == old(self).region_map@[primary_region@]@[0]@
                &&& shard@.replica_nodes == assigned_nodes(assigned)
                &&& shard@.record_count == 0
                &&& shard@.size_bytes == 0
                &&& shard@.version == 1
                &&& shard@.region_name == primary_region@
                &&& shard@.region_priority == 0
                &&& shard@.cross_region_replicas == assigned
                &&& final(self).shards@.dom() == old(self).shards@.dom().insert(shard_key(table@, shard@.shard_id))
                &&& final(self).shards@[shard_key(table@, shard@.shard_id)]@ == shard@
            },
            final(self).ring == old(self).ring,
            final(self).nodes == old(self).nodes,
            final(self).region_map == old(self).region_map,
    {
        let primary_nodes = match self.region_map.get(&owned(primary_region)) {
            Some(v) => v,
            None => {
                return None;
            },
        };
        if primary_nodes.len() == 0 {
            return None;
        }
        let primary_node = primary_nodes[0].clone();
        let ghost rm = self.region_map@;
        let ghost wanted = word_views(replica_regions@);
        let mut assignments: Vec<(String, Vec<String>)> = Vec::new();
        let mut all_replicas: Vec<String> = Vec::new();
        let mut i: usize = 0;
        assert(wanted.take(0) =~= Seq::<Seq<char>>::empty());
        assert(assignment_views(assignments@) =~= Seq::<(Seq<char>, Seq<Seq<char>>)>::empty());
        assert(word_views(all_replicas@) =~= Seq::<Seq<char>>::empty());
        while i < replica_regions.len()
            invariant
                self.region_map.wf(),
                rm == self.region_map@,
                wanted == word_views(replica_regions@),
                i <= replica_regions@.len(),
                assignment_views(assignments@) == geo_assignments(rm, wanted.take(i as int)),
                word_views(all_replicas@) == assigned_nodes(assignment_views(assignments@)),
            decreases replica_regions@.len() - i,
        {
            let region = &replica_regions[i];
            proof {
                assert(wanted.take(i + 1).drop_last() =~= wanted.take(i as int));
                assert(wanted.take(i + 1).last() == region@);
            }
            match self.region_map.get(region) {
                Some(nodes) => {
                    if nodes.len() > 0 {
                        let mut replicas: Vec<String> = Vec::new();
                        replicas.push(nodes[0].clone());
                        if nodes.len() > 1 {
                            replicas.push(nodes[1].clone());
                        }
                        assert(word_views(replicas@) =~= first_two(word_views(nodes@)));
                        let ghost a0 = assignment_views(assignments@);
                        let ghost r0 = word_views(all_replicas@);
                        all_replicas.push(nodes[0].clone());
                        if nodes.len() > 1 {
                            all_replicas.push(nodes[1].clone());
                        }
                        assert(word_views(all_replicas@) =~= r0 + word_views(replicas@));
                        let ghost rv = word_views(replicas@);
                        assignments.push((region.clone(), replicas));
                        assert(assignment_views(assignments@) =~= a0.push((region@, rv)));
                        assert(a0.push((region@, rv)).drop_last() =~= a0);
                        assert(assigned_nodes(a0.push((region@, rv))) == assigned_nodes(a0) + rv);
                    }
                },
                None => {},
            }
            i = i + 1;
        }
        assert(wanted.take(wanted.len() as int) =~= wanted);
        let mut shard_id = owned("geo_");
        write_hex_fixed(hash_start, 16, &mut shard_id);
        let shard = ShardInfo {
            shard_id,
            table: owned(table),
            storage_type: owned(storage_type),
            hash_range_start: hash_start,
            hash_range_end: hash_end,
            primary_node,
            replica_nodes: all_replicas,
            record_count: 0,
            size_bytes: 0,
            version: 1,
            primary_region: ShardRegion::new(primary_region, 0),
            cross_region_replicas: assignments,
        };
        let result = shard.clone();
        let ghost s0 = self.shards@;
        self.register_shard(shard);
        assert(self.shards@.dom() =~= s0.dom().insert(shard_key(table@, result@.shard_id)));
        Some(result)
    }

    /// Whether a registered shard with this id has replicas in other
    /// regions.
    pub fn has_cross_region_redundancy(&self, shard_id: &str) -> (b: bool)
        requires
            self.wf(),
        ensures
            b == exists|k: Seq<char>|
                #[trigger] self.shards@.contains_key(k) && self.shards@[k].shard_id@ == shard_id@
                    && self.shards@[k].cross_region_replicas@.len() > 0,
    {
        proof {
            self.shards.lemma_view();
        }
        let mut i: usize = 0;
        while i < self.shards.entry_count()
            invariant
                self.shards.wf(),
                i <= self.shards.entry_seq().len(),
                forall|j: int|
                    0 <= j < i ==> !((#[trigger] self.shards.entry_seq()[j]).1.shard_id@ == shard_id@
                        && self.shards.entry_seq()[j].1.cross_region_replicas@.len() > 0),
            decreases self.shards.entry_seq().len() - i,
        {
            let s = self.shards.value_at(i);
            if str_eq(s.shard_id.as_str(), shard_id) && s.cross_region_replicas.len() > 0 {
                proof {
                    self.shards.lemma_view();
                    let k = self.shards.entry_seq()[i as int].0@;
                    assert(self.shards@.contains_key(k));
                }
                return true;
            }
            i = i + 1;
        }
        proof {
            self.shards.lemma_view();
            if exists|k: Seq<char>|
                #[trigger] self.shards@.contains_key(k) && self.shards@[k].shard_id@ == shard_id@
                    && self.shards@[k].cross_region_replicas@.len() > 0 {
                let k = choose|k: Seq<char>|
                    #[trigger] self.shards@.contains_key(k) && self.shards@[k].shard_id@ == shard_id@
                        && self.shards@[k].cross_region_replicas@.len() > 0;
                assert(self.shards.key_seq().to_set().contains(k));
                let j = choose|j: int| 0 <= j < self.shards.key_seq().len() && self.shards.key_seq()[j] == k;
                assert(self.shards.entry_seq()[j].0@ == k);
            }
        }
        false
    }
}

/// The metadata of a sequence of shards, as plain values.
pub open spec fn shard_views(s: Seq<ShardInfo>) -> Seq<ShardInfoView> {
    s.map_values(|x: ShardInfo| x@)
}

/// The registered shards, in registration order, that satisfy `keep`.
pub open spec fn shards_where(
    entries: Seq<(String, ShardInfo)>,
    keep: spec_fn(ShardInfoView) -> bool,
) -> Seq<ShardInfoView>
    decreases entries.len(),
{
    if entries.len() == 0 {
        Seq::empty()
    } else {
        let prev = shards_where(entries.drop_last(), keep);
        if keep(entries.last().1@) {
            prev.push(entries.last().1@)
        } else {
            prev
        }
    }
}

/// Whether a shard belongs to `table`.
pub open spec fn of_table(table: Seq<char>) -> spec_fn(ShardInfoView) -> bool {
    |v: ShardInfoView| v.table == table
}

/// Whether a node hosts a shard as primary or replica.
pub open spec fn hosted_by(node: Seq<char>) -> spec_fn(ShardInfoView) -> bool {
    |v: ShardInfoView| v.primary_node == node || v.replica_nodes.contains(node)
}

impl ShardManager {
    /// The shards of `table`, in registration order.
    pub fn table_shards(&self, table: &str) -> (r: Vec<ShardInfo>)
        requires
            self.wf(),
        ensures
            shard_views(r@) == shards_where(self.shards.entry_seq(), of_table(table@)),
    {
        let ghost es = self.shards.entry_seq();
        let mut r: Vec<ShardInfo> = Vec::new();
        let mut i: usize = 0;
        assert(es.take(0) =~= Seq::<(String, ShardInfo)>::empty());
        assert(shard_views(r@) =~= Seq::<ShardInfoView>::empty());
        while i < self.shards.entry_count()
            invariant
                es == self.shards.entry_seq(),
                i <= es.len(),
                shard_views(r@) == shards_where(es.take(i as int), of_table(table@)),
            decreases es.len() - i,
        {
            let sh = self.shards.value_at(i);
            assert(es.take(i + 1).drop_last() =~= es.take(i as int));
            assert(es.take(i + 1).last() == es[i as int]);
            if str_eq(sh.table.as_str(), table) {
                let ghost before = shard_views(r@);
                r.push(sh.clone());
                assert(shard_views(r@) =~= before.push(sh@));
            }
            i = i + 1;
        }
        assert(es.take(es.len() as int) =~= es);
        r
    }

    /// The shards that `node_id` hosts as primary or replica, in
    /// registration order.
    pub fn node_shards(&self, node_id: &str) -> (r: Vec<ShardInfo>)
        requires
            self.wf(),
        ensures
            shard_views(r@) == shards_where(self.shards.entry_seq(), hosted_by(node_id@)),
    {
        let ghost es = self.shards.entry_seq();
        let node = owned(node_id);
        let mut r: Vec<ShardInfo> = Vec::new();
        let mut i: usize = 0;
        assert(es.take(0) =~= Seq::<(String, ShardInfo)>::empty());
        assert(shard_views(r@) =~= Seq::<ShardInfoView>::empty());
        while i < self.shards.entry_count()
            invariant
                es == self.shards.entry_seq(),
                node@ == node_id@,
                i <= es.len(),
                shard_views(r@) == shards_where(es.take(i as int), hosted_by(node_id@)),
            decreases es.len() - i,
        {
            let sh = self.shards.value_at(i);
            assert(es.take(i + 1).drop_last() =~= es.take(i as int));
            assert(es.take(i + 1).last() == es[i as int]);
            if sh.primary_node == node || contains_string(&sh.replica_nodes, &node) {
                let ghost before = shard_views(r@);
                r.push(sh.clone());
                assert(shard_views(r@) =~= before.push(sh@));
            }
            i = i + 1;
        }
        assert(es.take(es.len() as int) =~= es);
        r
    }

    /// The known regions, in the order they were first registered.
    pub fn regions(&self) -> (r: Vec<String>)
        requires
            self.wf(),
        ensures
            word_views(r@) == self.region_map.key_seq(),
            word_views(r@).to_set() == self.region_map@.dom(),
    {
        proof {
            self.region_map.lemma_view();
        }
        let ghost ks = self.region_map.key_seq();
        let mut r: Vec<String> = Vec::new();
        let mut i: usize = 0;
        while i < self.region_map.entry_count()
            invariant
                ks == self.region_map.key_seq(),
                ks.len() == self.region_map.entry_seq().len(),
                i <= ks.len(),
                word_views(r@) == ks.take(i as int),
            decreases ks.len() - i,
        {
            let ghost before = word_views(r@);
            r.push(self.region_map.key_at(i).clone());
            assert(word_views(r@) =~= before.push(ks[i as int]));
            assert(ks.take(i + 1) =~= ks.take(i as int).push(ks[i as int]));
            i = i + 1;
        }
        assert(ks.take(ks.len() as int) =~= ks);
        r
    }
}
} // verus!
