//! Multi-cluster federation: the local cluster's view of remote clusters.
//!
//! Remote clusters are online, suspect, offline or gone. Announcements and
//! heartbeats are sent by the caller; it hands back, target by target,
//! whether the peer answered, and the state is updated here. Domain joins
//! and namespace lookups are decided from the answers the same way.

use vstd::prelude::*;
use crate::cluster::rpc::{
    FedClusterAnnounce, FedDomainJoin, FedDomainJoinAck, FedDomainLeave, FedNamespaceResolveAck, FedNamespaceResolveRequest,
};
use crate::format::{decimal, decimal_string};
use crate::strmap::StrMap;
use crate::text::{contains_word, copy_strings, owned, str_eq, word_views};
use vstd::string::StringExecFns;

verus! {

/// Settings of the local cluster's federation membership.
pub struct FederationConfig {
    pub federation_id: String,
    pub cluster_id: String,
    pub announce_interval_ms: u64,
    pub heartbeat_interval_ms: u64,
    pub heartbeat_timeout_ms: u64,
    pub suspect_timeout_ms: u64,
    pub max_clusters: u32,
    pub enable_cross_cluster_replication: bool,
    pub enable_federated_namespaces: bool,
    pub region: Option<String>,
    pub tls_cert_path: String,
    pub tls_key_path: String,
    pub tls_ca_path: String,
    pub mtls_enabled: bool,
}

impl Default for FederationConfig {
    fn default() -> (c: Self)
        ensures
            c.federation_id@ == "default"@,
            c.cluster_id@ == Seq::<char>::empty(),
            c.announce_interval_ms == 10000,
            c.heartbeat_interval_ms == 5000,
            c.heartbeat_timeout_ms == 3000,
            c.suspect_timeout_ms == 30000,
            c.max_clusters == 64,
            c.enable_cross_cluster_replication,
            c.enable_federated_namespaces,
            c.region is None,
            c.tls_cert_path@ == Seq::<char>::empty(),
            c.tls_key_path@ == Seq::<char>::empty(),
            c.tls_ca_path@ == Seq::<char>::empty(),
            !c.mtls_enabled,
    {
        FederationConfig {
            federation_id: owned("default"),
            cluster_id: String::new(),
            announce_interval_ms: 10000,
            heartbeat_interval_ms: 5000,
            heartbeat_timeout_ms: 3000,
            suspect_timeout_ms: 30000,
            max_clusters: 64,
            enable_cross_cluster_replication: true,
            enable_federated_namespaces: true,
            region: None,
            tls_cert_path: String::new(),
            tls_key_path: String::new(),
            tls_ca_path: String::new(),
            mtls_enabled: false,
        }
    }
}

/// Liveness of a remote cluster.
#[derive(Debug, Clone, Copy, PartialEq, Eq, Structural)]
pub enum ClusterStatus {
    Online,
    Suspect,
    Offline,
    Left,
}

/// What a cluster announces about itself. (The latency estimate that the
/// wire message also carries, a float, stays with the caller.)
pub struct FedClusterInfo {
    pub cluster_id: String,
    pub leader_node_id: Option<String>,
    pub address: String,
    pub port: u16,
    pub cluster_size: u32,
    pub alive_count: u32,
    pub domains: Vec<String>,
    pub incarnation: u64,
    pub status: String,
    pub region: Option<String>,
}

/// The answer to an announcement: the clusters the answering one knows.
pub struct FedClusterAck {
    pub accepted: bool,
    pub federation_id: String,
    pub known_clusters: Vec<FedClusterInfo>,
    pub leader_hint: Option<String>,
}

/// A cluster's announcement as plain values.
pub struct InfoView {
    pub cluster_id: Seq<char>,
    pub leader_node_id: Option<Seq<char>>,
    pub address: Seq<char>,
    pub port: u16,
    pub cluster_size: u32,
    pub alive_count: u32,
    pub domains: Seq<Seq<char>>,
    pub incarnation: u64,
    pub status: Seq<char>,
    pub region: Option<Seq<char>>,
}

/// The characters of an optional string.
pub open spec fn opt_chars(o: Option<String>) -> Option<Seq<char>> {
    match o {
        Some(s) => Some(s@),
        None => None,
    }
}

impl View for FedClusterInfo {
    type V = InfoView;

    open spec fn view(&self) -> InfoView {
        InfoView {
            cluster_id: self.cluster_id@,
            leader_node_id: opt_chars(self.leader_node_id),
            address: self.address@,
            port: self.port,
            cluster_size: self.cluster_size,
            alive_count: self.alive_count,
            domains: word_views(self.domains@),
            incarnation: self.incarnation,
            status: self.status@,
            region: opt_chars(self.region),
        }
    }
}

fn copy_opt(o: &Option<String>) -> (r: Option<String>)
    ensures
        opt_chars(r) == opt_chars(*o),
{
    match o {
        Some(s) => Some(s.clone()),
        None => None,
    }
}

impl FedClusterInfo {
    /// A copy of the announcement.
    pub fn copy(&self) -> (r: FedClusterInfo)
        ensures
            r@ == self@,
    {
        FedClusterInfo {
            cluster_id: self.cluster_id.clone(),
            leader_node_id: copy_opt(&self.leader_node_id),
            address: self.address.clone(),
            port: self.port,
            cluster_size: self.cluster_size,
            alive_count: self.alive_count,
            domains: copy_strings(&self.domains),
            incarnation: self.incarnation,
            status: self.status.clone(),
            region: copy_opt(&self.region),
        }
    }
}

/// A remote cluster as the local one tracks it.
pub struct FederationMember {
    pub info: FedClusterInfo,
    pub status: ClusterStatus,
    pub last_seen: u64,
    pub incarnation: u64,
    pub consecutive_failures: u32,
}

/// A tracked cluster as plain values.
pub struct FedMemberView {
    pub info: InfoView,
    pub status: ClusterStatus,
    pub last_seen: u64,
    pub incarnation: u64,
    pub consecutive_failures: u32,
}

impl View for FederationMember {
    type V = FedMemberView;

    open spec fn view(&self) -> FedMemberView {
        FedMemberView {
            info: self.info@,
            status: self.status,
            last_seen: self.last_seen,
            incarnation: self.incarnation,
            consecutive_failures: self.consecutive_failures,
        }
    }
}

/// The tracked clusters as plain values, by cluster id.
pub open spec fn fed_views(m: Map<Seq<char>, FederationMember>) -> Map<Seq<char>, FedMemberView> {
    m.map_values(|f: FederationMember| f@)
}

/// The local cluster's federation state.
pub struct FederationManager {
    pub config: FederationConfig,
    /// Remote clusters keyed by cluster id.
    pub members: StrMap<FederationMember>,
    /// Domains the local cluster takes part in.
    pub local_domains: Vec<String>,
    /// Resolved namespaces: `path:resource:type` to physical name.
    pub namespace_cache: StrMap<String>,
    pub running: bool,
    pub incarnation: u64,
}

/// The tracked cluster after an answer from it at `now`: online, seen,
/// no failures.
pub open spec fn answered(v: FedMemberView, now: u64) -> FedMemberView {
    FedMemberView { status: ClusterStatus::Online, last_seen: now, consecutive_failures: 0, ..v }
}

/// The tracked cluster after one more unanswered message: suspect once the
/// failures pass `limit`.
pub open spec fn unanswered(v: FedMemberView, limit: u32) -> FedMemberView {
    let f = (v.consecutive_failures + 1) as u32;
    FedMemberView {
        consecutive_failures: f,
        status: if f > limit {
            ClusterStatus::Suspect
        } else {
            v.status
        },
        ..v
    }
}

/// The tracked clusters after `update` is applied to `cid`, if tracked.
pub open spec fn update_member(
    m: Map<Seq<char>, FedMemberView>,
    cid: Seq<char>,
    v: FedMemberView,
) -> Map<Seq<char>, FedMemberView> {
    if m.contains_key(cid) {
        m.insert(cid, v)
    } else {
        m
    }
}

/// A cluster after a suspicion check at `now`: an online one silent for
/// more than `timeout` is suspect; a suspect one silent for more than twice
/// that is offline (both can happen in one check).
pub open spec fn checked(v: FedMemberView, now: u64, timeout: u64) -> FedMemberView {
    let s1 = if v.status == ClusterStatus::Online && now - v.last_seen > timeout {
        ClusterStatus::Suspect
    } else {
        v.status
    };
    let s2 = if s1 == ClusterStatus::Suspect && now - v.last_seen > 2 * timeout {
        ClusterStatus::Offline
    } else {
        s1
    };
    FedMemberView { status: s2, ..v }
}

/// The ids of the online clusters other than `local`, in order.
pub open spec fn online_others(es: Seq<(String, FederationMember)>, local: Seq<char>) -> Seq<Seq<char>>
    decreases es.len(),
{
    if es.len() == 0 {
        Seq::empty()
    } else {
        let prev = online_others(es.drop_last(), local);
        if es.last().1.status == ClusterStatus::Online && es.last().0@ != local {
            prev.push(es.last().0@)
        } else {
            prev
        }
    }
}

/// The announcements of the online clusters, in order.
pub open spec fn online_infos(es: Seq<(String, FederationMember)>) -> Seq<InfoView>
    decreases es.len(),
{
    if es.len() == 0 {
        Seq::empty()
    } else {
        let prev = online_infos(es.drop_last());
        if es.last().1.status == ClusterStatus::Online {
            prev.push(es.last().1.info@)
        } else {
            prev
        }
    }
}

/// The ids of the online clusters that host `domain`, in order.
pub open spec fn domain_hosts(es: Seq<(String, FederationMember)>, domain: Seq<char>) -> Seq<Seq<char>>
    decreases es.len(),
{
    if es.len() == 0 {
        Seq::empty()
    } else {
        let prev = domain_hosts(es.drop_last(), domain);
        if es.last().1.status == ClusterStatus::Online && es.last().1.info@.domains.contains(domain) {
            prev.push(es.last().0@)
        } else {
            prev
        }
    }
}

/// The announcements of the clusters other than `cid`, in order.
pub open spec fn infos_except(es: Seq<(String, FederationMember)>, cid: Seq<char>) -> Seq<InfoView>
    decreases es.len(),
{
    if es.len() == 0 {
        Seq::empty()
    } else {
        let prev = infos_except(es.drop_last(), cid);
        if es.last().0@ != cid {
            prev.push(es.last().1.info@)
        } else {
            prev
        }
    }
}

/// The domains with `d` added when absent.
pub open spec fn with_domain(ds: Seq<Seq<char>>, d: Seq<char>) -> Seq<Seq<char>> {
    if ds.contains(d) {
        ds
    } else {
        ds.push(d)
    }
}

/// The domains without `d`.
pub open spec fn without_domain(ds: Seq<Seq<char>>, d: Seq<char>) -> Seq<Seq<char>>
    decreases ds.len(),
{
    if ds.len() == 0 {
        Seq::empty()
    } else {
        let prev = without_domain(ds.drop_last(), d);
        if ds.last() != d {
            prev.push(ds.last())
        } else {
            prev
        }
    }
}

/// The name of the local cluster's gateway: `cluster:gateway`.
pub open spec fn gateway_name(cluster: Seq<char>) -> Seq<char> {
    cluster + ":gateway"@
}

/// The key of a namespace lookup: `path:resource:type`.
pub open spec fn namespace_key(path: Seq<char>, resource: Seq<char>, storage_type: Seq<char>) -> Seq<char> {
    path + ":"@ + resource + ":"@ + storage_type
}

impl FederationManager {
    /// Whether the maps are well formed and each cluster is tracked under
    /// its own id.
    pub open spec fn wf(&self) -> bool {
        &&& self.members.wf()
        &&& self.namespace_cache.wf()
        &&& forall|k: Seq<char>| #[trigger] self.members@.contains_key(k) ==> self.members@[k].info.cluster_id@ == k
    }

    /// A manager tracking no cluster, not running, at incarnation one.
    pub fn new(config: FederationConfig) -> (m: Self)
        ensures
            m.wf(),
            m.config == config,
            m.members@ == Map::<Seq<char>, FederationMember>::empty(),
            m.local_domains@.len() == 0,
            m.namespace_cache@ == Map::<Seq<char>, String>::empty(),
            !m.running,
            m.incarnation == 1,
    {
        FederationManager {
            config,
            members: StrMap::new(),
            local_domains: Vec::new(),
            namespace_cache: StrMap::new(),
            running: false,
            incarnation: 1,
        }
    }
}

/// The tracked clusters after taking in the clusters another one knows:
/// each cluster other than `local` that is not yet tracked is tracked as
/// online, seen at `now`.
pub open spec fn add_known(m: Map<Seq<char>, FedMemberView>, known: Seq<InfoView>, local: Seq<char>, now: u64) -> Map<
    Seq<char>,
    FedMemberView,
>
    decreases known.len(),
{
    if known.len() == 0 {
        m
    } else {
        let prev = add_known(m, known.drop_last(), local, now);
        let k = known.last();
        if k.cluster_id != local && !prev.contains_key(k.cluster_id) {
            prev.insert(
                k.cluster_id,
                FedMemberView {
                    info: k,
                    status: ClusterStatus::Online,
                    last_seen: now,
                    incarnation: k.incarnation,
                    consecutive_failures: 0,
                },
            )
        } else {
            prev
        }
    }
}

/// The announcements of a sequence of clusters.
pub open spec fn info_views(s: Seq<FedClusterInfo>) -> Seq<InfoView> {
    s.map_values(|i: FedClusterInfo| i@)
}

/// The address book entry of each online cluster, in order: id, address,
/// port.
pub open spec fn online_targets(es: Seq<(String, FederationMember)>) -> Seq<(Seq<char>, Seq<char>, u16)>
    decreases es.len(),
{
    if es.len() == 0 {
        Seq::empty()
    } else {
        let prev = online_targets(es.drop_last());
        let m = es.last().1;
        if m.status == ClusterStatus::Online {
            prev.push((es.last().0@, m.info.address@, m.info.port))
        } else {
            prev
        }
    }
}

/// The address book entries of `targets`.
pub open spec fn target_views(t: Seq<(String, String, u16)>) -> Seq<(Seq<char>, Seq<char>, u16)> {
    t.map_values(|e: (String, String, u16)| (e.0@, e.1@, e.2))
}

/// A copy of a tracked cluster.
fn copy_member(m: &FederationMember) -> (r: FederationMember)
    ensures
        r@ == m@,
{
    FederationMember {
        info: m.info.copy(),
        status: m.status,
        last_seen: m.last_seen,
        incarnation: m.incarnation,
        consecutive_failures: m.consecutive_failures,
    }
}

impl FederationManager {
    /// Tracks `m` under `key`, its own id.
    fn put(&mut self, key: String, m: FederationMember)
        requires
            old(self).wf(),
            m.info.cluster_id@ == key@,
        ensures
            final(self).wf(),
            fed_views(final(self).members@) == fed_views(old(self).members@).insert(key@, m@),
            final(self).config == old(self).config,
            final(self).local_domains == old(self).local_domains,
            final(self).namespace_cache == old(self).namespace_cache,
            final(self).incarnation == old(self).incarnation,
            final(self).running == old(self).running,
    {
        let ghost m0 = self.members@;
        let ghost v = m@;
        let ghost k = key@;
        self.members.insert(key, m);
        assert(fed_views(self.members@) =~= fed_views(m0).insert(k, v));
        assert forall|j: Seq<char>| #[trigger] self.members@.contains_key(j) implies self.members@[j].info.cluster_id@ == j by {
            if j != k {
                assert(m0.contains_key(j));
            }
        }
    }

    /// The next announcement of the local cluster: the incarnation goes up
    /// by one, and the announcement carries it with the local domains and
    /// the capabilities raft, swim, sharding, replication and namespaces.
    pub fn next_announcement(&mut self, address: &str, port: u16, node_id: &str, cluster_size: u32) -> (a:
        FedClusterAnnounce)
        requires
            old(self).incarnation < u64::MAX,
        ensures
            final(self).incarnation == old(self).incarnation + 1,
            final(self).members == old(self).members,
            final(self).local_domains == old(self).local_domains,
            final(self).namespace_cache == old(self).namespace_cache,
            final(self).config == old(self).config,
            a.cluster_id@ == old(self).config.cluster_id@,
            a.federation_id@ == old(self).config.federation_id@,
            a.node_id@ == node_id@,
            a.address@ == address@,
            a.port == port,
            a.cluster_size == cluster_size,
            word_views(a.domains@) == word_views(old(self).local_domains@),
            a.incarnation == old(self).incarnation + 1,
            word_views(a.capabilities@) == seq!["raft"@, "swim"@, "sharding"@, "replication"@, "namespaces"@],
    {
        self.incarnation = self.incarnation + 1;
        let mut capabilities: Vec<String> = Vec::new();
        capabilities.push(owned("raft"));
        capabilities.push(owned("swim"));
        capabilities.push(owned("sharding"));
        capabilities.push(owned("replication"));
        capabilities.push(owned("namespaces"));
        assert(word_views(capabilities@) =~= seq!["raft"@, "swim"@, "sharding"@, "replication"@, "namespaces"@]);
        FedClusterAnnounce {
            cluster_id: self.config.cluster_id.clone(),
            federation_id: self.config.federation_id.clone(),
            node_id: owned(node_id),
            address: owned(address),
            port,
            cluster_size,
            domains: copy_strings(&self.local_domains),
            incarnation: self.incarnation,
            capabilities,
        }
    }

    /// The online clusters to send to, in order: id, address, port.
    pub fn online_targets(&self) -> (t: Vec<(String, String, u16)>)
        ensures
            target_views(t@) == online_targets(self.members.entry_seq()),
    {
        let ghost es = self.members.entry_seq();
        let mut t: Vec<(String, String, u16)> = Vec::new();
        let mut i: usize = 0;
        while i < self.members.entry_count()
            invariant
                es == self.members.entry_seq(),
                i <= es.len(),
                target_views(t@) == online_targets(es.take(i as int)),
            decreases es.len() - i,
        {
            assert(es.take(i + 1).drop_last() =~= es.take(i as int));
            let m = self.members.value_at(i);
            if m.status == ClusterStatus::Online {
                let ghost before = target_views(t@);
                t.push((self.members.key_at(i).clone(), m.info.address.clone(), m.info.port));
                assert(target_views(t@) =~= before.push((es[i as int].0@, m.info.address@, m.info.port)));
            }
            i = i + 1;
        }
        assert(es.take(es.len() as int) =~= es);
        t
    }

    /// Takes in an answer from `cid` to an announcement: `cid` is online and
    /// seen at `now`, and each cluster it knows that is new here is tracked.
    pub fn on_announce_ack(&mut self, cid: &str, known: &Vec<FedClusterInfo>, now: u64)
        requires
            old(self).wf(),
        ensures
            final(self).wf(),
            fed_views(final(self).members@) == add_known(
                update_member(
                    fed_views(old(self).members@),
                    cid@,
                    answered(fed_views(old(self).members@)[cid@], now),
                ),
                info_views(known@),
                old(self).config.cluster_id@,
                now,
            ),
            final(self).config == old(self).config,
            final(self).local_domains == old(self).local_domains,
            final(self).incarnation == old(self).incarnation,
    {
        let key = owned(cid);
        let ghost m0 = fed_views(self.members@);
        match self.members.get(&key) {
            Some(existing) => {
                let mut u = copy_member(existing);
                u.status = ClusterStatus::Online;
                u.last_seen = now;
                u.consecutive_failures = 0;
                assert(u.info.cluster_id@ == key@);
                self.put(key, u);
            },
            None => {},
        }
        let ghost base = fed_views(self.members@);
        assert(base == update_member(m0, cid@, answered(m0[cid@], now)));
        let ghost kv = info_views(known@);
        let mut i: usize = 0;
        while i < known.len()
            invariant
                self.wf(),
                kv == info_views(known@),
                i <= known@.len(),
                fed_views(self.members@) == add_known(base, kv.take(i as int), self.config.cluster_id@, now),
                self.config == old(self).config,
                self.local_domains == old(self).local_domains,
                self.incarnation == old(self).incarnation,
            decreases known@.len() - i,
        {
            assert(kv.take(i + 1).drop_last() =~= kv.take(i as int));
            let k = &known[i];
            if !str_eq(k.cluster_id.as_str(), self.config.cluster_id.as_str()) && !self.members.contains_key(&k.cluster_id) {
                let m = FederationMember {
                    info: k.copy(),
                    status: ClusterStatus::Online,
                    last_seen: now,
                    incarnation: k.incarnation,
                    consecutive_failures: 0,
                };
                self.put(k.cluster_id.clone(), m);
            }
            i = i + 1;
        }
        assert(kv.take(kv.len() as int) =~= kv);
    }

    /// Counts an unanswered message to `cid`; past `limit` failures in a
    /// row the cluster is suspect.
    fn count_failure(&mut self, cid: &str, limit: u32)
        requires
            old(self).wf(),
            old(self).members@.contains_key(cid@) ==> old(self).members@[cid@].consecutive_failures < u32::MAX,
        ensures
            final(self).wf(),
            fed_views(final(self).members@) == update_member(
                fed_views(old(self).members@),
                cid@,
                unanswered(fed_views(old(self).members@)[cid@], limit),
            ),
            final(self).config == old(self).config,
            final(self).local_domains == old(self).local_domains,
            final(self).incarnation == old(self).incarnation,
    {
        let key = owned(cid);
        match self.members.get(&key) {
            Some(existing) => {
                let mut u = copy_member(existing);
                u.consecutive_failures = u.consecutive_failures + 1;
                if u.consecutive_failures > limit {
                    u.status = ClusterStatus::Suspect;
                }
                self.put(key, u);
            },
            None => {},
        }
    }

    /// Counts an unanswered announcement to `cid`: more than three in a row
    /// make it suspect.
    pub fn on_announce_failure(&mut self, cid: &str)
        requires
            old(self).wf(),
            old(self).members@.contains_key(cid@) ==> old(self).members@[cid@].consecutive_failures < u32::MAX,
        ensures
            final(self).wf(),
            fed_views(final(self).members@) == update_member(
                fed_views(old(self).members@),
                cid@,
                unanswered(fed_views(old(self).members@)[cid@], 3),
            ),
            final(self).config == old(self).config,
    {
        self.count_failure(cid, 3)
    }

    /// Takes in the outcome of a heartbeat to `cid`: an answer makes it
    /// online and seen at `now`; more than five unanswered ones in a row
    /// make it suspect.
    pub fn on_heartbeat_reply(&mut self, cid: &str, answered_ok: bool, now: u64)
        requires
            old(self).wf(),
            !answered_ok && old(self).members@.contains_key(cid@) ==> old(self).members@[cid@].consecutive_failures
                < u32::MAX,
        ensures
            final(self).wf(),
            answered_ok ==> fed_views(final(self).members@) == update_member(
                fed_views(old(self).members@),
                cid@,
                answered(fed_views(old(self).members@)[cid@], now),
            ),
            !answered_ok ==> fed_views(final(self).members@) == update_member(
                fed_views(old(self).members@),
                cid@,
                unanswered(fed_views(old(self).members@)[cid@], 5),
            ),
            final(self).config == old(self).config,
    {
        if answered_ok {
            let key = owned(cid);
            match self.members.get(&key) {
                Some(existing) => {
                    let mut u = copy_member(existing);
                    u.status = ClusterStatus::Online;
                    u.last_seen = now;
                    u.consecutive_failures = 0;
                    self.put(key, u);
                },
                None => {},
            }
        } else {
            self.count_failure(cid, 5)
        }
    }

    /// Takes in a heartbeat from `cluster_id`: a tracked cluster records the
    /// alive node count and incarnation it reports, and is online, seen at
    /// `now`, with no failures.
    pub fn handle_heartbeat(&mut self, cluster_id: &str, alive_nodes: u32, incarnation: u64, now: u64)
        requires
            old(self).wf(),
        ensures
            final(self).wf(),
            fed_views(final(self).members@) == update_member(
                fed_views(old(self).members@),
                cluster_id@,
                ({
                    let v = answered(fed_views(old(self).members@)[cluster_id@], now);
                    FedMemberView { info: InfoView { alive_count: alive_nodes, incarnation, ..v.info }, ..v }
                }),
            ),
            final(self).config == old(self).config,
    {
        let key = owned(cluster_id);
        match self.members.get(&key) {
            Some(existing) => {
                let mut u = copy_member(existing);
                u.info.alive_count = alive_nodes;
                u.info.incarnation = incarnation;
                u.last_seen = now;
                u.status = ClusterStatus::Online;
                u.consecutive_failures = 0;
                self.put(key, u);
            },
            None => {},
        }
    }
}

/// The address book entry of each online cluster other than `local`, in
/// order: id, address, port.
pub open spec fn remote_targets(es: Seq<(String, FederationMember)>, local: Seq<char>) -> Seq<(Seq<char>, Seq<char>, u16)>
    decreases es.len(),
{
    if es.len() == 0 {
        Seq::empty()
    } else {
        let prev = remote_targets(es.drop_last(), local);
        let m = es.last().1;
        if m.status == ClusterStatus::Online && es.last().0@ != local {
            prev.push((es.last().0@, m.info.address@, m.info.port))
        } else {
            prev
        }
    }
}

/// A domain join answer as plain values: accepted, members, leader hint.
pub open spec fn answer_view(a: Option<FedDomainJoinAck>) -> Option<(bool, Seq<Seq<char>>, Option<Seq<char>>)> {
    match a {
        Some(x) => Some((x.accepted, word_views(x.members@), opt_chars(x.leader_hint))),
        None => None,
    }
}

/// The members named by the accepting answers, in order.
pub open spec fn joined_members(answers: Seq<Option<(bool, Seq<Seq<char>>, Option<Seq<char>>)>>) -> Seq<Seq<char>>
    decreases answers.len(),
{
    if answers.len() == 0 {
        Seq::empty()
    } else {
        let prev = joined_members(answers.drop_last());
        match answers.last() {
            Some((true, ms, _)) => prev + ms,
            _ => prev,
        }
    }
}

/// Whether some answer accepted.
pub open spec fn any_accepted(answers: Seq<Option<(bool, Seq<Seq<char>>, Option<Seq<char>>)>>) -> bool {
    exists|i: int| 0 <= i < answers.len() && (#[trigger] answers[i]) matches Some((true, _, _))
}

/// The leader hint of the last accepting answer, if any.
pub open spec fn last_leader(answers: Seq<Option<(bool, Seq<Seq<char>>, Option<Seq<char>>)>>) -> Option<Seq<char>>
    decreases answers.len(),
{
    if answers.len() == 0 {
        None
    } else {
        match answers.last() {
            Some((true, _, l)) => l,
            _ => last_leader(answers.drop_last()),
        }
    }
}

impl FederationManager {
    /// Tracks a cluster that announced itself, online and seen at `now`,
    /// and answers with the clusters already tracked other than it.
    pub fn register_remote_cluster(&mut self, info: FedClusterInfo, now: u64) -> (ack: FedClusterAck)
        requires
            old(self).wf(),
        ensures
            final(self).wf(),
            fed_views(final(self).members@) == fed_views(old(self).members@).insert(
                info.cluster_id@,
                FedMemberView {
                    info: info@,
                    status: ClusterStatus::Online,
                    last_seen: now,
                    incarnation: info.incarnation,
                    consecutive_failures: 0,
                },
            ),
            ack.accepted,
            ack.federation_id@ == old(self).config.federation_id@,
            info_views(ack.known_clusters@) == infos_except(old(self).members.entry_seq(), info.cluster_id@),
            ack.leader_hint is None,
    {
        let ghost es = self.members.entry_seq();
        let mut known: Vec<FedClusterInfo> = Vec::new();
        let mut i: usize = 0;
        while i < self.members.entry_count()
            invariant
                es == self.members.entry_seq(),
                i <= es.len(),
                info_views(known@) == infos_except(es.take(i as int), info.cluster_id@),
            decreases es.len() - i,
        {
            assert(es.take(i + 1).drop_last() =~= es.take(i as int));
            if !str_eq(self.members.key_at(i).as_str(), info.cluster_id.as_str()) {
                let ghost before = info_views(known@);
                known.push(self.members.value_at(i).info.copy());
                assert(info_views(known@) =~= before.push(es[i as int].1.info@));
            }
            i = i + 1;
        }
        assert(es.take(es.len() as int) =~= es);
        let key = info.cluster_id.clone();
        let incarnation = info.incarnation;
        let m = FederationMember { info, status: ClusterStatus::Online, last_seen: now, incarnation, consecutive_failures: 0 };
        self.put(key, m);
        FedClusterAck { accepted: true, federation_id: self.config.federation_id.clone(), known_clusters: known, leader_hint: None }
    }

    /// Suspicion check at `now`: an online cluster silent for more than the
    /// suspect timeout is suspect, a suspect one silent for more than twice
    /// that is offline.
    pub fn check_suspects(&mut self, now: u64)
        requires
            old(self).wf(),
            old(self).config.suspect_timeout_ms <= u64::MAX / 2,
            forall|k: Seq<char>| #[trigger] old(self).members@.contains_key(k) ==> old(self).members@[k].last_seen <= now,
        ensures
            final(self).wf(),
            fed_views(final(self).members@) == fed_views(old(self).members@).map_values(
                |v: FedMemberView| checked(v, now, old(self).config.suspect_timeout_ms),
            ),
            final(self).config == old(self).config,
    {
        let timeout = self.config.suspect_timeout_ms;
        let ghost m0 = fed_views(self.members@);
        let ghost keys = self.members.key_seq();
        proof {
            self.members.lemma_view();
        }
        let mut i: usize = 0;
        while i < self.members.entry_count()
            invariant
                self.wf(),
                self.config == old(self).config,
                timeout == self.config.suspect_timeout_ms,
                timeout <= u64::MAX / 2,
                keys == self.members.key_seq(),
                keys.len() == self.members.entry_seq().len(),
                keys.no_duplicates(),
                m0.dom() == keys.to_set(),
                i <= keys.len(),
                fed_views(self.members@).dom() == m0.dom(),
                forall|k: Seq<char>| #[trigger] m0.contains_key(k) ==> m0[k].last_seen <= now,
                forall|j: int| 0 <= j < i ==> fed_views(self.members@)[#[trigger] keys[j]] == checked(m0[keys[j]], now, timeout),
                forall|j: int| i <= j < keys.len() ==> fed_views(self.members@)[#[trigger] keys[j]] == m0[keys[j]],
            decreases keys.len() - i,
        {
            proof {
                self.members.lemma_view();
            }
            let m = self.members.value_at(i);
            let ghost key = keys[i as int];
            assert(key == self.members.entry_seq()[i as int].0@);
            assert(self.members@.contains_key(key));
            assert(m0.contains_key(key));
            assert(m0[key] == m@);
            assert(m.info.cluster_id@ == key);
            let mut u = copy_member(m);
            if u.status == ClusterStatus::Online && now - u.last_seen > timeout {
                u.status = ClusterStatus::Suspect;
            }
            if u.status == ClusterStatus::Suspect && now - u.last_seen > timeout * 2 {
                u.status = ClusterStatus::Offline;
            }
            let ghost before = fed_views(self.members@);
            let ghost raw = self.members@;
            let ghost uv = u@;
            self.members.set_value_at(i, u);
            assert(fed_views(self.members@) =~= before.insert(key, uv));
            assert forall|j: int| 0 <= j < keys.len() && j != i implies keys[j] != key by {}
            assert forall|k: Seq<char>| #[trigger] self.members@.contains_key(k) implies self.members@[k].info.cluster_id@ == k by {
                if k != key {
                    assert(raw.contains_key(k));
                }
            }
            i = i + 1;
        }
        proof {
            let target = m0.map_values(|v: FedMemberView| checked(v, now, timeout));
            assert forall|k: Seq<char>| #[trigger] fed_views(self.members@).contains_key(k) implies fed_views(
                self.members@,
            )[k] == target[k] by {
                assert(keys.to_set().contains(k));
                let j = choose|j: int| 0 <= j < keys.len() && keys[j] == k;
            }
            assert(fed_views(self.members@) =~= target);
        }
    }

    /// The online clusters other than the local one to send to, in order:
    /// id, address, port.
    pub fn remote_targets(&self) -> (t: Vec<(String, String, u16)>)
        ensures
            target_views(t@) == remote_targets(self.members.entry_seq(), self.config.cluster_id@),
    {
        let ghost es = self.members.entry_seq();
        let mut t: Vec<(String, String, u16)> = Vec::new();
        let mut i: usize = 0;
        while i < self.members.entry_count()
            invariant
                es == self.members.entry_seq(),
                i <= es.len(),
                target_views(t@) == remote_targets(es.take(i as int), self.config.cluster_id@),
            decreases es.len() - i,
        {
            assert(es.take(i + 1).drop_last() =~= es.take(i as int));
            let m = self.members.value_at(i);
            let k = self.members.key_at(i);
            if m.status == ClusterStatus::Online && !str_eq(k.as_str(), self.config.cluster_id.as_str()) {
                let ghost before = target_views(t@);
                t.push((k.clone(), m.info.address.clone(), m.info.port));
                assert(target_views(t@) =~= before.push((es[i as int].0@, m.info.address@, m.info.port)));
            }
            i = i + 1;
        }
        assert(es.take(es.len() as int) =~= es);
        t
    }

    /// The request that asks another cluster to join the local one into a
    /// domain, sent from the local gateway.
    pub fn domain_join_request(
        &self,
        domain_name: &str,
        collections: Vec<String>,
        storage_types: Vec<String>,
        replication_mode: &str,
    ) -> (r: FedDomainJoin)
        ensures
            r.cluster_id@ == self.config.cluster_id@,
            r.domain_name@ == domain_name@,
            r.node_id@ == gateway_name(self.config.cluster_id@),
            r.collections == collections,
            r.storage_types == storage_types,
            r.replication_mode@ == replication_mode@,
    {
        let mut node_id = self.config.cluster_id.clone();
        node_id.append(":gateway");
        FedDomainJoin {
            cluster_id: self.config.cluster_id.clone(),
            domain_name: owned(domain_name),
            node_id,
            collections,
            storage_types,
            replication_mode: owned(replication_mode),
        }
    }

    /// Settles a domain join from the answers of the remote clusters (`None`
    /// for one that did not answer): the local cluster now takes part in
    /// the domain; the members are the local cluster and those named by the
    /// accepting answers; the join is accepted when an answer accepted or
    /// there is another member; the leader hint is the last accepting
    /// answer's.
    pub fn finish_domain_join(&mut self, domain_name: &str, answers: &Vec<Option<FedDomainJoinAck>>) -> (ack:
        FedDomainJoinAck)
        ensures
            word_views(final(self).local_domains@) == with_domain(word_views(old(self).local_domains@), domain_name@),
            final(self).members == old(self).members,
            final(self).config == old(self).config,
            ack.domain_name@ == domain_name@,
            word_views(ack.members@) == seq![old(self).config.cluster_id@] + joined_members(
                answers@.map_values(|a: Option<FedDomainJoinAck>| answer_view(a)),
            ),
            ack.accepted == (any_accepted(answers@.map_values(|a: Option<FedDomainJoinAck>| answer_view(a)))
                || ack.members@.len() > 1),
            opt_chars(ack.leader_hint) == last_leader(answers@.map_values(|a: Option<FedDomainJoinAck>| answer_view(a))),
            ack.error is None,
    {
        let ghost av = answers@.map_values(|a: Option<FedDomainJoinAck>| answer_view(a));
        let mut members: Vec<String> = Vec::new();
        members.push(self.config.cluster_id.clone());
        let mut accepted = false;
        let mut leader_hint: Option<String> = None;
        let mut i: usize = 0;
        assert(av.take(0) =~= Seq::<Option<(bool, Seq<Seq<char>>, Option<Seq<char>>)>>::empty());
        assert(word_views(members@) =~= seq![self.config.cluster_id@] + joined_members(av.take(0)));
        while i < answers.len()
            invariant
                av == answers@.map_values(|a: Option<FedDomainJoinAck>| answer_view(a)),
                i <= answers@.len(),
                word_views(members@) == seq![self.config.cluster_id@] + joined_members(av.take(i as int)),
                accepted == any_accepted(av.take(i as int)),
                opt_chars(leader_hint) == last_leader(av.take(i as int)),
                self.config == old(self).config,
                self.members == old(self).members,
                self.local_domains == old(self).local_domains,
            decreases answers@.len() - i,
        {
            assert(av.take(i + 1).drop_last() =~= av.take(i as int));
            assert(av.take(i + 1).last() == av[i as int]);
            match &answers[i] {
                Some(a) => {
                    if a.accepted {
                        let ghost before = word_views(members@);
                        let mut j: usize = 0;
                        while j < a.members.len()
                            invariant
                                j <= a.members@.len(),
                                word_views(members@) == before + word_views(a.members@).take(j as int),
                            decreases a.members@.len() - j,
                        {
                            let ghost prev = word_views(members@);
                            members.push(a.members[j].clone());
                            assert(word_views(members@) =~= prev.push(a.members@[j as int]@));
                            assert(word_views(a.members@).take(j + 1) =~= word_views(a.members@).take(j as int).push(a.members@[j as int]@));
                            assert(word_views(members@) =~= before + word_views(a.members@).take(j + 1));
                            j = j + 1;
                        }
                        assert(word_views(a.members@).take(a.members@.len() as int) =~= word_views(a.members@));
                        assert(word_views(members@) =~= seq![self.config.cluster_id@] + joined_members(av.take(i + 1)));
                        accepted = true;
                        leader_hint = copy_opt(&a.leader_hint);
                        assert(av.take(i + 1)[i as int] matches Some((true, _, _)));
                    } else {
                        proof {
                            if any_accepted(av.take(i + 1)) {
                                let w = choose|w: int| 0 <= w < av.take(i + 1).len() && (#[trigger] av.take(i + 1)[w]) matches Some((true, _, _));
                                assert(av.take(i as int)[w] == av.take(i + 1)[w]);
                            }
                        }
                    }
                },
                None => {
                    proof {
                        if any_accepted(av.take(i + 1)) {
                            let w = choose|w: int| 0 <= w < av.take(i + 1).len() && (#[trigger] av.take(i + 1)[w]) matches Some((true, _, _));
                            assert(av.take(i as int)[w] == av.take(i + 1)[w]);
                        }
                    }
                },
            }
            proof {
                if accepted && !any_accepted(av.take(i as int)) {
                    assert(av.take(i + 1)[i as int] matches Some((true, _, _)));
                }
                if any_accepted(av.take(i as int)) {
                    let w = choose|w: int| 0 <= w < av.take(i as int).len() && (#[trigger] av.take(i as int)[w]) matches Some((true, _, _));
                    assert(av.take(i + 1)[w] == av.take(i as int)[w]);
                }
            }
            i = i + 1;
        }
        assert(av.take(av.len() as int) =~= av);
        self.add_local_domain(domain_name);
        let accepted = accepted || members.len() > 1;
        FedDomainJoinAck { accepted, domain_name: owned(domain_name), members, leader_hint, error: None }
    }

    /// Adds `domain` to the local domains when absent.
    fn add_local_domain(&mut self, domain: &str)
        ensures
            word_views(final(self).local_domains@) == with_domain(word_views(old(self).local_domains@), domain@),
            final(self).members == old(self).members,
            final(self).config == old(self).config,
            final(self).namespace_cache == old(self).namespace_cache,
            final(self).incarnation == old(self).incarnation,
    {
        if !contains_word(&self.local_domains, domain) {
            let ghost before = word_views(self.local_domains@);
            self.local_domains.push(owned(domain));
            assert(word_views(self.local_domains@) =~= before.push(domain@));
        }
    }

    /// Removes `domain` from the local domains.
    fn remove_local_domain(&mut self, domain: &str)
        ensures
            word_views(final(self).local_domains@) == without_domain(word_views(old(self).local_domains@), domain@),
            final(self).members == old(self).members,
            final(self).config == old(self).config,
            final(self).namespace_cache == old(self).namespace_cache,
            final(self).incarnation == old(self).incarnation,
    {
        let ghost d0 = word_views(self.local_domains@);
        let mut kept: Vec<String> = Vec::new();
        let mut i: usize = 0;
        while i < self.local_domains.len()
            invariant
                d0 == word_views(self.local_domains@),
                i <= self.local_domains@.len(),
                word_views(kept@) == without_domain(d0.take(i as int), domain@),
            decreases self.local_domains@.len() - i,
        {
            assert(d0.take(i + 1).drop_last() =~= d0.take(i as int));
            if !str_eq(self.local_domains[i].as_str(), domain) {
                let ghost before = word_views(kept@);
                kept.push(self.local_domains[i].clone());
                assert(word_views(kept@) =~= before.push(d0[i as int]));
            }
            i = i + 1;
        }
        assert(d0.take(d0.len() as int) =~= d0);
        self.local_domains = kept;
    }

    /// Leaves a domain: it is no longer a local domain, and the message to
    /// send to the other clusters is returned.
    pub fn leave_domain(&mut self, domain_name: &str) -> (r: FedDomainLeave)
        ensures
            word_views(final(self).local_domains@) == without_domain(word_views(old(self).local_domains@), domain_name@),
            final(self).members == old(self).members,
            r.cluster_id@ == old(self).config.cluster_id@,
            r.node_id@ == gateway_name(old(self).config.cluster_id@),
            r.domain_name@ == domain_name@,
    {
        self.remove_local_domain(domain_name);
        let mut node_id = self.config.cluster_id.clone();
        node_id.append(":gateway");
        FedDomainLeave { cluster_id: self.config.cluster_id.clone(), domain_name: owned(domain_name), node_id }
    }

    /// Answers another cluster's request to join a domain: the domain is
    /// now a local one, and the answer accepts with the online clusters
    /// that host it.
    pub fn handle_domain_join(&mut self, req: &FedDomainJoin) -> (ack: FedDomainJoinAck)
        ensures
            word_views(final(self).local_domains@) == with_domain(word_views(old(self).local_domains@), req.domain_name@),
            final(self).members == old(self).members,
            ack.accepted,
            ack.domain_name@ == req.domain_name@,
            word_views(ack.members@) == domain_hosts(old(self).members.entry_seq(), req.domain_name@),
            ack.leader_hint is None,
            ack.error is None,
    {
        self.add_local_domain(req.domain_name.as_str());
        let ghost es = self.members.entry_seq();
        let mut members: Vec<String> = Vec::new();
        let mut i: usize = 0;
        while i < self.members.entry_count()
            invariant
                es == self.members.entry_seq(),
                i <= es.len(),
                word_views(members@) == domain_hosts(es.take(i as int), req.domain_name@),
            decreases es.len() - i,
        {
            assert(es.take(i + 1).drop_last() =~= es.take(i as int));
            let m = self.members.value_at(i);
            if m.status == ClusterStatus::Online && contains_word(&m.info.domains, req.domain_name.as_str()) {
                let ghost before = word_views(members@);
                members.push(self.members.key_at(i).clone());
                assert(word_views(members@) =~= before.push(es[i as int].0@));
            }
            i = i + 1;
        }
        assert(es.take(es.len() as int) =~= es);
        FedDomainJoinAck { accepted: true, domain_name: req.domain_name.clone(), members, leader_hint: None, error: None }
    }

    /// Takes in another cluster's leaving a domain: it is no longer a local
    /// domain.
    pub fn handle_domain_leave(&mut self, domain_name: &str)
        ensures
            word_views(final(self).local_domains@) == without_domain(word_views(old(self).local_domains@), domain_name@),
            final(self).members == old(self).members,
    {
        self.remove_local_domain(domain_name)
    }

    /// The announcements of the online clusters, in order.
    pub fn get_online_clusters(&self) -> (r: Vec<FedClusterInfo>)
        ensures
            info_views(r@) == online_infos(self.members.entry_seq()),
    {
        let ghost es = self.members.entry_seq();
        let mut r: Vec<FedClusterInfo> = Vec::new();
        let mut i: usize = 0;
        while i < self.members.entry_count()
            invariant
                es == self.members.entry_seq(),
                i <= es.len(),
                info_views(r@) == online_infos(es.take(i as int)),
            decreases es.len() - i,
        {
            assert(es.take(i + 1).drop_last() =~= es.take(i as int));
            let m = self.members.value_at(i);
            if m.status == ClusterStatus::Online {
                let ghost before = info_views(r@);
                r.push(m.info.copy());
                assert(info_views(r@) =~= before.push(m.info@));
            }
            i = i + 1;
        }
        assert(es.take(es.len() as int) =~= es);
        r
    }

    /// The number of online clusters.
    pub fn get_cluster_count(&self) -> (n: usize)
        ensures
            n == online_infos(self.members.entry_seq()).len(),
    {
        let ghost es = self.members.entry_seq();
        let mut n: usize = 0;
        let mut i: usize = 0;
        while i < self.members.entry_count()
            invariant
                es == self.members.entry_seq(),
                i <= es.len(),
                n == online_infos(es.take(i as int)).len(),
                n <= i,
            decreases es.len() - i,
        {
            assert(es.take(i + 1).drop_last() =~= es.take(i as int));
            if self.members.value_at(i).status == ClusterStatus::Online {
                n = n + 1;
            }
            i = i + 1;
        }
        assert(es.take(es.len() as int) =~= es);
        n
    }
}

/// The key of a namespace lookup: `path:resource:type`.
pub fn namespace_cache_key(path: &str, resource: &str, storage_type: &str) -> (k: String)
    ensures
        k@ == namespace_key(path@, resource@, storage_type@),
{
    let mut k = owned(path);
    k.append(":");
    k.append(resource);
    k.append(":");
    k.append(storage_type);
    k
}

impl FederationManager {
    /// The physical name a namespace lookup resolved to before, if any.
    pub fn cached_namespace(&self, path: &str, resource: &str, storage_type: &str) -> (r: Option<String>)
        requires
            self.wf(),
        ensures
            r is Some <==> self.namespace_cache@.contains_key(namespace_key(path@, resource@, storage_type@)),
            r matches Some(p) ==> p == self.namespace_cache@[namespace_key(path@, resource@, storage_type@)],
    {
        let key = namespace_cache_key(path, resource, storage_type);
        match self.namespace_cache.get(&key) {
            Some(p) => Some(p.clone()),
            None => None,
        }
    }

    /// The request that asks other clusters to resolve a namespace, with
    /// the id `ns_<now>`.
    pub fn namespace_request(&self, path: &str, resource: &str, storage_type: &str, now_ms: u64) -> (r:
        FedNamespaceResolveRequest)
        ensures
            r.cluster_id@ == self.config.cluster_id@,
            r.namespace_path@ == path@,
            r.resource_name@ == resource@,
            r.storage_type@ == storage_type@,
            r.request_id@ == "ns_"@ + decimal(now_ms as nat),
    {
        let mut id = owned("ns_");
        id.append(decimal_string(now_ms).as_str());
        FedNamespaceResolveRequest {
            cluster_id: self.config.cluster_id.clone(),
            namespace_path: owned(path),
            resource_name: owned(resource),
            storage_type: owned(storage_type),
            request_id: id,
        }
    }

    /// Takes in one cluster's answer to a namespace lookup: a positive
    /// answer with a physical name is cached and returned; any other gives
    /// nothing and changes nothing.
    pub fn accept_namespace_answer(
        &mut self,
        path: &str,
        resource: &str,
        storage_type: &str,
        ack: &FedNamespaceResolveAck,
    ) -> (r: Option<String>)
        requires
            old(self).wf(),
        ensures
            final(self).wf(),
            final(self).members == old(self).members,
            ack.found && ack.physical_name is Some ==> r == ack.physical_name && final(self).namespace_cache@
                == old(self).namespace_cache@.insert(
                namespace_key(path@, resource@, storage_type@),
                ack.physical_name->0,
            ),
            !(ack.found && ack.physical_name is Some) ==> r is None && final(self).namespace_cache
                == old(self).namespace_cache,
    {
        if ack.found {
            match &ack.physical_name {
                Some(p) => {
                    let key = namespace_cache_key(path, resource, storage_type);
                    self.namespace_cache.insert(key, p.clone());
                    return Some(p.clone());
                },
                None => {},
            }
        }
        None
    }
}

} // verus!
