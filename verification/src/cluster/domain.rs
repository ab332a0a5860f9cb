//! Cross-cluster data domains.
//!
//! A data domain groups collections and tables that span several federated
//! clusters. Domains are kept here with their membership and replication
//! mode; a write is replicated to every member other than its source and
//! the local cluster, and the domain's mode decides how many of them must
//! acknowledge it.

use vstd::prelude::*;
use vstd::string::StringExecFns;
use crate::cluster::rpc::{FedDataReplicaAck, FedDataReplicaRequest};
use crate::format::{decimal, decimal_string};
use crate::strmap::StrMap;
use crate::text::{copy_strings, owned, str_eq, to_lowercase, unicode_lowercase, word_views};

verus! {

/// How a data domain replicates writes across its member clusters.
#[derive(Debug, Clone, Copy, PartialEq, Eq, Structural)]
pub enum DomainReplicationMode {
    /// Every member cluster must acknowledge.
    Sync,
    /// Acknowledged at once, replicated in the background.
    Async,
    /// A majority of member clusters must acknowledge.
    Quorum,
}

impl Default for DomainReplicationMode {
    fn default() -> (m: Self)
        ensures
            m == DomainReplicationMode::Sync,
    {
        DomainReplicationMode::Sync
    }
}

/// The mode a name denotes, ignoring case: `sync`, `async` or `quorum`;
/// anything else is `Sync`.
pub open spec fn mode_named(lower: Seq<char>) -> DomainReplicationMode {
    if lower == "async"@ {
        DomainReplicationMode::Async
    } else if lower == "quorum"@ {
        DomainReplicationMode::Quorum
    } else {
        DomainReplicationMode::Sync
    }
}

impl DomainReplicationMode {
    /// Parses a replication mode from its name, ignoring case; an unknown
    /// name gives `Sync`.
    pub fn from_str(s: &str) -> (m: Self)
        ensures
            m == mode_named(unicode_lowercase(s@)),
    {
        let lower = to_lowercase(s);
        if str_eq(lower.as_str(), "sync") {
            proof {
                reveal_strlit("sync");
                reveal_strlit("async");
                reveal_strlit("quorum");
                assert("sync"@.len() != "async"@.len());
                assert("sync"@.len() != "quorum"@.len());
            }
            DomainReplicationMode::Sync
        } else if str_eq(lower.as_str(), "async") {
            DomainReplicationMode::Async
        } else if str_eq(lower.as_str(), "quorum") {
            DomainReplicationMode::Quorum
        } else {
            DomainReplicationMode::Sync
        }
    }
}

/// Definition of a data domain spanning one or more clusters.
pub struct DataDomain {
    /// Domain name.
    pub name: String,
    /// Human-readable description.
    pub description: String,
    /// Replication mode across member clusters.
    pub replication_mode: DomainReplicationMode,
    /// Storage engine types the domain covers.
    pub storage_types: Vec<String>,
    /// Collections belonging to the domain.
    pub collections: Vec<String>,
    /// Relational tables belonging to the domain.
    pub tables: Vec<String>,
    /// Clusters that are members of the domain.
    pub member_clusters: Vec<String>,
    /// Cluster elected as domain leader, if any.
    pub leader_cluster: Option<String>,
    /// Creation timestamp (ms).
    pub created_at: u64,
    /// Version of the domain metadata.
    pub version: u64,
}

/// A data domain as plain values.
pub struct DataDomainView {
    pub name: Seq<char>,
    pub description: Seq<char>,
    pub replication_mode: DomainReplicationMode,
    pub storage_types: Seq<Seq<char>>,
    pub collections: Seq<Seq<char>>,
    pub tables: Seq<Seq<char>>,
    pub member_clusters: Seq<Seq<char>>,
    pub leader_cluster: Option<Seq<char>>,
    pub created_at: u64,
    pub version: u64,
}

impl View for DataDomain {
    type V = DataDomainView;

    open spec fn view(&self) -> DataDomainView {
        DataDomainView {
            name: self.name@,
            description: self.description@,
            replication_mode: self.replication_mode,
            storage_types: word_views(self.storage_types@),
            collections: word_views(self.collections@),
            tables: word_views(self.tables@),
            member_clusters: word_views(self.member_clusters@),
            leader_cluster: match self.leader_cluster {
                Some(c) => Some(c@),
                None => None,
            },
            created_at: self.created_at,
            version: self.version,
        }
    }
}

impl Clone for DataDomain {
    fn clone(&self) -> (r: Self)
        ensures
            r@ == self@,
    {
        DataDomain {
            name: self.name.clone(),
            description: self.description.clone(),
            replication_mode: self.replication_mode,
            storage_types: copy_strings(&self.storage_types),
            collections: copy_strings(&self.collections),
            tables: copy_strings(&self.tables),
            member_clusters: copy_strings(&self.member_clusters),
            leader_cluster: match &self.leader_cluster {
                Some(c) => Some(c.clone()),
                None => None,
            },
            created_at: self.created_at,
            version: self.version,
        }
    }
}

/// Replication health of a domain on a member cluster.
pub struct DomainReplicaStatus {
    /// Domain this status refers to.
    pub domain_name: String,
    /// Member cluster this status refers to.
    pub cluster_id: String,
    /// Timestamp (ms) of the last successful sync.
    pub last_sync_ms: u64,
    /// Records still awaiting replication.
    pub records_pending: u64,
    /// Replication lag in milliseconds.
    pub lag_ms: u64,
    /// Whether the replica is healthy.
    pub healthy: bool,
}

/// The members a write is replicated to: all but the source cluster and
/// the local one, in membership order.
pub open spec fn replication_targets_of(
    members: Seq<Seq<char>>,
    source: Seq<char>,
    local: Seq<char>,
) -> Seq<Seq<char>>
    decreases members.len(),
{
    if members.len() == 0 {
        Seq::empty()
    } else {
        let prev = replication_targets_of(members.drop_last(), source, local);
        let m = members.last();
        if m != source && m != local {
            prev.push(m)
        } else {
            prev
        }
    }
}

/// Acknowledgements a write needs from `targets` members: all of them under
/// `Sync`, a majority under `Quorum`, none under `Async` (best effort).
pub open spec fn acks_needed(mode: DomainReplicationMode, targets: nat) -> nat {
    match mode {
        DomainReplicationMode::Sync => targets,
        DomainReplicationMode::Quorum => targets / 2 + 1,
        DomainReplicationMode::Async => 0,
    }
}

/// The error for a domain that is not known.
pub open spec fn unknown_domain_message(name: Seq<char>) -> Seq<char> {
    "Domain '"@ + name + "' not found"@
}

/// The error for a replication that got too few acknowledgements.
pub open spec fn short_acks_message(name: Seq<char>, needed: nat, got: nat) -> Seq<char> {
    "Cross-cluster replication for domain '"@ + name + "' failed: "@ + decimal(needed) + " acks needed, got "@
        + decimal(got)
}

/// The domains of the manager as plain values, by name.
pub open spec fn domain_views(m: Map<Seq<char>, DataDomain>) -> Map<Seq<char>, DataDomainView> {
    m.map_values(|d: DataDomain| d@)
}

/// Tracks data domains and the health of their replicas.
pub struct DataDomainManager {
    /// ID of the local cluster.
    pub cluster_id: String,
    /// Known domains keyed by name.
    pub domains: StrMap<DataDomain>,
    /// Replica health keyed by `domain:cluster`.
    pub replica_status: StrMap<DomainReplicaStatus>,
    /// Replication requests received, keyed by operation ID.
    pub pending_replications: StrMap<FedDataReplicaRequest>,
}

impl DataDomainManager {
    /// Whether the manager's maps are well formed.
    pub open spec fn wf(&self) -> bool {
        &&& self.domains.wf()
        &&& self.replica_status.wf()
        &&& self.pending_replications.wf()
    }

    /// A manager for the local cluster with no domains.
    pub fn new(cluster_id: String) -> (m: Self)
        ensures
            m.wf(),
            m.cluster_id == cluster_id,
            m.domains@ == Map::<Seq<char>, DataDomain>::empty(),
            m.replica_status@ == Map::<Seq<char>, DomainReplicaStatus>::empty(),
            m.pending_replications@ == Map::<Seq<char>, FedDataReplicaRequest>::empty(),
    {
        DataDomainManager {
            cluster_id,
            domains: StrMap::new(),
            replica_status: StrMap::new(),
            pending_replications: StrMap::new(),
        }
    }

    /// Creates a domain led by the local cluster, version one, created at
    /// `now_ms`, registers it under its name and returns it.
    pub fn create_domain(
        &mut self,
        name: &str,
        description: &str,
        replication_mode: DomainReplicationMode,
        storage_types: Vec<String>,
        collections: Vec<String>,
        tables: Vec<String>,
        member_clusters: Vec<String>,
        now_ms: u64,
    ) -> (d: DataDomain)
        requires
            old(self).wf(),
        ensures
            final(self).wf(),
            d@ == (DataDomainView {
                name: name@,
                description: description@,
                replication_mode,
                storage_types: word_views(storage_types@),
                collections: word_views(collections@),
                tables: word_views(tables@),
                member_clusters: word_views(member_clusters@),
                leader_cluster: Some(old(self).cluster_id@),
                created_at: now_ms,
                version: 1,
            }),
            domain_views(final(self).domains@) == domain_views(old(self).domains@).insert(name@, d@),
            final(self).cluster_id == old(self).cluster_id,
    {
        let domain = DataDomain {
            name: owned(name),
            description: owned(description),
            replication_mode,
            storage_types,
            collections,
            tables,
            member_clusters,
            leader_cluster: Some(self.cluster_id.clone()),
            created_at: now_ms,
            version: 1,
        };
        let copy = domain.clone();
        let ghost m0 = self.domains@;
        self.domains.insert(owned(name), domain);
        assert(domain_views(self.domains@) =~= domain_views(m0).insert(name@, copy@));
        copy
    }

    /// The domain named `name`, if any.
    pub fn get_domain(&self, name: &str) -> (r: Option<DataDomain>)
        requires
            self.wf(),
        ensures
            r is Some <==> self.domains@.contains_key(name@),
            r matches Some(d) ==> d@ == self.domains@[name@]@,
    {
        match self.domains.get(&owned(name)) {
            Some(d) => Some(d.clone()),
            None => None,
        }
    }

    /// Removes the domain named `name`.
    pub fn delete_domain(&mut self, name: &str)
        requires
            old(self).wf(),
        ensures
            final(self).wf(),
            final(self).domains@ == old(self).domains@.remove(name@),
            final(self).cluster_id == old(self).cluster_id,
    {
        self.domains.remove(&owned(name));
    }

    /// Adds a member to a domain, which moves to its next version; nothing
    /// changes when the domain is unknown or the cluster already a member.
    pub fn add_cluster_to_domain(&mut self, domain_name: &str, cluster_id: &str)
        requires
            old(self).wf(),
            old(self).domains@.contains_key(domain_name@) ==> old(self).domains@[domain_name@].version < u64::MAX,
        ensures
            final(self).wf(),
            !old(self).domains@.contains_key(domain_name@) ==> final(self).domains@ == old(self).domains@,
            old(self).domains@.contains_key(domain_name@) ==> {
                let d = old(self).domains@[domain_name@]@;
                if d.member_clusters.contains(cluster_id@) {
                    domain_views(final(self).domains@) == domain_views(old(self).domains@)
                } else {
                    domain_views(final(self).domains@) == domain_views(old(self).domains@).insert(
                        domain_name@,
                        DataDomainView { member_clusters: d.member_clusters.push(cluster_id@), version: (d.version + 1) as u64, ..d },
                    )
                }
            },
            final(self).cluster_id == old(self).cluster_id,
    {
        let key = owned(domain_name);
        match self.domains.get(&key) {
            Some(d) => {
                let cid = owned(cluster_id);
                if !contains_name(&d.member_clusters, &cid) {
                    let mut updated = d.clone();
                    let ghost before = word_views(updated.member_clusters@);
                    updated.member_clusters.push(cid);
                    assert(word_views(updated.member_clusters@) =~= before.push(cluster_id@));
                    updated.version = updated.version + 1;
                    let ghost m0 = self.domains@;
                    let ghost uv = updated@;
                    self.domains.insert(key, updated);
                    assert(domain_views(self.domains@) =~= domain_views(m0).insert(domain_name@, uv));
                } else {
                    assert(domain_views(self.domains@) =~= domain_views(old(self).domains@));
                }
            },
            None => {},
        }
    }

    /// Removes a member from a domain, which moves to its next version;
    /// nothing changes when the domain is unknown.
    pub fn remove_cluster_from_domain(&mut self, domain_name: &str, cluster_id: &str)
        requires
            old(self).wf(),
            old(self).domains@.contains_key(domain_name@) ==> old(self).domains@[domain_name@].version < u64::MAX,
        ensures
            final(self).wf(),
            !old(self).domains@.contains_key(domain_name@) ==> final(self).domains@ == old(self).domains@,
            old(self).domains@.contains_key(domain_name@) ==> {
                let d = old(self).domains@[domain_name@]@;
                domain_views(final(self).domains@) == domain_views(old(self).domains@).insert(
                    domain_name@,
                    DataDomainView {
                        member_clusters: replication_targets_of(d.member_clusters, cluster_id@, cluster_id@),
                        version: (d.version + 1) as u64,
                        ..d
                    },
                )
            },
            final(self).cluster_id == old(self).cluster_id,
    {
        let key = owned(domain_name);
        match self.domains.get(&key) {
            Some(d) => {
                let mut updated = d.clone();
                updated.member_clusters = members_except(&d.member_clusters, cluster_id, cluster_id);
                updated.version = updated.version + 1;
                let ghost m0 = self.domains@;
                let ghost uv = updated@;
                self.domains.insert(key, updated);
                assert(domain_views(self.domains@) =~= domain_views(m0).insert(domain_name@, uv));
            },
            None => {},
        }
    }

    /// The members of `domain_name` that a write from `source_cluster` is
    /// replicated to; an error when the domain is unknown.
    pub fn replication_targets(&self, domain_name: &str, source_cluster: &str) -> (r: Result<Vec<String>, String>)
        requires
            self.wf(),
        ensures
            !self.domains@.contains_key(domain_name@) ==> (r matches Err(e) && e@ == unknown_domain_message(domain_name@)),
            self.domains@.contains_key(domain_name@) ==> (r matches Ok(t) && word_views(t@) == replication_targets_of(
                self.domains@[domain_name@]@.member_clusters,
                source_cluster@,
                self.cluster_id@,
            )),
    {
        match self.domains.get(&owned(domain_name)) {
            Some(d) => Ok(members_except(&d.member_clusters, source_cluster, self.cluster_id.as_str())),
            None => {
                let mut e = owned("Domain '");
                e.append(domain_name);
                e.append("' not found");
                Err(e)
            },
        }
    }

    /// Records a replication request from another cluster and acknowledges
    /// it: the request is kept by operation ID, and the source cluster is
    /// marked healthy for the domain as of `now_ms`.
    pub fn handle_replica_request(&mut self, req: FedDataReplicaRequest, now_ms: u64) -> (ack: FedDataReplicaAck)
        requires
            old(self).wf(),
        ensures
            final(self).wf(),
            ack.operation_id@ == req.operation_id@,
            ack.cluster_id@ == old(self).cluster_id@,
            ack.success,
            ack.error is None,
            final(self).pending_replications@ == old(self).pending_replications@.insert(req.operation_id@, req),
            final(self).replica_status@.dom() == old(self).replica_status@.dom().insert(
                req.domain_name@ + ":"@ + req.source_cluster@,
            ),
            ({
                let s = final(self).replica_status@[req.domain_name@ + ":"@ + req.source_cluster@];
                &&& s.domain_name@ == req.domain_name@
                &&& s.cluster_id@ == req.source_cluster@
                &&& s.last_sync_ms == now_ms
                &&& s.records_pending == 0
                &&& s.lag_ms == 0
                &&& s.healthy
            }),
            final(self).domains == old(self).domains,
            final(self).cluster_id == old(self).cluster_id,
    {
        let op = req.operation_id.clone();
        let domain = req.domain_name.clone();
        let source = req.source_cluster.clone();
        let mut key = domain.clone();
        key.append(":");
        key.append(source.as_str());
        let status = DomainReplicaStatus {
            domain_name: domain,
            cluster_id: source,
            last_sync_ms: now_ms,
            records_pending: 0,
            lag_ms: 0,
            healthy: true,
        };
        self.pending_replications.insert(req.operation_id.clone(), req);
        let ghost s0 = self.replica_status@;
        self.replica_status.insert(key, status);
        assert(self.replica_status@.dom() =~= s0.dom().insert(key@));
        FedDataReplicaAck { operation_id: op, cluster_id: self.cluster_id.clone(), success: true, error: None }
    }
}

/// Whether `v` holds a name equal to `s`.
fn contains_name(v: &Vec<String>, s: &String) -> (b: bool)
    ensures
        b == word_views(v@).contains(s@),
{
    let mut i: usize = 0;
    while i < v.len()
        invariant
            i <= v@.len(),
            forall|j: int| 0 <= j < i ==> v@[j]@ != s@,
        decreases v@.len() - i,
    {
        if v[i] == *s {
            assert(word_views(v@)[i as int] == s@);
            return true;
        }
        i = i + 1;
    }
    proof {
        if word_views(v@).contains(s@) {
            let j = choose|j: int| 0 <= j < word_views(v@).len() && word_views(v@)[j] == s@;
            assert(v@[j]@ == s@);
        }
    }
    false
}

/// The members other than `a` and `b`, in order.
fn members_except(members: &Vec<String>, a: &str, b: &str) -> (r: Vec<String>)
    ensures
        word_views(r@) == replication_targets_of(word_views(members@), a@, b@),
{
    let ghost mv = word_views(members@);
    let mut r: Vec<String> = Vec::new();
    let mut i: usize = 0;
    assert(mv.take(0) =~= Seq::<Seq<char>>::empty());
    assert(word_views(r@) =~= Seq::<Seq<char>>::empty());
    while i < members.len()
        invariant
            i <= members@.len(),
            mv == word_views(members@),
            word_views(r@) == replication_targets_of(mv.take(i as int), a@, b@),
        decreases members@.len() - i,
    {
        assert(mv.take(i + 1).drop_last() =~= mv.take(i as int));
        assert(mv.take(i + 1).last() == mv[i as int]);
        let m = members[i].as_str();
        if !str_eq(m, a) && !str_eq(m, b) {
            let ghost before = word_views(r@);
            r.push(members[i].clone());
            assert(word_views(r@) =~= before.push(mv[i as int]));
        }
        i = i + 1;
    }
    assert(mv.take(mv.len() as int) =~= mv);
    r
}

/// Decides a cross-cluster replication from its acknowledgements: it
/// succeeds when at least as many targets acknowledged as the mode needs,
/// and otherwise fails with a message naming both numbers.
pub fn replication_verdict(
    domain_name: &str,
    mode: DomainReplicationMode,
    targets: usize,
    successes: usize,
) -> (r: Result<(), String>)
    ensures
        r is Ok <==> successes >= acks_needed(mode, targets as nat),
        r matches Err(e) ==> e@ == short_acks_message(domain_name@, acks_needed(mode, targets as nat), successes as nat),
{
    let needed: usize = match mode {
        DomainReplicationMode::Sync => targets,
        DomainReplicationMode::Quorum => targets / 2 + 1,
        DomainReplicationMode::Async => 0,
    };
    if successes < needed {
        let mut e = owned("Cross-cluster replication for domain '");
        e.append(domain_name);
        e.append("' failed: ");
        e.append(decimal_string(needed as u64).as_str());
        e.append(" acks needed, got ");
        e.append(decimal_string(successes as u64).as_str());
        Err(e)
    } else {
        Ok(())
    }
}


/// Whether a domain covers a storage type and collection: the type is one
/// of its storage types, and it lists the collection or lists none.
pub open spec fn covers(d: DataDomainView, storage_type: Seq<char>, collection: Seq<char>) -> bool {
    d.storage_types.contains(storage_type) && (d.collections.len() == 0 || d.collections.contains(collection))
}

/// The name of the first domain, in registration order, that covers the
/// storage type and collection.
pub open spec fn owning_domain(
    entries: Seq<(String, DataDomain)>,
    storage_type: Seq<char>,
    collection: Seq<char>,
) -> Option<Seq<char>>
    decreases entries.len(),
{
    if entries.len() == 0 {
        None
    } else if covers(entries[0].1@, storage_type, collection) {
        Some(entries[0].1.name@)
    } else {
        owning_domain(entries.drop_first(), storage_type, collection)
    }
}

/// The health records of every member other than the local cluster, domain
/// by domain in registration order, all healthy as of `now`.
pub open spec fn health_records(
    entries: Seq<(String, DataDomain)>,
    local: Seq<char>,
) -> Seq<(Seq<char>, Seq<char>)>
    decreases entries.len(),
{
    if entries.len() == 0 {
        Seq::empty()
    } else {
        let prev = health_records(entries.drop_last(), local);
        let (name, d) = entries.last();
        prev + replication_targets_of(word_views(d.member_clusters@), local, local).map_values(
            |c: Seq<char>| (name@, c),
        )
    }
}

/// The domains of a sequence of entries, as plain values.
pub open spec fn entry_domain_views(entries: Seq<(String, DataDomain)>) -> Seq<DataDomainView> {
    entries.map_values(|e: (String, DataDomain)| e.1@)
}

impl DataDomainManager {
    /// Every domain, in registration order.
    pub fn list_domains(&self) -> (r: Vec<DataDomain>)
        requires
            self.wf(),
        ensures
            r@.map_values(|d: DataDomain| d@) == entry_domain_views(self.domains.entry_seq()),
    {
        let ghost es = self.domains.entry_seq();
        let mut r: Vec<DataDomain> = Vec::new();
        let mut i: usize = 0;
        while i < self.domains.entry_count()
            invariant
                es == self.domains.entry_seq(),
                i <= es.len(),
                r@.map_values(|d: DataDomain| d@) == entry_domain_views(es.take(i as int)),
            decreases es.len() - i,
        {
            let d = self.domains.value_at(i);
            let ghost before = r@;
            r.push(d.clone());
            assert(r@.map_values(|d: DataDomain| d@) =~= before.map_values(|d: DataDomain| d@).push(es[i as int].1@));
            assert(entry_domain_views(es.take(i + 1)) =~= entry_domain_views(es.take(i as int)).push(es[i as int].1@));
            i = i + 1;
        }
        assert(es.take(es.len() as int) =~= es);
        r
    }

    /// The name of the first domain, in registration order, that covers the
    /// storage type and collection.
    pub fn storage_belongs_to_domain(&self, storage_type: &str, collection: &str) -> (r: Option<String>)
        requires
            self.wf(),
        ensures
            match r {
                Some(n) => owning_domain(self.domains.entry_seq(), storage_type@, collection@) == Some(n@),
                None => owning_domain(self.domains.entry_seq(), storage_type@, collection@) is None,
            },
    {
        let ghost es = self.domains.entry_seq();
        let st = owned(storage_type);
        let coll = owned(collection);
        let mut i: usize = 0;
        assert(es.skip(0) =~= es);
        while i < self.domains.entry_count()
            invariant
                es == self.domains.entry_seq(),
                st@ == storage_type@,
                coll@ == collection@,
                i <= es.len(),
                owning_domain(es, storage_type@, collection@) == owning_domain(es.skip(i as int), storage_type@, collection@),
            decreases es.len() - i,
        {
            let d = self.domains.value_at(i);
            assert(es.skip(i as int)[0] == es[i as int]);
            assert(es.skip(i as int).drop_first() =~= es.skip(i + 1));
            if contains_name(&d.storage_types, &st) && (d.collections.len() == 0 || contains_name(&d.collections, &coll)) {
                return Some(d.name.clone());
            }
            i = i + 1;
        }
        assert(es.skip(i as int).len() == 0);
        None
    }

    /// The health of every member of every domain other than the local
    /// cluster, as of `now_ms`: healthy, nothing pending, no lag.
    pub fn get_replica_health(&self, now_ms: u64) -> (r: Vec<DomainReplicaStatus>)
        requires
            self.wf(),
        ensures
            r@.map_values(|s: DomainReplicaStatus| (s.domain_name@, s.cluster_id@)) == health_records(
                self.domains.entry_seq(),
                self.cluster_id@,
            ),
            forall|i: int|
                0 <= i < r@.len() ==> (#[trigger] r@[i]).last_sync_ms == now_ms && r@[i].records_pending == 0
                    && r@[i].lag_ms == 0 && r@[i].healthy,
    {
        let ghost es = self.domains.entry_seq();
        let mut r: Vec<DomainReplicaStatus> = Vec::new();
        let mut i: usize = 0;
        while i < self.domains.entry_count()
            invariant
                es == self.domains.entry_seq(),
                i <= es.len(),
                r@.map_values(|s: DomainReplicaStatus| (s.domain_name@, s.cluster_id@)) == health_records(
                    es.take(i as int),
                    self.cluster_id@,
                ),
                forall|k: int|
                    0 <= k < r@.len() ==> (#[trigger] r@[k]).last_sync_ms == now_ms && r@[k].records_pending == 0
                        && r@[k].lag_ms == 0 && r@[k].healthy,
            decreases es.len() - i,
        {
            let name = self.domains.key_at(i);
            let d = self.domains.value_at(i);
            let targets = members_except(&d.member_clusters, self.cluster_id.as_str(), self.cluster_id.as_str());
            let ghost base = r@.map_values(|s: DomainReplicaStatus| (s.domain_name@, s.cluster_id@));
            let ghost tv = word_views(targets@);
            let mut j: usize = 0;
            assert(tv.take(0).map_values(|c: Seq<char>| (name@, c)) =~= Seq::<(Seq<char>, Seq<char>)>::empty());
            assert(base + Seq::<(Seq<char>, Seq<char>)>::empty() =~= base);
            while j < targets.len()
                invariant
                    j <= targets@.len(),
                    tv == word_views(targets@),
                    r@.map_values(|s: DomainReplicaStatus| (s.domain_name@, s.cluster_id@)) == base + tv.take(
                        j as int,
                    ).map_values(|c: Seq<char>| (name@, c)),
                    forall|k: int|
                        0 <= k < r@.len() ==> (#[trigger] r@[k]).last_sync_ms == now_ms && r@[k].records_pending
                            == 0 && r@[k].lag_ms == 0 && r@[k].healthy,
                decreases targets@.len() - j,
            {
                let ghost before = r@;
                r.push(
                    DomainReplicaStatus {
                        domain_name: name.clone(),
                        cluster_id: targets[j].clone(),
                        last_sync_ms: now_ms,
                        records_pending: 0,
                        lag_ms: 0,
                        healthy: true,
                    },
                );
                assert(r@.map_values(|s: DomainReplicaStatus| (s.domain_name@, s.cluster_id@)) =~= before.map_values(
                    |s: DomainReplicaStatus| (s.domain_name@, s.cluster_id@),
                ).push((name@, tv[j as int])));
                assert(tv.take(j + 1).map_values(|c: Seq<char>| (name@, c)) =~= tv.take(j as int).map_values(
                    |c: Seq<char>| (name@, c),
                ).push((name@, tv[j as int])));
                j = j + 1;
            }
            assert(tv.take(tv.len() as int) =~= tv);
            assert(es.take(i + 1).drop_last() =~= es.take(i as int));
            assert(es.take(i + 1).last() == es[i as int]);
            i = i + 1;
        }
        assert(es.take(es.len() as int) =~= es);
        r
    }
}
/// A cross-cluster write goes to exactly the domain's members other than
/// the cluster it came from and this cluster, each as often as it is
/// listed.
pub proof fn lemma_targets_rule(members: Seq<Seq<char>>, source: Seq<char>, local: Seq<char>)
    ensures
        forall|x: Seq<char>|
            #[trigger] replication_targets_of(members, source, local).contains(x) <==> (members.contains(x) && x != source
                && x != local),
        replication_targets_of(members, source, local).len() <= members.len(),
    decreases members.len(),
{
    if members.len() > 0 {
        let d = members.drop_last();
        lemma_targets_rule(d, source, local);
        let prev = replication_targets_of(d, source, local);
        let m = members.last();
        let t = replication_targets_of(members, source, local);
        assert forall|x: Seq<char>| #[trigger] t.contains(x) <==> (members.contains(x) && x != source && x != local) by {
            if members.contains(x) && x != source && x != local {
                let i = choose|i: int| 0 <= i < members.len() && members[i] == x;
                if i < d.len() {
                    assert(d[i] == x);
                    assert(prev.contains(x));
                    let k = choose|k: int| 0 <= k < prev.len() && prev[k] == x;
                    if m != source && m != local {
                        assert(t[k] == x);
                    }
                } else {
                    assert(t[prev.len() as int] == x);
                }
            }
            if t.contains(x) {
                let k = choose|k: int| 0 <= k < t.len() && t[k] == x;
                if k < prev.len() {
                    assert(t[k] == prev[k]);
                    assert(prev.contains(x));
                    let i = choose|i: int| 0 <= i < d.len() && d[i] == x;
                    assert(members[i] == x);
                } else {
                    assert(members[members.len() - 1] == x);
                }
            }
        }
    }
}

/// A cross-cluster write succeeds under `Sync` when every target
/// acknowledged, under `Quorum` when a strict majority did, and under
/// `Async` always.
pub proof fn lemma_acks_rule(mode: DomainReplicationMode, targets: nat, successes: nat)
    ensures
        mode == DomainReplicationMode::Sync ==> (successes >= acks_needed(mode, targets) <==> successes >= targets),
        mode == DomainReplicationMode::Quorum ==> (successes >= acks_needed(mode, targets) <==> 2 * successes > targets),
        mode == DomainReplicationMode::Async ==> successes >= acks_needed(mode, targets),
{
}

} // verus!
