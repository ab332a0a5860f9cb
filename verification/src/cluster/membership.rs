//! SWIM-style cluster membership.
//!
//! Members are alive, suspect, dead or gone; each carries an incarnation
//! number, and a report about a member only counts when its incarnation is
//! at least the member's. Probing and gossip are driven by the caller, which
//! sends the messages and hands the answers back here.

use vstd::prelude::*;
use crate::cluster::rpc::{ClusterNodeInfo, JoinRequest, JoinResponse};
use crate::strmap::StrMap;
use crate::text::{copy_strings, owned, word_views};

verus! {

/// Liveness of a member.
#[derive(Debug, Clone, Copy, PartialEq, Eq, Structural)]
pub enum MemberStatus {
    Alive,
    Suspect,
    Dead,
    Left,
}

/// A member of the cluster as membership tracks it.
pub struct ClusterMember {
    pub node_id: String,
    pub address: String,
    pub port: u16,
    pub status: MemberStatus,
    pub incarnation: u64,
    pub last_seen: u64,
    pub roles: Vec<String>,
}

/// A member as plain values.
pub struct MemberView {
    pub node_id: Seq<char>,
    pub address: Seq<char>,
    pub port: u16,
    pub status: MemberStatus,
    pub incarnation: u64,
    pub last_seen: u64,
    pub roles: Seq<Seq<char>>,
}

impl View for ClusterMember {
    type V = MemberView;

    open spec fn view(&self) -> MemberView {
        MemberView {
            node_id: self.node_id@,
            address: self.address@,
            port: self.port,
            status: self.status,
            incarnation: self.incarnation,
            last_seen: self.last_seen,
            roles: word_views(self.roles@),
        }
    }
}

impl Clone for ClusterMember {
    fn clone(&self) -> (r: Self)
        ensures
            r@ == self@,
    {
        ClusterMember {
            node_id: self.node_id.clone(),
            address: self.address.clone(),
            port: self.port,
            status: self.status,
            incarnation: self.incarnation,
            last_seen: self.last_seen,
            roles: copy_strings(&self.roles),
        }
    }
}

/// Membership timing parameters.
#[derive(Debug, Clone, Copy, PartialEq, Eq, Structural)]
pub struct MembershipConfig {
    pub gossip_interval_ms: u64,
    pub probe_interval_ms: u64,
    pub suspect_timeout_ms: u64,
    pub gossip_fanout: usize,
    pub ping_req_count: usize,
    pub cleanup_interval_ms: u64,
}

impl Default for MembershipConfig {
    fn default() -> (c: Self)
        ensures
            c == (MembershipConfig {
                gossip_interval_ms: 1000,
                probe_interval_ms: 5000,
                suspect_timeout_ms: 10000,
                gossip_fanout: 3,
                ping_req_count: 3,
                cleanup_interval_ms: 30000,
            }),
    {
        MembershipConfig {
            gossip_interval_ms: 1000,
            probe_interval_ms: 5000,
            suspect_timeout_ms: 10000,
            gossip_fanout: 3,
            ping_req_count: 3,
            cleanup_interval_ms: 30000,
        }
    }
}

/// The members as plain values, by node id.
pub open spec fn member_views(m: Map<Seq<char>, ClusterMember>) -> Map<Seq<char>, MemberView> {
    m.map_values(|c: ClusterMember| c@)
}

/// The members after a report about `v`: a new member is added, and a
/// known one is replaced when the report has a newer incarnation or the
/// member is dead.
pub open spec fn after_add(m: Map<Seq<char>, MemberView>, v: MemberView) -> Map<Seq<char>, MemberView> {
    if !m.contains_key(v.node_id) {
        m.insert(v.node_id, v)
    } else if v.incarnation > m[v.node_id].incarnation || m[v.node_id].status == MemberStatus::Dead {
        m.insert(v.node_id, v)
    } else {
        m
    }
}

/// The members after a report that `id` has `status` at incarnation `inc`
/// (seen at `seen`, when the report refreshes it): it counts when the
/// member is known and the incarnation is not older.
pub open spec fn after_report(
    m: Map<Seq<char>, MemberView>,
    id: Seq<char>,
    status: MemberStatus,
    inc: u64,
    seen: Option<u64>,
) -> Map<Seq<char>, MemberView> {
    if m.contains_key(id) && inc >= m[id].incarnation {
        m.insert(
            id,
            MemberView {
                status,
                incarnation: inc,
                last_seen: match seen {
                    Some(t) => t,
                    None => m[id].last_seen,
                },
                ..m[id]
            },
        )
    } else {
        m
    }
}

/// The node ids, in the order members were first recorded, of the members
/// whose status satisfies `keep`.
pub open spec fn ids_where(
    entries: Seq<(String, ClusterMember)>,
    keep: spec_fn(MemberStatus) -> bool,
) -> Seq<Seq<char>>
    decreases entries.len(),
{
    if entries.len() == 0 {
        Seq::empty()
    } else {
        let prev = ids_where(entries.drop_last(), keep);
        if keep(entries.last().1.status) {
            prev.push(entries.last().1.node_id@)
        } else {
            prev
        }
    }
}

/// The membership state of a node.
pub struct MembershipManager {
    pub node_id: String,
    /// Host the node listens on.
    pub bind_host: String,
    /// Port the node listens on.
    pub bind_port: u16,
    pub config: MembershipConfig,
    /// Members keyed by node id.
    pub members: StrMap<ClusterMember>,
    /// Sequence number of the last probe sent.
    pub local_seq: u64,
    pub running: bool,
    pub seed_servers: Vec<String>,
    /// When dead members were last cleared away (ms).
    pub last_cleanup: u64,
}

impl MembershipManager {
    /// Whether the member map is well formed and each member is recorded
    /// under its own id.
    pub open spec fn wf(&self) -> bool {
        &&& self.members.wf()
        &&& forall|k: Seq<char>| #[trigger] self.members@.contains_key(k) ==> self.members@[k].node_id@ == k
    }

    /// A running manager with no members.
    pub fn new(node_id: String, bind_host: String, bind_port: u16, seed_servers: Vec<String>) -> (m: Self)
        ensures
            m.wf(),
            m.node_id == node_id,
            m.members@ == Map::<Seq<char>, ClusterMember>::empty(),
            m.config == MembershipConfig::default_spec(),
            m.local_seq == 0,
            m.running,
            m.last_cleanup == 0,
    {
        MembershipManager {
            node_id,
            bind_host,
            bind_port,
            config: MembershipConfig::default(),
            members: StrMap::new(),
            local_seq: 0,
            running: true,
            seed_servers,
            last_cleanup: 0,
        }
    }

    /// Records a report about a member: a new member is added, and a known
    /// one is replaced when the report has a newer incarnation or the member
    /// is dead.
    pub fn add_member(&mut self, member: ClusterMember)
        requires
            old(self).wf(),
        ensures
            final(self).wf(),
            member_views(final(self).members@) == after_add(member_views(old(self).members@), member@),
            final(self).node_id == old(self).node_id,
            final(self).config == old(self).config,
            final(self).last_cleanup == old(self).last_cleanup,
    {
        let ghost m0 = self.members@;
        let replace = match self.members.get(&member.node_id) {
            None => true,
            Some(existing) => member.incarnation > existing.incarnation || existing.status == MemberStatus::Dead,
        };
        if replace {
            let ghost v = member@;
            let key = member.node_id.clone();
            self.members.insert(key, member);
            assert(member_views(self.members@) =~= member_views(m0).insert(v.node_id, v));
        }
    }

    /// The member with this id, if known.
    pub fn get_member(&self, node_id: &str) -> (r: Option<ClusterMember>)
        requires
            self.wf(),
        ensures
            r is Some <==> self.members@.contains_key(node_id@),
            r matches Some(c) ==> c@ == self.members@[node_id@]@,
    {
        match self.members.get(&owned(node_id)) {
            Some(c) => Some(c.clone()),
            None => None,
        }
    }

    fn report(&mut self, node_id: &str, status: MemberStatus, incarnation: u64, seen: Option<u64>)
        requires
            old(self).wf(),
        ensures
            final(self).wf(),
            member_views(final(self).members@) == after_report(
                member_views(old(self).members@),
                node_id@,
                status,
                incarnation,
                seen,
            ),
            final(self).node_id == old(self).node_id,
            final(self).config == old(self).config,
            final(self).local_seq == old(self).local_seq,
            final(self).last_cleanup == old(self).last_cleanup,
    {
        let key = owned(node_id);
        let ghost m0 = self.members@;
        match self.members.get(&key) {
            Some(existing) => {
                if incarnation >= existing.incarnation {
                    let mut updated = existing.clone();
                    updated.status = status;
                    updated.incarnation = incarnation;
                    match seen {
                        Some(t) => {
                            updated.last_seen = t;
                        },
                        None => {},
                    }
                    let ghost uv = updated@;
                    self.members.insert(key, updated);
                    assert(member_views(self.members@) =~= member_views(m0).insert(node_id@, uv));
                }
            },
            None => {},
        }
    }

    /// Marks a member suspect, if the report's incarnation is not older.
    pub fn mark_suspect(&mut self, node_id: &str, incarnation: u64)
        requires
            old(self).wf(),
        ensures
            final(self).wf(),
            member_views(final(self).members@) == after_report(
                member_views(old(self).members@),
                node_id@,
                MemberStatus::Suspect,
                incarnation,
                None,
            ),
            final(self).node_id == old(self).node_id,
            final(self).config == old(self).config,
            final(self).local_seq == old(self).local_seq,
    {
        self.report(node_id, MemberStatus::Suspect, incarnation, None)
    }

    /// Marks a member alive and seen at `now_ms`, if the report's
    /// incarnation is not older.
    pub fn mark_alive(&mut self, node_id: &str, incarnation: u64, now_ms: u64)
        requires
            old(self).wf(),
        ensures
            final(self).wf(),
            member_views(final(self).members@) == after_report(
                member_views(old(self).members@),
                node_id@,
                MemberStatus::Alive,
                incarnation,
                Some(now_ms),
            ),
            final(self).node_id == old(self).node_id,
            final(self).config == old(self).config,
            final(self).local_seq == old(self).local_seq,
    {
        self.report(node_id, MemberStatus::Alive, incarnation, Some(now_ms))
    }

    /// Marks a known member dead, whatever its incarnation.
    pub fn mark_dead(&mut self, node_id: &str)
        requires
            old(self).wf(),
        ensures
            final(self).wf(),
            member_views(final(self).members@) == if old(self).members@.contains_key(node_id@) {
                member_views(old(self).members@).insert(
                    node_id@,
                    MemberView { status: MemberStatus::Dead, ..old(self).members@[node_id@]@ },
                )
            } else {
                member_views(old(self).members@)
            },
            final(self).node_id == old(self).node_id,
            final(self).config == old(self).config,
            final(self).local_seq == old(self).local_seq,
    {
        let key = owned(node_id);
        let ghost m0 = self.members@;
        match self.members.get(&key) {
            Some(existing) => {
                let mut updated = existing.clone();
                updated.status = MemberStatus::Dead;
                let ghost uv = updated@;
                self.members.insert(key, updated);
                assert(member_views(self.members@) =~= member_views(m0).insert(node_id@, uv));
            },
            None => {},
        }
    }

    /// Records this node itself as alive at incarnation one, seen at
    /// `now_ms`, with the coordinator, worker and storage roles.
    pub fn register_self(&mut self, now_ms: u64)
        requires
            old(self).wf(),
        ensures
            final(self).wf(),
            final(self).members@.contains_key(old(self).node_id@),
            ({
                let v = final(self).members@[old(self).node_id@]@;
                &&& v.address == old(self).bind_host@
                &&& v.port == old(self).bind_port
                &&& v.status == MemberStatus::Alive
                &&& v.incarnation == 1
                &&& v.last_seen == now_ms
                &&& v.roles == seq!["Coordinator"@, "Worker"@, "Storage"@]
            }),
            member_views(final(self).members@).remove(old(self).node_id@) == member_views(old(self).members@).remove(
                old(self).node_id@,
            ),
            final(self).node_id == old(self).node_id,
    {
        let mut roles: Vec<String> = Vec::new();
        roles.push(owned("Coordinator"));
        roles.push(owned("Worker"));
        roles.push(owned("Storage"));
        assert(word_views(roles@) =~= seq!["Coordinator"@, "Worker"@, "Storage"@]);
        let me = ClusterMember {
            node_id: self.node_id.clone(),
            address: self.bind_host.clone(),
            port: self.bind_port,
            status: MemberStatus::Alive,
            incarnation: 1,
            last_seen: now_ms,
            roles,
        };
        let ghost m0 = self.members@;
        self.members.insert(self.node_id.clone(), me);
        assert(member_views(self.members@).remove(self.node_id@) =~= member_views(m0).remove(self.node_id@));
    }

    /// Takes in a join request: the joining node is recorded as alive at
    /// incarnation one, and the answer accepts it with this node as leader
    /// and the given cluster nodes.
    pub fn handle_join(&mut self, req: &JoinRequest, accepted_nodes: Vec<ClusterNodeInfo>, now_ms: u64) -> (resp: JoinResponse)
        requires
            old(self).wf(),
        ensures
            final(self).wf(),
            member_views(final(self).members@) == after_add(
                member_views(old(self).members@),
                MemberView {
                    node_id: req.node_id@,
                    address: req.address@,
                    port: req.port,
                    status: MemberStatus::Alive,
                    incarnation: 1,
                    last_seen: now_ms,
                    roles: word_views(req.roles@),
                },
            ),
            resp.accepted,
            resp.leader_id matches Some(l) && l@ == old(self).node_id@,
            resp.cluster_nodes == accepted_nodes,
            resp.error is None,
            final(self).node_id == old(self).node_id,
    {
        let member = ClusterMember {
            node_id: req.node_id.clone(),
            address: req.address.clone(),
            port: req.port,
            status: MemberStatus::Alive,
            incarnation: 1,
            last_seen: now_ms,
            roles: copy_strings(&req.roles),
        };
        self.add_member(member);
        JoinResponse {
            accepted: true,
            leader_id: Some(self.node_id.clone()),
            cluster_nodes: accepted_nodes,
            error: None,
        }
    }

    /// Advances the probe sequence number and returns it.
    pub fn next_sequence(&mut self) -> (s: u64)
        requires
            old(self).local_seq < u64::MAX,
        ensures
            s == old(self).local_seq + 1,
            final(self).local_seq == s,
            final(self).members == old(self).members,
            final(self).node_id == old(self).node_id,
    {
        self.local_seq = self.local_seq + 1;
        self.local_seq
    }
}

impl MembershipConfig {
    /// The default membership parameters.
    pub open spec fn default_spec() -> MembershipConfig {
        MembershipConfig {
            gossip_interval_ms: 1000,
            probe_interval_ms: 5000,
            suspect_timeout_ms: 10000,
            gossip_fanout: 3,
            ping_req_count: 3,
            cleanup_interval_ms: 30000,
        }
    }
}


/// The members of a sequence of entries, as plain values.
pub open spec fn entry_member_views(es: Seq<(String, ClusterMember)>) -> Seq<MemberView> {
    es.map_values(|e: (String, ClusterMember)| e.1@)
}

/// The entries whose member has `status`, in order.
pub open spec fn with_status(es: Seq<(String, ClusterMember)>, status: MemberStatus) -> Seq<MemberView>
    decreases es.len(),
{
    if es.len() == 0 {
        Seq::empty()
    } else {
        let prev = with_status(es.drop_last(), status);
        if es.last().1.status == status {
            prev.push(es.last().1@)
        } else {
            prev
        }
    }
}

/// The alive members other than `a` and `b`, in order.
pub open spec fn alive_except(es: Seq<(String, ClusterMember)>, a: Seq<char>, b: Seq<char>) -> Seq<Seq<char>>
    decreases es.len(),
{
    if es.len() == 0 {
        Seq::empty()
    } else {
        let prev = alive_except(es.drop_last(), a, b);
        let m = es.last().1;
        if m.status == MemberStatus::Alive && m.node_id@ != a && m.node_id@ != b {
            prev.push(m.node_id@)
        } else {
            prev
        }
    }
}

/// The ids of the members that are alive or suspect, in order.
pub open spec fn live_ids(es: Seq<(String, ClusterMember)>) -> Seq<Seq<char>>
    decreases es.len(),
{
    if es.len() == 0 {
        Seq::empty()
    } else {
        let prev = live_ids(es.drop_last());
        let m = es.last().1;
        if m.status == MemberStatus::Alive || m.status == MemberStatus::Suspect {
            prev.push(m.node_id@)
        } else {
            prev
        }
    }
}

/// The first `n` elements of `s`, or all of them.
pub open spec fn first_n<A>(s: Seq<A>, n: nat) -> Seq<A> {
    if s.len() <= n {
        s
    } else {
        s.take(n as int)
    }
}

impl MembershipManager {
    /// The members with `status`, in the order they were first recorded.
    pub fn members_with(&self, status: MemberStatus) -> (r: Vec<ClusterMember>)
        requires
            self.wf(),
        ensures
            r@.map_values(|c: ClusterMember| c@) == with_status(self.members.entry_seq(), status),
    {
        let ghost es = self.members.entry_seq();
        let mut r: Vec<ClusterMember> = Vec::new();
        let mut i: usize = 0;
        assert(es.take(0) =~= Seq::<(String, ClusterMember)>::empty());
        assert(r@.map_values(|c: ClusterMember| c@) =~= Seq::<MemberView>::empty());
        while i < self.members.entry_count()
            invariant
                es == self.members.entry_seq(),
                i <= es.len(),
                r@.map_values(|c: ClusterMember| c@) == with_status(es.take(i as int), status),
            decreases es.len() - i,
        {
            let m = self.members.value_at(i);
            assert(es.take(i + 1).drop_last() =~= es.take(i as int));
            assert(es.take(i + 1).last() == es[i as int]);
            if m.status == status {
                let ghost before = r@;
                r.push(m.clone());
                assert(r@.map_values(|c: ClusterMember| c@) =~= before.map_values(|c: ClusterMember| c@).push(m@));
            }
            i = i + 1;
        }
        assert(es.take(es.len() as int) =~= es);
        r
    }

    /// The alive members, in the order they were first recorded.
    pub fn alive_members(&self) -> (r: Vec<ClusterMember>)
        requires
            self.wf(),
        ensures
            r@.map_values(|c: ClusterMember| c@) == with_status(self.members.entry_seq(), MemberStatus::Alive),
    {
        self.members_with(MemberStatus::Alive)
    }

    /// The suspect members, in the order they were first recorded.
    pub fn suspect_members(&self) -> (r: Vec<ClusterMember>)
        requires
            self.wf(),
        ensures
            r@.map_values(|c: ClusterMember| c@) == with_status(self.members.entry_seq(), MemberStatus::Suspect),
    {
        self.members_with(MemberStatus::Suspect)
    }

    /// The member to probe: an alive member other than this node seen most
    /// recently (the last such one on a tie); none when there is none.
    pub fn probe_target(&self) -> (r: Option<String>)
        requires
            self.wf(),
        ensures
            r is None <==> !exists|i: int|
                0 <= i < self.members.entry_seq().len() && (#[trigger] self.members.entry_seq()[i]).1.status
                    == MemberStatus::Alive && self.members.entry_seq()[i].1.node_id@ != self.node_id@,
            r matches Some(id) ==> exists|i: int|
                0 <= i < self.members.entry_seq().len() && {
                    let m = (#[trigger] self.members.entry_seq()[i]).1;
                    &&& m.node_id@ == id@
                    &&& m.status == MemberStatus::Alive
                    &&& m.node_id@ != self.node_id@
                    &&& forall|j: int|
                        0 <= j < self.members.entry_seq().len() && (#[trigger] self.members.entry_seq()[j]).1.status
                            == MemberStatus::Alive && self.members.entry_seq()[j].1.node_id@ != self.node_id@
                            ==> self.members.entry_seq()[j].1.last_seen <= m.last_seen
                },
    {
        let ghost es = self.members.entry_seq();
        let mut best: Option<usize> = None;
        let mut i: usize = 0;
        while i < self.members.entry_count()
            invariant
                es == self.members.entry_seq(),
                i <= es.len(),
                best is None <==> !exists|k: int|
                    0 <= k < i && (#[trigger] es[k]).1.status == MemberStatus::Alive && es[k].1.node_id@
                        != self.node_id@,
                best matches Some(b) ==> b < i && es[b as int].1.status == MemberStatus::Alive && es[b as int].1.node_id@
                    != self.node_id@ && forall|j: int|
                    0 <= j < i && (#[trigger] es[j]).1.status == MemberStatus::Alive && es[j].1.node_id@
                        != self.node_id@ ==> es[j].1.last_seen <= es[b as int].1.last_seen,
            decreases es.len() - i,
        {
            let m = self.members.value_at(i);
            if m.status == MemberStatus::Alive && m.node_id != self.node_id {
                match best {
                    None => {
                        best = Some(i);
                    },
                    Some(b) => {
                        if m.last_seen >= self.members.value_at(b).last_seen {
                            best = Some(i);
                        }
                    },
                }
            }
            i = i + 1;
        }
        match best {
            Some(b) => Some(self.members.value_at(b).node_id.clone()),
            None => None,
        }
    }

    /// The alive members other than this node and `target` to ask to probe
    /// `target` indirectly: the first `ping_req_count` of them.
    pub fn ping_req_helpers(&self, target: &str) -> (r: Vec<String>)
        requires
            self.wf(),
        ensures
            word_views(r@) == first_n(
                alive_except(self.members.entry_seq(), self.node_id@, target@),
                self.config.ping_req_count as nat,
            ),
    {
        let ghost es = self.members.entry_seq();
        let ghost all = alive_except(es, self.node_id@, target@);
        let mut r: Vec<String> = Vec::new();
        let mut i: usize = 0;
        assert(es.take(0) =~= Seq::<(String, ClusterMember)>::empty());
        assert(word_views(r@) =~= Seq::<Seq<char>>::empty());
        while i < self.members.entry_count() && r.len() < self.config.ping_req_count
            invariant
                es == self.members.entry_seq(),
                i <= es.len(),
                r@.len() <= self.config.ping_req_count,
                word_views(r@) == alive_except(es.take(i as int), self.node_id@, target@),
            decreases es.len() - i,
        {
            let m = self.members.value_at(i);
            assert(es.take(i + 1).drop_last() =~= es.take(i as int));
            assert(es.take(i + 1).last() == es[i as int]);
            if m.status == MemberStatus::Alive && m.node_id != self.node_id && !crate::text::str_eq(m.node_id.as_str(), target) {
                let ghost before = word_views(r@);
                r.push(m.node_id.clone());
                assert(word_views(r@) =~= before.push(m.node_id@));
            }
            i = i + 1;
        }
        proof {
            lemma_alive_except_prefix(es, self.node_id@, target@, i as int);
            if i == es.len() {
                assert(es.take(i as int) =~= es);
            }
        }
        r
    }

    /// The members to gossip about: up to ten of the alive or suspect ones.
    pub fn gossip_snapshot(&self) -> (r: Vec<String>)
        requires
            self.wf(),
        ensures
            word_views(r@) == first_n(live_ids(self.members.entry_seq()), 10),
    {
        let ghost es = self.members.entry_seq();
        let mut r: Vec<String> = Vec::new();
        let mut i: usize = 0;
        assert(es.take(0) =~= Seq::<(String, ClusterMember)>::empty());
        assert(word_views(r@) =~= Seq::<Seq<char>>::empty());
        while i < self.members.entry_count() && r.len() < 10
            invariant
                es == self.members.entry_seq(),
                i <= es.len(),
                r@.len() <= 10,
                word_views(r@) == live_ids(es.take(i as int)),
            decreases es.len() - i,
        {
            let m = self.members.value_at(i);
            assert(es.take(i + 1).drop_last() =~= es.take(i as int));
            assert(es.take(i + 1).last() == es[i as int]);
            if m.status == MemberStatus::Alive || m.status == MemberStatus::Suspect {
                let ghost before = word_views(r@);
                r.push(m.node_id.clone());
                assert(word_views(r@) =~= before.push(m.node_id@));
            }
            i = i + 1;
        }
        proof {
            lemma_live_ids_prefix(es, i as int);
            if i == es.len() {
                assert(es.take(i as int) =~= es);
            }
        }
        r
    }
}

proof fn lemma_alive_except_prefix(es: Seq<(String, ClusterMember)>, a: Seq<char>, b: Seq<char>, i: int)
    requires
        0 <= i <= es.len(),
    ensures
        alive_except(es.take(i), a, b).is_prefix_of(alive_except(es, a, b)),
    decreases es.len() - i,
{
    if i < es.len() {
        lemma_alive_except_prefix(es, a, b, i + 1);
        assert(es.take(i + 1).drop_last() =~= es.take(i));
    } else {
        assert(es.take(i) =~= es);
    }
}

proof fn lemma_live_ids_prefix(es: Seq<(String, ClusterMember)>, i: int)
    requires
        0 <= i <= es.len(),
    ensures
        live_ids(es.take(i)).is_prefix_of(live_ids(es)),
    decreases es.len() - i,
{
    if i < es.len() {
        lemma_live_ids_prefix(es, i + 1);
        assert(es.take(i + 1).drop_last() =~= es.take(i));
    } else {
        assert(es.take(i) =~= es);
    }
}

/// A member after a suspicion check at `now`: a suspect not seen for more
/// than `timeout` milliseconds is dead.
pub open spec fn expire(v: MemberView, now: u64, timeout: u64) -> MemberView {
    if v.status == MemberStatus::Suspect && now - v.last_seen > timeout {
        MemberView { status: MemberStatus::Dead, ..v }
    } else {
        v
    }
}

/// Whether a member is dead or has left.
pub open spec fn is_gone(v: MemberView) -> bool {
    v.status == MemberStatus::Dead || v.status == MemberStatus::Left
}

/// The member a cluster node listed in a join answer stands for: alive at
/// incarnation one, seen at `now`.
pub open spec fn joined_member(n: ClusterNodeInfo, now: u64) -> MemberView {
    MemberView {
        node_id: n.node_id@,
        address: n.address@,
        port: n.port,
        status: MemberStatus::Alive,
        incarnation: 1,
        last_seen: now,
        roles: word_views(n.roles@),
    }
}

/// The members after recording each listed node in turn.
pub open spec fn add_all(m: Map<Seq<char>, MemberView>, nodes: Seq<ClusterNodeInfo>, now: u64) -> Map<
    Seq<char>,
    MemberView,
>
    decreases nodes.len(),
{
    if nodes.len() == 0 {
        m
    } else {
        after_add(add_all(m, nodes.drop_last(), now), joined_member(nodes.last(), now))
    }
}

impl MembershipManager {
    /// Marks dead every suspect not seen for more than `timeout_ms` at
    /// `now_ms`.
    pub fn check_suspects(&mut self, now_ms: u64, timeout_ms: u64)
        requires
            old(self).wf(),
            forall|k: Seq<char>|
                #[trigger] old(self).members@.contains_key(k) && old(self).members@[k].status == MemberStatus::Suspect
                    ==> old(self).members@[k].last_seen <= now_ms,
        ensures
            final(self).wf(),
            member_views(final(self).members@) == member_views(old(self).members@).map_values(
                |v: MemberView| expire(v, now_ms, timeout_ms),
            ),
            final(self).node_id == old(self).node_id,
            final(self).config == old(self).config,
    {
        let ghost m0 = member_views(self.members@);
        let ghost keys = self.members.key_seq();
        proof {
            self.members.lemma_view();
        }
        let mut i: usize = 0;
        while i < self.members.entry_count()
            invariant
                self.wf(),
                self.node_id == old(self).node_id,
                self.config == old(self).config,
                keys == self.members.key_seq(),
                keys.len() == self.members.entry_seq().len(),
                keys.no_duplicates(),
                m0.dom() == keys.to_set(),
                i <= keys.len(),
                member_views(self.members@).dom() == m0.dom(),
                forall|k: Seq<char>|
                    #[trigger] m0.contains_key(k) && m0[k].status == MemberStatus::Suspect ==> m0[k].last_seen <= now_ms,
                forall|j: int| 0 <= j < i ==> member_views(self.members@)[#[trigger] keys[j]] == expire(m0[keys[j]], now_ms, timeout_ms),
                forall|j: int| i <= j < keys.len() ==> member_views(self.members@)[#[trigger] keys[j]] == m0[keys[j]],
            decreases keys.len() - i,
        {
            proof {
                self.members.lemma_view();
            }
            let m = self.members.value_at(i);
            let ghost key = keys[i as int];
            assert(key == self.members.entry_seq()[i as int].0@);
            assert(self.members@.contains_key(key));
            assert(m0.contains_key(key));
            assert(m0[key] == m@);
            assert(m.node_id@ == key);
            if m.status == MemberStatus::Suspect && now_ms - m.last_seen > timeout_ms {
                let mut updated = m.clone();
                updated.status = MemberStatus::Dead;
                let ghost before = member_views(self.members@);
                let ghost raw = self.members@;
                let ghost uv = updated@;
                self.members.set_value_at(i, updated);
                assert(self.members@ == raw.insert(key, updated));
                assert(member_views(self.members@) =~= before.insert(key, uv));
                assert forall|j: int| 0 <= j < keys.len() && j != i implies keys[j] != key by {}
                assert forall|k: Seq<char>| #[trigger] self.members@.contains_key(k) implies self.members@[k].node_id@ == k by {
                    if k != key {
                        assert(raw.contains_key(k));
                    }
                }
            }
            i = i + 1;
        }
        proof {
            let target = m0.map_values(|v: MemberView| expire(v, now_ms, timeout_ms));
            assert forall|k: Seq<char>| #[trigger] member_views(self.members@).contains_key(k) implies member_views(
                self.members@,
            )[k] == target[k] by {
                assert(keys.to_set().contains(k));
                let j = choose|j: int| 0 <= j < keys.len() && keys[j] == k;
            }
            assert(member_views(self.members@) =~= target);
        }
    }

    /// Clears away dead and departed members, at most once per
    /// `interval_ms`, and returns their ids in the order they were recorded.
    pub fn cleanup_dead_members(&mut self, now_ms: u64, interval_ms: u64) -> (removed: Vec<String>)
        requires
            old(self).wf(),
            now_ms >= old(self).last_cleanup,
        ensures
            final(self).wf(),
            now_ms - old(self).last_cleanup < interval_ms ==> removed@.len() == 0 && final(self).members == old(
                self,
            ).members && final(self).last_cleanup == old(self).last_cleanup,
            now_ms - old(self).last_cleanup >= interval_ms ==> {
                &&& final(self).last_cleanup == now_ms
                &&& word_views(removed@).to_set() == old(self).members@.dom().filter(
                    |k: Seq<char>| is_gone(old(self).members@[k]@),
                )
                &&& final(self).members@ == old(self).members@.restrict(
                    old(self).members@.dom().filter(|k: Seq<char>| !is_gone(old(self).members@[k]@)),
                )
            },
            final(self).node_id == old(self).node_id,
    {
        let mut removed: Vec<String> = Vec::new();
        if now_ms - self.last_cleanup < interval_ms {
            return removed;
        }
        self.last_cleanup = now_ms;
        let ghost m0 = self.members@;
        let ghost keys = self.members.key_seq();
        proof {
            self.members.lemma_view();
            assert(word_views(removed@).to_set() =~= Set::<Seq<char>>::empty());
        }
        let mut i: usize = 0;
        while i < self.members.entry_count()
            invariant
                self.members@ == m0,
                self.members.wf(),
                keys == self.members.key_seq(),
                keys.len() == self.members.entry_seq().len(),
                m0.dom() == keys.to_set(),
                i <= keys.len(),
                word_views(removed@).to_set() == keys.take(i as int).to_set().filter(|k: Seq<char>| is_gone(m0[k]@)),
            decreases keys.len() - i,
        {
            proof {
                self.members.lemma_view();
                crate::seqs::lemma_take_insert(keys, i as int);
            }
            let m = self.members.value_at(i);
            assert(m0[keys[i as int]] == *m);
            if m.status == MemberStatus::Dead || m.status == MemberStatus::Left {
                let ghost before = word_views(removed@);
                removed.push(self.members.key_at(i).clone());
                assert(word_views(removed@) =~= before.push(keys[i as int]));
                proof { before.lemma_push_to_set_commute(keys[i as int]); }
            }
            assert(word_views(removed@).to_set() =~= keys.take(i + 1).to_set().filter(|k: Seq<char>| is_gone(m0[k]@)));
            i = i + 1;
        }
        assert(keys.take(keys.len() as int) =~= keys);
        let mut j: usize = 0;
        while j < removed.len()
            invariant
                self.wf(),
                self.node_id == old(self).node_id,
                self.last_cleanup == now_ms,
                j <= removed@.len(),
                word_views(removed@).to_set() == m0.dom().filter(|k: Seq<char>| is_gone(m0[k]@)),
                self.members@ == m0.restrict(m0.dom().filter(|k: Seq<char>| !word_views(removed@.take(j as int)).contains(k))),
            decreases removed@.len() - j,
        {
            let ghost before = self.members@;
            self.members.remove(&removed[j]);
            proof {
                let rj = removed@[j as int]@;
                assert(word_views(removed@.take(j + 1)) =~= word_views(removed@.take(j as int)).push(rj));
                assert forall|k: Seq<char>| word_views(removed@.take(j + 1)).contains(k) <==> (word_views(removed@.take(j as int)).contains(k) || k == rj) by {
                    let w = word_views(removed@.take(j as int));
                    if w.push(rj).contains(k) {
                        let a = choose|a: int| 0 <= a < w.push(rj).len() && w.push(rj)[a] == k;
                        if a < w.len() {
                            assert(w[a] == k);
                        }
                    }
                    if w.contains(k) {
                        let a = choose|a: int| 0 <= a < w.len() && w[a] == k;
                        assert(w.push(rj)[a] == k);
                    }
                    if k == rj {
                        assert(w.push(rj)[w.len() as int] == k);
                    }
                }
                assert(self.members@ =~= m0.restrict(m0.dom().filter(|k: Seq<char>| !word_views(removed@.take(j + 1)).contains(k))));
                assert forall|k: Seq<char>| #[trigger] self.members@.contains_key(k) implies self.members@[k].node_id@ == k by {
                    assert(before.contains_key(k));
                }
            }
            j = j + 1;
        }
        proof {
            assert(removed@.take(removed@.len() as int) =~= removed@);
            assert forall|k: Seq<char>| word_views(removed@).contains(k) <==> (m0.contains_key(k) && is_gone(m0[k]@)) by {
                if word_views(removed@).contains(k) {
                    assert(word_views(removed@).to_set().contains(k));
                }
                if m0.contains_key(k) && is_gone(m0[k]@) {
                    assert(m0.dom().filter(|k: Seq<char>| is_gone(m0[k]@)).contains(k));
                    assert(word_views(removed@).to_set().contains(k));
                }
            }
            assert(self.members@ =~= m0.restrict(m0.dom().filter(|k: Seq<char>| !is_gone(m0[k]@))));
        }
        removed
    }

    /// Takes in an accepted join answer from a seed: every listed node is
    /// recorded as alive at incarnation one, seen at `now_ms`. A refused
    /// answer changes nothing.
    pub fn join_accepted(&mut self, resp: &JoinResponse, now_ms: u64)
        requires
            old(self).wf(),
        ensures
            final(self).wf(),
            resp.accepted ==> member_views(final(self).members@) == add_all(
                member_views(old(self).members@),
                resp.cluster_nodes@,
                now_ms,
            ),
            !resp.accepted ==> final(self).members == old(self).members,
            final(self).node_id == old(self).node_id,
    {
        if !resp.accepted {
            return;
        }
        let ghost m0 = member_views(self.members@);
        let ghost nodes = resp.cluster_nodes@;
        let mut i: usize = 0;
        assert(nodes.take(0) =~= Seq::<ClusterNodeInfo>::empty());
        while i < resp.cluster_nodes.len()
            invariant
                self.wf(),
                self.node_id == old(self).node_id,
                nodes == resp.cluster_nodes@,
                i <= nodes.len(),
                member_views(self.members@) == add_all(m0, nodes.take(i as int), now_ms),
            decreases nodes.len() - i,
        {
            let n = &resp.cluster_nodes[i];
            assert(nodes.take(i + 1).drop_last() =~= nodes.take(i as int));
            assert(nodes.take(i + 1).last() == nodes[i as int]);
            let member = ClusterMember {
                node_id: n.node_id.clone(),
                address: n.address.clone(),
                port: n.port,
                status: MemberStatus::Alive,
                incarnation: 1,
                last_seen: now_ms,
                roles: copy_strings(&n.roles),
            };
            self.add_member(member);
            i = i + 1;
        }
        assert(nodes.take(nodes.len() as int) =~= nodes);
    }
}
/// The name of a status, as its `Debug` form prints it.
pub open spec fn status_name(s: MemberStatus) -> Seq<char> {
    match s {
        MemberStatus::Alive => "Alive"@,
        MemberStatus::Suspect => "Suspect"@,
        MemberStatus::Dead => "Dead"@,
        MemberStatus::Left => "Left"@,
    }
}

/// The name of a status.
pub fn status_text(s: MemberStatus) -> (r: String)
    ensures
        r@ == status_name(s),
{
    match s {
        MemberStatus::Alive => owned("Alive"),
        MemberStatus::Suspect => owned("Suspect"),
        MemberStatus::Dead => owned("Dead"),
        MemberStatus::Left => owned("Left"),
    }
}

/// Whether `info` is the summary of member `m` that nodes exchange.
pub open spec fn describes(info: ClusterNodeInfo, m: MemberView) -> bool {
    &&& info.node_id@ == m.node_id
    &&& info.address@ == m.address
    &&& info.port == m.port
    &&& word_views(info.roles@) == m.roles
    &&& info.status@ == status_name(m.status)
}

/// The summary of a member that nodes exchange.
pub fn node_info(m: &ClusterMember) -> (info: ClusterNodeInfo)
    ensures
        describes(info, m@),
{
    ClusterNodeInfo {
        node_id: m.node_id.clone(),
        address: m.address.clone(),
        port: m.port,
        roles: copy_strings(&m.roles),
        status: status_text(m.status),
    }
}

impl MembershipManager {
    /// Summaries of all members, in the order they were first recorded.
    pub fn node_infos(&self) -> (r: Vec<ClusterNodeInfo>)
        requires
            self.wf(),
        ensures
            r@.len() == self.members.entry_seq().len(),
            forall|i: int| 0 <= i < r@.len() ==> describes(#[trigger] r@[i], self.members.entry_seq()[i].1@),
    {
        let ghost es = self.members.entry_seq();
        let mut r: Vec<ClusterNodeInfo> = Vec::new();
        let mut i: usize = 0;
        while i < self.members.entry_count()
            invariant
                es == self.members.entry_seq(),
                i <= es.len(),
                r@.len() == i,
                forall|j: int| 0 <= j < i ==> describes(#[trigger] r@[j], es[j].1@),
            decreases es.len() - i,
        {
            let info = node_info(self.members.value_at(i));
            r.push(info);
            i = i + 1;
        }
        r
    }

    /// Summaries of the alive members other than this node, in the order
    /// they were first recorded: the peers Raft connects to.
    pub fn alive_peer_infos(&self) -> (r: Vec<ClusterNodeInfo>)
        requires
            self.wf(),
        ensures
            r@.map_values(|n: ClusterNodeInfo| n.node_id@) == alive_except(
                self.members.entry_seq(),
                self.node_id@,
                self.node_id@,
            ),
            forall|i: int|
                0 <= i < r@.len() ==> self.members@.contains_key(#[trigger] r@[i].node_id@) && describes(
                    r@[i],
                    self.members@[r@[i].node_id@]@,
                ),
    {
        let ghost es = self.members.entry_seq();
        let mut r: Vec<ClusterNodeInfo> = Vec::new();
        let mut i: usize = 0;
        assert(es.take(0) =~= Seq::<(String, ClusterMember)>::empty());
        assert(r@.map_values(|n: ClusterNodeInfo| n.node_id@) =~= Seq::<Seq<char>>::empty());
        while i < self.members.entry_count()
            invariant
                self.wf(),
                es == self.members.entry_seq(),
                i <= es.len(),
                r@.map_values(|n: ClusterNodeInfo| n.node_id@) == alive_except(
                    es.take(i as int),
                    self.node_id@,
                    self.node_id@,
                ),
                forall|j: int|
                    0 <= j < r@.len() ==> self.members@.contains_key(#[trigger] r@[j].node_id@) && describes(
                        r@[j],
                        self.members@[r@[j].node_id@]@,
                    ),
            decreases es.len() - i,
        {
            let m = self.members.value_at(i);
            assert(es.take(i + 1).drop_last() =~= es.take(i as int));
            assert(es.take(i + 1).last() == es[i as int]);
            if m.status == MemberStatus::Alive && !crate::text::str_eq(m.node_id.as_str(), self.node_id.as_str()) {
                let ghost before = r@;
                let info = node_info(m);
                proof {
                    self.members.lemma_view();
                    assert(self.members@.contains_key(es[i as int].0@));
                    assert(m.node_id@ == es[i as int].0@);
                }
                r.push(info);
                assert(forall|j: int|
                    0 <= j < r@.len() ==> self.members@.contains_key(#[trigger] r@[j].node_id@) && describes(
                        r@[j],
                        self.members@[r@[j].node_id@]@,
                    )) by {
                    assert forall|j: int| 0 <= j < r@.len() implies self.members@.contains_key(#[trigger] r@[j].node_id@) && describes(
                        r@[j],
                        self.members@[r@[j].node_id@]@,
                    ) by {
                        if j < before.len() {
                            assert(r@[j] == before[j]);
                        } else {
                            assert(r@[j] == info);
                        }
                    }
                }
                assert(r@.map_values(|n: ClusterNodeInfo| n.node_id@) =~= before.map_values(
                    |n: ClusterNodeInfo| n.node_id@,
                ).push(m.node_id@));
            }
            i = i + 1;
        }
        assert(es.take(es.len() as int) =~= es);
        r
    }
}
} // verus!
