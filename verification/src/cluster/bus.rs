//! Node health tracking for the cluster bus.
use vstd::prelude::*;
use std::collections::HashMap;
use std::time::Duration;
use crate::cluster::config::{duration_as_millis, duration_from_secs, spec_duration_as_millis, spec_duration_from_secs};
use crate::error::AikvError;

verus! {

broadcast use vstd::std_specs::hash::group_hash_axioms;

/// Node identifier.
pub type NodeId = u64;

/// Settings of the cluster bus.
#[derive(Debug, Clone)]
pub struct ClusterBusConfig {
    /// Interval between health checks.
    pub health_check_interval: Duration,
    /// Timeout of a health check request.
    pub health_check_timeout: Duration,
    /// Consecutive failures before a node is marked offline.
    pub failure_threshold: u32,
    /// Consecutive successes before a node is marked online.
    pub success_threshold: u32,
    /// Time without heartbeat after which a node counts as failed.
    pub election_timeout: Duration,
}

impl Default for ClusterBusConfig {
    fn default() -> (r: Self)
        ensures
            r.health_check_interval == spec_duration_from_secs(10),
            r.health_check_timeout == spec_duration_from_secs(5),
            r.failure_threshold == 3,
            r.success_threshold == 2,
            r.election_timeout == spec_duration_from_secs(5),
    {
        ClusterBusConfig {
            health_check_interval: duration_from_secs(10),
            health_check_timeout: duration_from_secs(5),
            failure_threshold: 3,
            success_threshold: 2,
            election_timeout: duration_from_secs(5),
        }
    }
}

/// Health of a node as the bus tracks it.
#[derive(Debug, Clone, Copy, PartialEq, Eq, Structural)]
pub enum NodeHealthStatus {
    /// Responding to heartbeats.
    Online,
    /// Not responding.
    Offline,
    /// Not known yet, or changing.
    Unknown,
}

impl Default for NodeHealthStatus {
    fn default() -> (r: Self)
        ensures
            r == NodeHealthStatus::Unknown,
    {
        NodeHealthStatus::Unknown
    }
}

/// What the bus knows of one node's health.
#[derive(Debug, Clone, Copy, PartialEq, Eq, Structural)]
pub struct NodeHealthInfo {
    /// Node id.
    pub node_id: NodeId,
    /// Current status.
    pub status: NodeHealthStatus,
    /// Consecutive failures.
    pub failure_count: u32,
    /// Consecutive successes.
    pub success_count: u32,
    /// Last heartbeat, in milliseconds since the epoch.
    pub last_heartbeat: Option<u64>,
    /// Whether the node currently leads.
    pub is_leader: bool,
}

impl NodeHealthInfo {
    /// A node of unknown health with no history.
    pub fn new(node_id: NodeId) -> (r: Self)
        ensures
            r == Self::initial(node_id),
    {
        NodeHealthInfo {
            node_id,
            status: NodeHealthStatus::Unknown,
            failure_count: 0,
            success_count: 0,
            last_heartbeat: None,
            is_leader: false,
        }
    }

    /// The state a node starts in.
    pub open spec fn initial(node_id: NodeId) -> Self {
        NodeHealthInfo {
            node_id,
            status: NodeHealthStatus::Unknown,
            failure_count: 0,
            success_count: 0,
            last_heartbeat: None,
            is_leader: false,
        }
    }

    /// Whether the node is online.
    pub fn is_online(&self) -> (r: bool)
        ensures
            r == (self.status == NodeHealthStatus::Online),
    {
        match self.status {
            NodeHealthStatus::Online => true,
            _ => false,
        }
    }

    /// Whether the node is offline.
    pub fn is_offline(&self) -> (r: bool)
        ensures
            r == (self.status == NodeHealthStatus::Offline),
    {
        match self.status {
            NodeHealthStatus::Offline => true,
            _ => false,
        }
    }
}

/// How the health of another node changes when the metadata reports it with
/// `observed` status: an online report resets failures and counts a success,
/// and after `success_threshold` successes marks it online at `now`; an
/// offline report resets successes and counts a failure, and after
/// `failure_threshold` failures marks it offline; an unknown report changes
/// no counter. Leadership is taken from `is_current_leader`.
pub open spec fn observe_spec(
    h: NodeHealthInfo,
    observed: NodeHealthStatus,
    is_current_leader: bool,
    now: u64,
    success_threshold: u32,
    failure_threshold: u32,
) -> NodeHealthInfo {
    let h2 = match observed {
        NodeHealthStatus::Online => {
            let s = sat_inc(h.success_count);
            if s >= success_threshold {
                NodeHealthInfo {
                    failure_count: 0,
                    success_count: s,
                    status: NodeHealthStatus::Online,
                    last_heartbeat: Some(now),
                    ..h
                }
            } else {
                NodeHealthInfo { failure_count: 0, success_count: s, ..h }
            }
        },
        NodeHealthStatus::Offline => {
            let f = sat_inc(h.failure_count);
            if f >= failure_threshold {
                NodeHealthInfo {
                    success_count: 0,
                    failure_count: f,
                    status: NodeHealthStatus::Offline,
                    ..h
                }
            } else {
                NodeHealthInfo { success_count: 0, failure_count: f, ..h }
            }
        },
        NodeHealthStatus::Unknown => h,
    };
    NodeHealthInfo { is_leader: is_current_leader, ..h2 }
}

/// A counter incremented without overflow.
pub open spec fn sat_inc(c: u32) -> u32 {
    if c == u32::MAX {
        c
    } else {
        (c + 1) as u32
    }
}

/// How a node whose last heartbeat is older than `threshold` while it is
/// online counts one more failure, and goes offline at `failure_threshold`.
pub open spec fn timeout_spec(h: NodeHealthInfo, threshold: u64, failure_threshold: u32) -> NodeHealthInfo {
    match h.last_heartbeat {
        Some(hb) => if hb < threshold && h.status == NodeHealthStatus::Online {
            let f = sat_inc(h.failure_count);
            if f >= failure_threshold {
                NodeHealthInfo { failure_count: f, status: NodeHealthStatus::Offline, ..h }
            } else {
                NodeHealthInfo { failure_count: f, ..h }
            }
        } else {
            h
        },
        None => h,
    }
}

/// The state of this node itself after a health round: online, heard now,
/// one more success and no failures.
pub open spec fn self_round_spec(h: NodeHealthInfo, is_leader: bool, now: u64) -> NodeHealthInfo {
    NodeHealthInfo {
        is_leader,
        last_heartbeat: Some(now),
        status: NodeHealthStatus::Online,
        success_count: sat_inc(h.success_count),
        failure_count: 0,
        ..h
    }
}

/// Applies one metadata report about another node (see `observe_spec`).
pub fn observe_node(
    h: &mut NodeHealthInfo,
    observed: NodeHealthStatus,
    is_current_leader: bool,
    now: u64,
    config: &ClusterBusConfig,
)
    ensures
        *final(h) == observe_spec(
            *old(h),
            observed,
            is_current_leader,
            now,
            config.success_threshold,
            config.failure_threshold,
        ),
{
    match observed {
        NodeHealthStatus::Online => {
            h.failure_count = 0;
            h.success_count = h.success_count.saturating_add(1);
            if h.success_count >= config.success_threshold {
                h.status = NodeHealthStatus::Online;
                h.last_heartbeat = Some(now);
            }
        },
        NodeHealthStatus::Offline => {
            h.success_count = 0;
            h.failure_count = h.failure_count.saturating_add(1);
            if h.failure_count >= config.failure_threshold {
                h.status = NodeHealthStatus::Offline;
            }
        },
        NodeHealthStatus::Unknown => {},
    }
    h.is_leader = is_current_leader;
}

/// Applies the heartbeat-timeout rule (see `timeout_spec`).
pub fn apply_timeout(h: &mut NodeHealthInfo, threshold: u64, failure_threshold: u32)
    ensures
        *final(h) == timeout_spec(*old(h), threshold, failure_threshold),
{
    match h.last_heartbeat {
        Some(hb) => {
            if hb < threshold && h.is_online() {
                h.failure_count = h.failure_count.saturating_add(1);
                if h.failure_count >= failure_threshold {
                    h.status = NodeHealthStatus::Offline;
                }
            }
        },
        None => {},
    }
}

/// The record a map holds for `id`, or a fresh one.
pub open spec fn get_or_initial(m: Map<NodeId, NodeHealthInfo>, id: NodeId) -> NodeHealthInfo {
    if m.contains_key(id) {
        m[id]
    } else {
        NodeHealthInfo::initial(id)
    }
}

/// Applies metadata reports in order, skipping reports about `self_id`.
pub open spec fn apply_reports(
    m: Map<NodeId, NodeHealthInfo>,
    self_id: NodeId,
    reports: Seq<(NodeId, NodeHealthStatus)>,
    leader: Option<NodeId>,
    now: u64,
    success_threshold: u32,
    failure_threshold: u32,
) -> Map<NodeId, NodeHealthInfo>
    decreases reports.len(),
{
    if reports.len() == 0 {
        m
    } else {
        let m1 = apply_reports(
            m,
            self_id,
            reports.drop_last(),
            leader,
            now,
            success_threshold,
            failure_threshold,
        );
        let (id, st) = reports.last();
        if id == self_id {
            m1
        } else {
            m1.insert(
                id,
                observe_spec(
                    get_or_initial(m1, id),
                    st,
                    leader == Some(id),
                    now,
                    success_threshold,
                    failure_threshold,
                ),
            )
        }
    }
}

/// Applies the heartbeat-timeout rule to every record.
pub open spec fn sweep_spec(m: Map<NodeId, NodeHealthInfo>, threshold: u64, failure_threshold: u32) -> Map<
    NodeId,
    NodeHealthInfo,
> {
    Map::new(|id: NodeId| m.contains_key(id), |id: NodeId| timeout_spec(m[id], threshold, failure_threshold))
}

/// One health round: this node marks itself online, every report about
/// another node is applied, then nodes silent since before
/// `now - election timeout` count a failure.
pub open spec fn round_spec(
    m: Map<NodeId, NodeHealthInfo>,
    self_id: NodeId,
    reports: Seq<(NodeId, NodeHealthStatus)>,
    leader: Option<NodeId>,
    is_self_leader: bool,
    now: u64,
    config: ClusterBusConfig,
) -> Map<NodeId, NodeHealthInfo> {
    let m1 = m.insert(self_id, self_round_spec(get_or_initial(m, self_id), is_self_leader, now));
    let m2 = apply_reports(
        m1,
        self_id,
        reports,
        leader,
        now,
        config.success_threshold,
        config.failure_threshold,
    );
    let timeout = spec_duration_as_millis(config.election_timeout) as u64;
    let threshold = if now >= timeout {
        (now - timeout) as u64
    } else {
        0u64
    };
    sweep_spec(m2, threshold, config.failure_threshold)
}

// ---------------------------------------------------------------------------
// The bus
// ---------------------------------------------------------------------------

/// The map that a sequence of entries with distinct ids stands for.
pub open spec fn map_of(s: Seq<NodeHealthInfo>) -> Map<NodeId, NodeHealthInfo>
    decreases s.len(),
{
    if s.len() == 0 {
        Map::empty()
    } else {
        map_of(s.drop_last()).insert(s.last().node_id, s.last())
    }
}

/// No two entries share an id.
pub open spec fn unique_ids(s: Seq<NodeHealthInfo>) -> bool {
    forall|i: int, j: int| 0 <= i < j < s.len() ==> s[i].node_id != s[j].node_id
}

/// Number of online entries.
pub open spec fn count_online(s: Seq<NodeHealthInfo>) -> nat
    decreases s.len(),
{
    if s.len() == 0 {
        0
    } else {
        count_online(s.drop_last()) + if s.last().status == NodeHealthStatus::Online {
            1nat
        } else {
            0nat
        }
    }
}

/// Ids of the online nodes of a map.
pub open spec fn online_ids(m: Map<NodeId, NodeHealthInfo>) -> Set<NodeId> {
    m.dom().filter(|id: NodeId| m[id].status == NodeHealthStatus::Online)
}

proof fn lemma_map_of(s: Seq<NodeHealthInfo>)
    requires
        unique_ids(s),
    ensures
        map_of(s).dom().finite(),
        map_of(s).dom().len() == s.len(),
        forall|i: int| 0 <= i < s.len() ==> #[trigger] map_of(s).contains_key(s[i].node_id) && map_of(s)[s[i].node_id] == s[i],
        forall|id: NodeId| #[trigger] map_of(s).contains_key(id) ==> exists|i: int| 0 <= i < s.len() && s[i].node_id == id,
        online_ids(map_of(s)).len() == count_online(s),
        online_ids(map_of(s)).finite(),
    decreases s.len(),
{
    if s.len() == 0 {
        assert(online_ids(map_of(s)) =~= Set::<NodeId>::empty());
        assert(map_of(s).dom() =~= Set::<NodeId>::empty());
    } else {
        let p = s.drop_last();
        let x = s.last();
        assert(unique_ids(p));
        lemma_map_of(p);
        let mp = map_of(p);
        if mp.contains_key(x.node_id) {
            let i = choose|i: int| 0 <= i < p.len() && p[i].node_id == x.node_id;
            assert(s[i].node_id == s[s.len() - 1].node_id);
        }
        let m = map_of(s);
        assert(m.dom() =~= mp.dom().insert(x.node_id));
        assert forall|i: int| 0 <= i < s.len() implies #[trigger] m.contains_key(s[i].node_id) && m[s[i].node_id] == s[i] by {
            if i < s.len() - 1 {
                assert(p[i] == s[i]);
                assert(s[i].node_id != x.node_id);
            }
        }
        assert forall|id: NodeId| #[trigger] m.contains_key(id) implies exists|i: int| 0 <= i < s.len() && s[i].node_id == id by {
            if id == x.node_id {
                assert(s[s.len() - 1].node_id == id);
            } else {
                let i = choose|i: int| 0 <= i < p.len() && p[i].node_id == id;
                assert(s[i] == p[i]);
            }
        }
        let op = online_ids(mp);
        let os = online_ids(m);
        assert(!mp.contains_key(x.node_id));
        assert(!op.contains(x.node_id));
        if x.status == NodeHealthStatus::Online {
            assert(os =~= op.insert(x.node_id));
        } else {
            assert(os =~= op);
        }
    }
}

proof fn lemma_map_of_update(s: Seq<NodeHealthInfo>, i: int, x: NodeHealthInfo)
    requires
        unique_ids(s),
        0 <= i < s.len(),
        x.node_id == s[i].node_id,
    ensures
        unique_ids(s.update(i, x)),
        map_of(s.update(i, x)) =~= map_of(s).insert(x.node_id, x),
{
    let t = s.update(i, x);
    assert(unique_ids(t));
    lemma_map_of(s);
    lemma_map_of(t);
    let a = map_of(t);
    let b = map_of(s).insert(x.node_id, x);
    assert forall|id: NodeId| a.contains_key(id) <==> b.contains_key(id) by {
        if a.contains_key(id) {
            let k = choose|k: int| 0 <= k < t.len() && t[k].node_id == id;
            if k != i {
                assert(s[k] == t[k]);
            }
        }
        if id == x.node_id {
            assert(t[i].node_id == id);
        }
        if b.contains_key(id) && id != x.node_id {
            let k = choose|k: int| 0 <= k < s.len() && s[k].node_id == id;
            assert(t[k] == s[k]);
        }
    }
    assert forall|id: NodeId| a.contains_key(id) implies a[id] == b[id] by {
        let k = choose|k: int| 0 <= k < t.len() && t[k].node_id == id;
        if k != i {
            assert(s[k] == t[k]);
        }
    }
}

proof fn lemma_map_of_remove(s: Seq<NodeHealthInfo>, i: int)
    requires
        unique_ids(s),
        0 <= i < s.len(),
    ensures
        unique_ids(s.remove(i)),
        map_of(s.remove(i)) =~= map_of(s).remove(s[i].node_id),
{
    let t = s.remove(i);
    assert forall|a: int, b: int| 0 <= a < b < t.len() implies t[a].node_id != t[b].node_id by {
        let a2 = if a < i { a } else { a + 1 };
        let b2 = if b < i { b } else { b + 1 };
        assert(t[a] == s[a2]);
        assert(t[b] == s[b2]);
    }
    lemma_map_of(s);
    lemma_map_of(t);
    let ma = map_of(t);
    let mb = map_of(s).remove(s[i].node_id);
    assert forall|id: NodeId| ma.contains_key(id) <==> mb.contains_key(id) by {
        if ma.contains_key(id) {
            let k = choose|k: int| 0 <= k < t.len() && t[k].node_id == id;
            let k2 = if k < i { k } else { k + 1 };
            assert(t[k] == s[k2]);
        }
        if mb.contains_key(id) {
            let k = choose|k: int| 0 <= k < s.len() && s[k].node_id == id;
            assert(k != i);
            let k2 = if k < i { k } else { k - 1 };
            assert(t[k2] == s[k]);
        }
    }
    assert forall|id: NodeId| ma.contains_key(id) implies ma[id] == mb[id] by {
        let k = choose|k: int| 0 <= k < t.len() && t[k].node_id == id;
        let k2 = if k < i { k } else { k + 1 };
        assert(t[k] == s[k2]);
    }
}

proof fn lemma_map_of_sweep(s: Seq<NodeHealthInfo>, t: Seq<NodeHealthInfo>, threshold: u64, ft: u32)
    requires
        unique_ids(s),
        t.len() == s.len(),
        forall|i: int| 0 <= i < s.len() ==> #[trigger] t[i] == timeout_spec(s[i], threshold, ft),
    ensures
        unique_ids(t),
        map_of(t) =~= sweep_spec(map_of(s), threshold, ft),
{
    assert(unique_ids(t)) by {
        assert forall|i: int, j: int| 0 <= i < j < t.len() implies t[i].node_id != t[j].node_id by {
            assert(t[i] == timeout_spec(s[i], threshold, ft));
            assert(t[j] == timeout_spec(s[j], threshold, ft));
        }
    }
    lemma_map_of(s);
    lemma_map_of(t);
    let a = map_of(t);
    let b = sweep_spec(map_of(s), threshold, ft);
    assert forall|id: NodeId| a.contains_key(id) <==> b.contains_key(id) by {
        if a.contains_key(id) {
            let k = choose|k: int| 0 <= k < t.len() && t[k].node_id == id;
            assert(t[k] == timeout_spec(s[k], threshold, ft));
            assert(map_of(s).contains_key(s[k].node_id));
        }
        if b.contains_key(id) {
            let k = choose|k: int| 0 <= k < s.len() && s[k].node_id == id;
            assert(t[k] == timeout_spec(s[k], threshold, ft));
        }
    }
    assert forall|id: NodeId| a.contains_key(id) implies a[id] == b[id] by {
        let k = choose|k: int| 0 <= k < t.len() && t[k].node_id == id;
        assert(t[k] == timeout_spec(s[k], threshold, ft));
        assert(map_of(s).contains_key(s[k].node_id));
    }
}

/// Tracks the health of the nodes of the cluster.
pub struct ClusterBus {
    node_id: NodeId,
    config: ClusterBusConfig,
    node_health: Vec<NodeHealthInfo>,
}

impl View for ClusterBus {
    type V = Map<NodeId, NodeHealthInfo>;

    closed spec fn view(&self) -> Map<NodeId, NodeHealthInfo> {
        map_of(self.node_health@)
    }
}

impl ClusterBus {
    /// The bus's records are well formed: one per node id.
    pub closed spec fn wf(&self) -> bool {
        unique_ids(self.node_health@)
    }

    /// This node's id.
    pub closed spec fn spec_node_id(&self) -> NodeId {
        self.node_id
    }

    /// The bus's configuration.
    pub closed spec fn spec_config(&self) -> ClusterBusConfig {
        self.config
    }

    /// A bus that knows no node yet.
    pub fn new(node_id: NodeId, config: ClusterBusConfig) -> (r: Self)
        ensures
            r.wf(),
            r@ == Map::<NodeId, NodeHealthInfo>::empty(),
            r.spec_node_id() == node_id,
            r.spec_config() == config,
    {
        let r = ClusterBus { node_id, config, node_health: Vec::new() };
        proof {
            assert(r@ =~= Map::<NodeId, NodeHealthInfo>::empty());
        }
        r
    }

    /// A bus with the default configuration.
    pub fn with_defaults(node_id: NodeId) -> (r: Self)
        ensures
            r.wf(),
            r@ == Map::<NodeId, NodeHealthInfo>::empty(),
            r.spec_node_id() == node_id,
            r.spec_config().failure_threshold == 3,
            r.spec_config().success_threshold == 2,
    {
        ClusterBus::new(node_id, ClusterBusConfig::default())
    }

    /// This node's id.
    pub fn node_id(&self) -> (r: NodeId)
        ensures
            r == self.spec_node_id(),
    {
        self.node_id
    }

    /// The configuration.
    pub fn config(&self) -> (r: &ClusterBusConfig)
        ensures
            *r == self.spec_config(),
    {
        &self.config
    }

    /// Starts background health checks: there is no metadata service to
    /// follow without cluster support, so this fails.
    pub fn start(&self) -> (r: Result<(), AikvError>)
        ensures
            r is Err,
    {
        Err(AikvError::Storage(crate::text::string_of("Cluster feature not enabled. Build with --features cluster")))
    }

    /// Stops background health checks (none run).
    pub fn stop(&self) {
    }

    /// Whether background health checks run: never.
    pub fn is_running(&self) -> (r: bool)
        ensures
            !r,
    {
        false
    }

    /// The current metadata leader: none is known.
    pub fn get_leader(&self) -> (r: Option<NodeId>)
        ensures
            r is None,
    {
        None
    }

    /// Whether this node leads the metadata group: it cannot.
    pub fn is_leader(&self) -> (r: bool)
        ensures
            !r,
    {
        false
    }

    fn find(&self, node_id: NodeId) -> (r: Option<usize>)
        requires
            self.wf(),
        ensures
            match r {
                Some(i) => i < self.node_health@.len() && self.node_health@[i as int].node_id == node_id,
                None => !self@.contains_key(node_id),
            },
    {
        let mut i: usize = 0;
        while i < self.node_health.len()
            invariant
                i <= self.node_health@.len(),
                forall|k: int| 0 <= k < i ==> self.node_health@[k].node_id != node_id,
            decreases self.node_health@.len() - i,
        {
            if self.node_health[i].node_id == node_id {
                return Some(i);
            }
            i = i + 1;
        }
        proof {
            lemma_map_of(self.node_health@);
        }
        None
    }

    /// The health of a node, if the bus knows it.
    pub fn get_node_health(&self, node_id: NodeId) -> (r: Option<NodeHealthInfo>)
        requires
            self.wf(),
        ensures
            r == (if self@.contains_key(node_id) {
                Some(self@[node_id])
            } else {
                None
            }),
    {
        match self.find(node_id) {
            Some(i) => {
                proof {
                    lemma_map_of(self.node_health@);
                }
                Some(self.node_health[i])
            },
            None => None,
        }
    }

    /// All known nodes and their health.
    pub fn get_all_node_health(&self) -> (r: HashMap<NodeId, NodeHealthInfo>)
        ensures
            r@ == self@,
    {
        let mut m: HashMap<NodeId, NodeHealthInfo> = HashMap::new();
        let mut i: usize = 0;
        proof {
            assert(self.node_health@.subrange(0, 0) =~= Seq::<NodeHealthInfo>::empty());
            assert(m@ =~= map_of(Seq::<NodeHealthInfo>::empty()));
        }
        while i < self.node_health.len()
            invariant
                i <= self.node_health@.len(),
                m@ == map_of(self.node_health@.subrange(0, i as int)),
            decreases self.node_health@.len() - i,
        {
            let x = self.node_health[i];
            m.insert(x.node_id, x);
            proof {
                assert(self.node_health@.subrange(0, i + 1).drop_last() =~= self.node_health@.subrange(0, i as int));
            }
            i = i + 1;
        }
        proof {
            assert(self.node_health@.subrange(0, self.node_health@.len() as int) =~= self.node_health@);
        }
        m
    }

    /// Whether a known node is online (unknown nodes are not).
    pub fn is_node_online(&self, node_id: NodeId) -> (r: bool)
        requires
            self.wf(),
        ensures
            r == (self@.contains_key(node_id) && self@[node_id].status == NodeHealthStatus::Online),
    {
        match self.get_node_health(node_id) {
            Some(h) => h.is_online(),
            None => false,
        }
    }

    /// Whether a node is offline; unknown nodes count as offline.
    pub fn is_node_offline(&self, node_id: NodeId) -> (r: bool)
        requires
            self.wf(),
        ensures
            r == (!self@.contains_key(node_id) || self@[node_id].status == NodeHealthStatus::Offline),
    {
        match self.get_node_health(node_id) {
            Some(h) => h.is_offline(),
            None => true,
        }
    }

    /// Starts tracking a node; a node already tracked keeps its record.
    pub fn register_node(&mut self, node_id: NodeId)
        requires
            old(self).wf(),
        ensures
            final(self).wf(),
            final(self)@ == (if old(self)@.contains_key(node_id) {
                old(self)@
            } else {
                old(self)@.insert(node_id, NodeHealthInfo::initial(node_id))
            }),
            final(self).spec_node_id() == old(self).spec_node_id(),
            final(self).spec_config() == old(self).spec_config(),
    {
        proof {
            lemma_map_of(self.node_health@);
        }
        match self.find(node_id) {
            Some(_) => {},
            None => {
                self.node_health.push(NodeHealthInfo::new(node_id));
                proof {
                    assert(self.node_health@.drop_last() =~= old(self).node_health@);
                    assert forall|i: int, j: int| 0 <= i < j < self.node_health@.len() implies self.node_health@[i].node_id != self.node_health@[j].node_id by {
                        if j == self.node_health@.len() - 1 {
                            assert(old(self).node_health@[i] == self.node_health@[i]);
                        }
                    }
                }
            },
        }
    }

    /// Stops tracking a node.
    pub fn unregister_node(&mut self, node_id: NodeId)
        requires
            old(self).wf(),
        ensures
            final(self).wf(),
            final(self)@ == old(self)@.remove(node_id),
            final(self).spec_node_id() == old(self).spec_node_id(),
            final(self).spec_config() == old(self).spec_config(),
    {
        match self.find(node_id) {
            Some(i) => {
                proof {
                    lemma_map_of_remove(self.node_health@, i as int);
                }
                self.node_health.remove(i);
            },
            None => {
                proof {
                    assert(self@ =~= self@.remove(node_id));
                }
            },
        }
    }

    /// Number of online nodes.
    pub fn online_node_count(&self) -> (r: usize)
        requires
            self.wf(),
        ensures
            r == online_ids(self@).len(),
    {
        let mut c: usize = 0;
        let mut i: usize = 0;
        while i < self.node_health.len()
            invariant
                i <= self.node_health@.len(),
                c == count_online(self.node_health@.subrange(0, i as int)),
                c <= i,
            decreases self.node_health@.len() - i,
        {
            proof {
                assert(self.node_health@.subrange(0, i + 1).drop_last() =~= self.node_health@.subrange(0, i as int));
            }
            if self.node_health[i].is_online() {
                c = c + 1;
            }
            i = i + 1;
        }
        proof {
            assert(self.node_health@.subrange(0, self.node_health@.len() as int) =~= self.node_health@);
            lemma_map_of(self.node_health@);
        }
        c
    }

    /// Index of a node's record, creating a fresh record when needed.
    fn index_or_insert(&mut self, node_id: NodeId) -> (i: usize)
        requires
            old(self).wf(),
        ensures
            final(self).wf(),
            i < final(self).node_health@.len(),
            final(self).node_health@[i as int].node_id == node_id,
            final(self)@ == old(self)@.insert(node_id, get_or_initial(old(self)@, node_id)),
            final(self)@[node_id] == final(self).node_health@[i as int],
            final(self).node_id == old(self).node_id,
            final(self).config == old(self).config,
    {
        proof {
            lemma_map_of(self.node_health@);
        }
        match self.find(node_id) {
            Some(i) => {
                proof {
                    assert(self@ =~= self@.insert(node_id, get_or_initial(self@, node_id)));
                }
                i
            },
            None => {
                self.node_health.push(NodeHealthInfo::new(node_id));
                proof {
                    assert(self.node_health@.drop_last() =~= old(self).node_health@);
                    assert forall|a: int, b: int| 0 <= a < b < self.node_health@.len() implies self.node_health@[a].node_id != self.node_health@[b].node_id by {
                        if b == self.node_health@.len() - 1 {
                            assert(old(self).node_health@[a] == self.node_health@[a]);
                        }
                    }
                }
                self.node_health.len() - 1
            },
        }
    }

    /// Runs one health round from the metadata service's reports: this node
    /// is marked online at `now_ms`, each `(node, status)` report about
    /// another node is applied in order (`leader` decides who leads), and
    /// online nodes silent since before `now_ms` minus the election timeout
    /// count a failure.
    pub fn record_health_round(
        &mut self,
        reports: &[(NodeId, NodeHealthStatus)],
        leader: Option<NodeId>,
        is_self_leader: bool,
        now_ms: u64,
    )
        requires
            old(self).wf(),
        ensures
            final(self).wf(),
            final(self)@ == round_spec(
                old(self)@,
                old(self).spec_node_id(),
                reports@,
                leader,
                is_self_leader,
                now_ms,
                old(self).spec_config(),
            ),
            final(self).spec_node_id() == old(self).spec_node_id(),
            final(self).spec_config() == old(self).spec_config(),
    {
        let self_id = self.node_id;
        let ghost m0 = self@;
        let i = self.index_or_insert(self_id);
        let mut h = self.node_health[i];
        h.is_leader = is_self_leader;
        h.last_heartbeat = Some(now_ms);
        h.status = NodeHealthStatus::Online;
        h.success_count = h.success_count.saturating_add(1);
        h.failure_count = 0;
        proof {
            lemma_map_of_update(self.node_health@, i as int, h);
        }
        self.node_health.set(i, h);
        let ghost m1 = self@;
        proof {
            assert(m1 =~= m0.insert(self_id, self_round_spec(get_or_initial(m0, self_id), is_self_leader, now_ms)));
            assert(reports@.subrange(0, 0) =~= Seq::<(NodeId, NodeHealthStatus)>::empty());
        }
        let mut k: usize = 0;
        while k < reports.len()
            invariant
                self.wf(),
                k <= reports@.len(),
                self.node_id == self_id,
                self.config == old(self).config,
                self@ == apply_reports(
                    m1,
                    self_id,
                    reports@.subrange(0, k as int),
                    leader,
                    now_ms,
                    self.config.success_threshold,
                    self.config.failure_threshold,
                ),
            decreases reports@.len() - k,
        {
            let (id, st) = reports[k];
            proof {
                assert(reports@.subrange(0, k + 1).drop_last() =~= reports@.subrange(0, k as int));
                assert(reports@.subrange(0, k + 1).last() == reports@[k as int]);
            }
            if id != self_id {
                let ghost before = self@;
                let j = self.index_or_insert(id);
                let mut g = self.node_health[j];
                let is_l = match leader {
                    Some(l) => l == id,
                    None => false,
                };
                observe_node(&mut g, st, is_l, now_ms, &self.config);
                proof {
                    lemma_map_of_update(self.node_health@, j as int, g);
                }
                self.node_health.set(j, g);
                proof {
                    assert(self@ =~= before.insert(
                        id,
                        observe_spec(
                            get_or_initial(before, id),
                            st,
                            leader == Some(id),
                            now_ms,
                            self.config.success_threshold,
                            self.config.failure_threshold,
                        ),
                    ));
                }
            }
            k = k + 1;
        }
        proof {
            assert(reports@.subrange(0, reports@.len() as int) =~= reports@);
        }
        let timeout = duration_as_millis(&self.config.election_timeout) as u64;
        let threshold = now_ms.saturating_sub(timeout);
        let ft = self.config.failure_threshold;
        let ghost s0 = self.node_health@;
        let mut n: usize = 0;
        while n < self.node_health.len()
            invariant
                n <= self.node_health@.len(),
                self.node_health@.len() == s0.len(),
                unique_ids(s0),
                forall|q: int| 0 <= q < n ==> #[trigger] self.node_health@[q] == timeout_spec(s0[q], threshold, ft),
                forall|q: int| n <= q < s0.len() ==> #[trigger] self.node_health@[q] == s0[q],
                self.node_id == self_id,
                self.config == old(self).config,
            decreases s0.len() - n,
        {
            let mut g = self.node_health[n];
            apply_timeout(&mut g, threshold, ft);
            self.node_health.set(n, g);
            n = n + 1;
        }
        proof {
            lemma_map_of_sweep(s0, self.node_health@, threshold, ft);
        }
    }

    /// Number of tracked nodes.
    pub fn total_node_count(&self) -> (r: usize)
        requires
            self.wf(),
        ensures
            r == self@.len(),
    {
        proof {
            lemma_map_of(self.node_health@);
        }
        self.node_health.len()
    }

    /// Sets a node's status, tracking it first if needed.
    pub fn update_node_status(&mut self, node_id: NodeId, status: NodeHealthStatus)
        requires
            old(self).wf(),
        ensures
            final(self).wf(),
            final(self)@ == old(self)@.insert(
                node_id,
                if old(self)@.contains_key(node_id) {
                    NodeHealthInfo { status, ..old(self)@[node_id] }
                } else {
                    NodeHealthInfo { status, ..NodeHealthInfo::initial(node_id) }
                },
            ),
            final(self).spec_node_id() == old(self).spec_node_id(),
            final(self).spec_config() == old(self).spec_config(),
    {
        proof {
            lemma_map_of(self.node_health@);
        }
        match self.find(node_id) {
            Some(i) => {
                let mut h = self.node_health[i];
                h.status = status;
                proof {
                    lemma_map_of_update(self.node_health@, i as int, h);
                }
                self.node_health.set(i, h);
            },
            None => {
                let mut h = NodeHealthInfo::new(node_id);
                h.status = status;
                self.node_health.push(h);
                proof {
                    assert(self.node_health@.drop_last() =~= old(self).node_health@);
                    assert forall|i: int, j: int| 0 <= i < j < self.node_health@.len() implies self.node_health@[i].node_id != self.node_health@[j].node_id by {
                        if j == self.node_health@.len() - 1 {
                            assert(old(self).node_health@[i] == self.node_health@[i]);
                        }
                    }
                }
            },
        }
    }
}

impl Default for ClusterBus {
    fn default() -> (r: Self)
        ensures
            r.wf(),
            r@ == Map::<NodeId, NodeHealthInfo>::empty(),
            r.spec_node_id() == 0,
    {
        ClusterBus::with_defaults(0)
    }
}

} // verus!
