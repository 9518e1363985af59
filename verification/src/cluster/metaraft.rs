//! The cluster view that nodes derive from the replicated metadata.
use vstd::prelude::*;
use std::collections::HashMap;
use std::time::Duration;
use crate::cluster::config::{duration_from_millis, duration_from_secs, spec_duration_from_millis, spec_duration_from_secs};
use crate::cluster::meta::{ClusterMeta, GroupMeta, MetaNodeInfo, MetaNodeStatus};
use crate::error::AikvError;

verus! {

broadcast use vstd::std_specs::hash::group_hash_axioms;

/// Node identifier.
pub type NodeId = u64;

/// A node as the cluster view shows it.
#[derive(Debug, Clone)]
pub struct ClusterNodeInfo {
    /// Node id.
    pub node_id: NodeId,
    /// Client address.
    pub data_addr: String,
    /// Raft address.
    pub raft_addr: String,
    /// Whether the node is online.
    pub is_online: bool,
    /// Whether the node belongs to a group that owns slots.
    pub is_master: bool,
    /// Time of the last heartbeat, in milliseconds since the epoch.
    pub last_heartbeat: u64,
}

/// The cluster as seen from the metadata.
#[derive(Debug, Clone)]
pub struct ClusterView {
    /// Known nodes by id.
    pub nodes: HashMap<NodeId, ClusterNodeInfo>,
    /// The group serving each slot, if any.
    pub slot_assignments: Vec<Option<NodeId>>,
    /// Configuration epoch.
    pub config_epoch: u64,
    /// The viewing node.
    pub my_node_id: NodeId,
}

impl Default for ClusterView {
    fn default() -> (r: Self)
        ensures
            r.nodes@ == Map::<NodeId, ClusterNodeInfo>::empty(),
            r.slot_assignments@.len() == 0,
            r.config_epoch == 0,
            r.my_node_id == 0,
    {
        ClusterView {
            nodes: HashMap::new(),
            slot_assignments: Vec::new(),
            config_epoch: 0,
            my_node_id: 0,
        }
    }
}

/// Timing settings of the metadata client.
#[derive(Debug, Clone)]
pub struct MetaRaftClientConfig {
    /// Interval between heartbeats.
    pub heartbeat_interval: Duration,
    /// Silence after which a node counts as failed.
    pub node_timeout: Duration,
}

impl Default for MetaRaftClientConfig {
    fn default() -> (r: Self)
        ensures
            r.heartbeat_interval == spec_duration_from_millis(100),
            r.node_timeout == spec_duration_from_secs(5),
    {
        MetaRaftClientConfig {
            heartbeat_interval: duration_from_millis(100),
            node_timeout: duration_from_secs(5),
        }
    }
}

/// A node is a master when it is a replica of a group that owns a slot.
pub open spec fn is_master_spec(meta: ClusterMeta, node: NodeId) -> bool {
    exists|g: int|
        0 <= g < meta.groups@.len() && #[trigger] meta.groups@[g].replicas@.contains(node)
            && meta.groups@[g].group_id != 0 && meta.slots@.contains(meta.groups@[g].group_id)
}

/// What the view records for one metadata node.
pub open spec fn node_info_matches(info: ClusterNodeInfo, meta: ClusterMeta, n: MetaNodeInfo, now: u64) -> bool {
    &&& info.node_id == n.node_id
    &&& info.data_addr@ == n.addr@
    &&& info.raft_addr@ == n.addr@
    &&& info.is_online == (n.status == MetaNodeStatus::Online)
    &&& info.is_master == is_master_spec(meta, n.node_id)
    &&& info.last_heartbeat == now
}

/// Ids of the first `k` metadata nodes.
pub open spec fn node_ids(nodes: Seq<MetaNodeInfo>) -> Set<NodeId> {
    Set::new(|id: NodeId| exists|i: int| 0 <= i < nodes.len() && nodes[i].node_id == id)
}

/// The group of each slot, `None` for unassigned slots.
pub open spec fn assignments_spec(slots: Seq<u64>) -> Seq<Option<NodeId>> {
    slots.map_values(|g: u64| if g == 0 {
        None
    } else {
        Some(g)
    })
}

impl ClusterView {
    /// Derives the view of node `my_node_id` from the metadata at time
    /// `now`: every metadata node appears (the last record wins for repeated
    /// ids) with its address, whether it is online and whether it is a
    /// master; each slot shows its group, or none when unassigned.
    pub fn from_meta(meta: &ClusterMeta, my_node_id: NodeId, now: u64) -> (r: Self)
        ensures
            r.nodes@.dom() =~= node_ids(meta.nodes@),
            forall|id: NodeId| #[trigger] r.nodes@.contains_key(id) ==> exists|i: int|
                0 <= i < meta.nodes@.len() && meta.nodes@[i].node_id == id
                    && node_info_matches(r.nodes@[id], *meta, meta.nodes@[i], now),
            r.slot_assignments@ =~= assignments_spec(meta.slots@),
            r.config_epoch == meta.config_version,
            r.my_node_id == my_node_id,
    {
        let mut nodes: HashMap<NodeId, ClusterNodeInfo> = HashMap::new();
        let mut i: usize = 0;
        while i < meta.nodes.len()
            invariant
                i <= meta.nodes@.len(),
                nodes@.dom() =~= node_ids(meta.nodes@.subrange(0, i as int)),
                forall|id: NodeId| #[trigger] nodes@.contains_key(id) ==> exists|j: int|
                    0 <= j < i && meta.nodes@[j].node_id == id
                        && node_info_matches(nodes@[id], *meta, meta.nodes@[j], now),
            decreases meta.nodes@.len() - i,
        {
            let n = &meta.nodes[i];
            let master = is_master(meta, n.node_id);
            let info = ClusterNodeInfo {
                node_id: n.node_id,
                data_addr: n.addr.clone(),
                raft_addr: n.addr.clone(),
                is_online: match n.status {
                    MetaNodeStatus::Online => true,
                    _ => false,
                },
                is_master: master,
                last_heartbeat: now,
            };
            let ghost old_nodes = nodes@;
            nodes.insert(n.node_id, info);
            proof {
                let pre = meta.nodes@.subrange(0, i as int);
                let post = meta.nodes@.subrange(0, i + 1);
                assert forall|id: NodeId| node_ids(post).contains(id) <==> node_ids(pre).insert(meta.nodes@[i as int].node_id).contains(id) by {
                    if node_ids(post).contains(id) {
                        let j = choose|j: int| 0 <= j < post.len() && post[j].node_id == id;
                        if j < i {
                            assert(pre[j] == post[j]);
                        }
                    }
                    if node_ids(pre).contains(id) {
                        let j = choose|j: int| 0 <= j < pre.len() && pre[j].node_id == id;
                        assert(post[j] == pre[j]);
                    }
                    if id == meta.nodes@[i as int].node_id {
                        assert(post[i as int].node_id == id);
                    }
                }
                assert(nodes@.dom() =~= node_ids(post));
            }
            i = i + 1;
        }
        proof {
            assert(meta.nodes@.subrange(0, meta.nodes@.len() as int) =~= meta.nodes@);
        }
        let mut assignments: Vec<Option<NodeId>> = Vec::new();
        let mut k: usize = 0;
        while k < meta.slots.len()
            invariant
                k <= meta.slots@.len(),
                assignments@ =~= assignments_spec(meta.slots@.subrange(0, k as int)),
            decreases meta.slots@.len() - k,
        {
            let g = meta.slots[k];
            if g == 0 {
                assignments.push(None);
            } else {
                assignments.push(Some(g));
            }
            proof {
                assert(assignments_spec(meta.slots@.subrange(0, k + 1)) =~= assignments_spec(meta.slots@.subrange(0, k as int)).push(
                    if g == 0 {
                        None
                    } else {
                        Some(g)
                    },
                ));
            }
            k = k + 1;
        }
        proof {
            assert(meta.slots@.subrange(0, meta.slots@.len() as int) =~= meta.slots@);
        }
        ClusterView { nodes, slot_assignments: assignments, config_epoch: meta.config_version, my_node_id }
    }
}

fn vec_contains_u64(v: &Vec<u64>, x: u64) -> (r: bool)
    ensures
        r == v@.contains(x),
{
    let mut i: usize = 0;
    while i < v.len()
        invariant
            i <= v@.len(),
            forall|j: int| 0 <= j < i ==> v@[j] != x,
        decreases v@.len() - i,
    {
        if v[i] == x {
            return true;
        }
        i = i + 1;
    }
    false
}

/// Whether `node` is a master (see `is_master_spec`).
pub fn is_master(meta: &ClusterMeta, node: NodeId) -> (r: bool)
    ensures
        r == is_master_spec(*meta, node),
{
    let mut g: usize = 0;
    while g < meta.groups.len()
        invariant
            g <= meta.groups@.len(),
            forall|j: int|
                0 <= j < g ==> !(#[trigger] meta.groups@[j].replicas@.contains(node) && meta.groups@[j].group_id != 0
                    && meta.slots@.contains(meta.groups@[j].group_id)),
        decreases meta.groups@.len() - g,
    {
        let grp: &GroupMeta = &meta.groups[g];
        if vec_contains_u64(&grp.replicas, node) && grp.group_id != 0 && vec_contains_u64(&meta.slots, grp.group_id) {
            return true;
        }
        g = g + 1;
    }
    false
}

/// Client of the metadata service for builds without a cluster backend:
/// it knows only its own id.
pub struct MetaRaftClient {
    node_id: NodeId,
}

impl MetaRaftClient {
    /// A client for node `node_id`.
    pub fn new_stub(node_id: NodeId) -> (r: Self)
        ensures
            r.spec_node_id() == node_id,
    {
        MetaRaftClient { node_id }
    }

    /// The node id.
    pub closed spec fn spec_node_id(&self) -> NodeId {
        self.node_id
    }

    /// The node id.
    pub fn node_id(&self) -> (r: NodeId)
        ensures
            r == self.spec_node_id(),
    {
        self.node_id
    }

    /// Proposing a join needs a metadata service: refused.
    pub fn propose_node_join(&self, target_node_id: NodeId, raft_addr: String) -> (r: Result<(), AikvError>)
        ensures
            r matches Err(AikvError::Storage(_)),
    {
        Err(AikvError::Storage(crate::text::string_of("Cluster feature not enabled")))
    }

    /// Proposing a leave needs a metadata service: refused.
    pub fn propose_node_leave(&self, target_node_id: NodeId) -> (r: Result<(), AikvError>)
        ensures
            r matches Err(AikvError::Storage(_)),
    {
        Err(AikvError::Storage(crate::text::string_of("Cluster feature not enabled")))
    }

    /// The empty view.
    pub fn get_cluster_view(&self) -> (r: ClusterView)
        ensures
            r.nodes@ == Map::<NodeId, ClusterNodeInfo>::empty(),
            r.slot_assignments@.len() == 0,
            r.config_epoch == 0,
            r.my_node_id == 0,
    {
        ClusterView::default()
    }

    /// Whether this node leads: never.
    pub fn is_leader(&self) -> (r: bool)
        ensures
            !r,
    {
        false
    }

    /// The leader: unknown.
    pub fn get_leader(&self) -> (r: Option<NodeId>)
        ensures
            r is None,
    {
        None
    }

    /// Starts heartbeats: nothing to send to.
    pub fn start_heartbeat(&self) {
    }

    /// Stops heartbeats.
    pub fn stop_heartbeat(&self) {
    }

    /// Whether heartbeats run: never.
    pub fn is_heartbeat_running(&self) -> (r: bool)
        ensures
            !r,
    {
        false
    }
}

} // verus!
