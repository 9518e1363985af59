//! Node roles, slot ranges and the node's view of cluster state.
use vstd::prelude::*;
use crate::text::string_of;

verus! {

/// Role of a node in its replication group.
#[derive(Debug, Clone, Copy, PartialEq, Eq, Structural)]
pub enum NodeRole {
    /// Handles all writes of the group.
    Leader,
    /// Replicates data from the leader.
    Follower,
    /// Catching up before becoming a follower.
    Learner,
    /// Taking part in a leader election.
    Candidate,
}

/// The lower-case display name of a role.
pub open spec fn role_name(role: NodeRole) -> Seq<char> {
    match role {
        NodeRole::Leader => "leader"@,
        NodeRole::Follower => "follower"@,
        NodeRole::Learner => "learner"@,
        NodeRole::Candidate => "candidate"@,
    }
}

impl Default for NodeRole {
    fn default() -> (r: Self)
        ensures
            r == NodeRole::Follower,
    {
        NodeRole::Follower
    }
}

impl NodeRole {
    /// The display text of the role: "leader", "follower", "learner" or "candidate".
    pub fn to_string(&self) -> (r: String)
        ensures
            r@ == role_name(*self),
    {
        match self {
            NodeRole::Leader => string_of("leader"),
            NodeRole::Follower => string_of("follower"),
            NodeRole::Learner => string_of("learner"),
            NodeRole::Candidate => string_of("candidate"),
        }
    }
}

/// A half-open range `[start, end)` of slots.
#[derive(Debug, Clone, Copy, PartialEq, Eq, Structural)]
pub struct SlotRange {
    /// First slot (inclusive).
    pub start: u16,
    /// End slot (exclusive).
    pub end: u16,
}

impl SlotRange {
    /// Creates the range `[start, end)`; the range must be non-empty and end
    /// no later than slot 16384.
    pub fn new(start: u16, end: u16) -> (r: Self)
        requires
            start < end,
            end <= 16384,
        ensures
            r.start == start,
            r.end == end,
    {
        SlotRange { start, end }
    }

    /// Whether `slot` lies in the range.
    pub fn contains(&self, slot: u16) -> (r: bool)
        ensures
            r == (self.start <= slot && slot < self.end),
    {
        slot >= self.start && slot < self.end
    }

    /// Number of slots in the range.
    pub fn len(&self) -> (r: usize)
        requires
            self.start <= self.end,
        ensures
            r == self.end - self.start,
    {
        (self.end - self.start) as usize
    }

    /// Whether the range holds no slot.
    pub fn is_empty(&self) -> (r: bool)
        ensures
            r == (self.start >= self.end),
    {
        self.start >= self.end
    }

    /// Display text `[start-end)`.
    pub fn to_string(&self) -> (r: String)
        ensures
            r@ == seq!['['] + crate::text::decimal_spec(self.start as nat) + seq!['-']
                + crate::text::decimal_spec(self.end as nat) + seq![')'],
    {
        let mut s = string_of("[");
        crate::text::push_str(&mut s, crate::text::u64_to_decimal(self.start as u64).as_str());
        crate::text::push_str(&mut s, "-");
        crate::text::push_str(&mut s, crate::text::u64_to_decimal(self.end as u64).as_str());
        crate::text::push_str(&mut s, ")");
        proof {
            reveal_strlit("[");
            reveal_strlit("-");
            reveal_strlit(")");
        }
        s
    }
}

/// The cluster as this node sees it.
#[derive(Debug, Clone, PartialEq, Eq, Structural)]
pub struct ClusterState {
    /// This node's role.
    pub role: NodeRole,
    /// Configuration epoch.
    pub epoch: u64,
    /// Number of known nodes.
    pub known_nodes: usize,
    /// Number of healthy nodes.
    pub healthy_nodes: usize,
    /// Number of slots this node serves.
    pub my_slots: usize,
    /// Whether the cluster is healthy.
    pub cluster_ok: bool,
    /// Current metadata leader, if known.
    pub meta_leader: Option<u64>,
}

impl Default for ClusterState {
    fn default() -> (r: Self)
        ensures
            r.role == NodeRole::Follower,
            r.epoch == 0,
            r.known_nodes == 0,
            r.healthy_nodes == 0,
            r.my_slots == 0,
            !r.cluster_ok,
            r.meta_leader is None,
    {
        ClusterState {
            role: NodeRole::Follower,
            epoch: 0,
            known_nodes: 0,
            healthy_nodes: 0,
            my_slots: 0,
            cluster_ok: false,
            meta_leader: None,
        }
    }
}

impl ClusterState {
    /// The default state: a follower with nothing known.
    pub fn new() -> (r: Self)
        ensures
            r.role == NodeRole::Follower,
            r.epoch == 0,
            r.known_nodes == 0,
            r.healthy_nodes == 0,
            r.my_slots == 0,
            !r.cluster_ok,
            r.meta_leader is None,
    {
        ClusterState::default()
    }

    /// Whether this node leads its group.
    pub fn is_leader(&self) -> (r: bool)
        ensures
            r == (self.role == NodeRole::Leader),
    {
        match self.role {
            NodeRole::Leader => true,
            _ => false,
        }
    }

    /// "ok" when the cluster is healthy, "fail" otherwise.
    pub fn status_string(&self) -> (r: String)
        ensures
            r@ == (if self.cluster_ok {
                "ok"@
            } else {
                "fail"@
            }),
    {
        if self.cluster_ok {
            string_of("ok")
        } else {
            string_of("fail")
        }
    }
}

} // verus!
