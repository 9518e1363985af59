//! The cluster metadata that the metadata service replicates, held as plain
//! values, and the routing decisions taken from it.
use vstd::prelude::*;
use crate::cluster::slot::{key_slot_spec, key_to_slot};
use crate::error::AikvError;
use crate::text::{
    after_last, decimal_spec, parse_u16, parse_unsigned_spec, str_after_last, string_of,
    push_str, u64_to_decimal,
};

verus! {

/// Slot count of a cluster.
pub const TOTAL_SLOTS: u16 = 16384;

/// Membership status of a node in the metadata.
#[derive(Debug, Clone, Copy, PartialEq, Eq, Structural)]
pub enum MetaNodeStatus {
    /// Serving.
    Online,
    /// Not reachable.
    Offline,
    /// Being added.
    Joining,
    /// Being removed.
    Leaving,
}

/// A node as the metadata records it.
#[derive(Debug, Clone)]
pub struct MetaNodeInfo {
    /// Node id.
    pub node_id: u64,
    /// The node's address, `host:port`.
    pub addr: String,
    /// Membership status.
    pub status: MetaNodeStatus,
}

/// A replication group as the metadata records it.
#[derive(Debug, Clone)]
pub struct GroupMeta {
    /// Group id (never 0: 0 marks an unassigned slot).
    pub group_id: u64,
    /// Current leader, if one is elected.
    pub leader: Option<u64>,
    /// Member nodes.
    pub replicas: Vec<u64>,
}

/// Cluster metadata: the group of every slot (0 when unassigned), the
/// groups and the nodes.
#[derive(Debug, Clone)]
pub struct ClusterMeta {
    /// Group of each slot, by slot number.
    pub slots: Vec<u64>,
    /// Groups.
    pub groups: Vec<GroupMeta>,
    /// Nodes.
    pub nodes: Vec<MetaNodeInfo>,
    /// Configuration version.
    pub config_version: u64,
}

/// The first group with id `gid`.
pub open spec fn find_group(groups: Seq<GroupMeta>, gid: u64) -> Option<GroupMeta>
    decreases groups.len(),
{
    if groups.len() == 0 {
        None
    } else if groups[0].group_id == gid {
        Some(groups[0])
    } else {
        find_group(groups.drop_first(), gid)
    }
}

/// The first node with id `id`.
pub open spec fn find_node(nodes: Seq<MetaNodeInfo>, id: u64) -> Option<MetaNodeInfo>
    decreases nodes.len(),
{
    if nodes.len() == 0 {
        None
    } else if nodes[0].node_id == id {
        Some(nodes[0])
    } else {
        find_node(nodes.drop_first(), id)
    }
}

/// The client address of the node at `addr`: ports 50051..=50056 (raft
/// ports) map to client ports 6379.. on 127.0.0.1, ports 6379..=6384 keep
/// their number on 127.0.0.1, anything else is returned unchanged.
pub open spec fn data_address_spec(addr: Seq<char>) -> Seq<char> {
    match parse_unsigned_spec(after_last(addr, ':'), 65535) {
        Some(p) => if 50051 <= p <= 50056 {
            "127.0.0.1:"@ + decimal_spec((6379 + (p - 50051)) as nat)
        } else if 6379 <= p <= 6384 {
            "127.0.0.1:"@ + decimal_spec(p)
        } else {
            addr
        },
        None => addr,
    }
}

/// The leader serving `slot` and its client address, when the slot is
/// assigned and both its group's leader and that node's record are known.
pub open spec fn slot_owner_spec(meta: ClusterMeta, slot: u16) -> Option<(u64, Seq<char>)> {
    if slot as int >= meta.slots@.len() || meta.slots@[slot as int] == 0 {
        None
    } else {
        match find_group(meta.groups@, meta.slots@[slot as int]) {
            Some(g) => match g.leader {
                Some(l) => match find_node(meta.nodes@, l) {
                    Some(n) => Some((l, data_address_spec(n.addr@))),
                    None => None,
                },
                None => None,
            },
            None => None,
        }
    }
}

/// Number of slots assigned to some group.
pub open spec fn assigned_count(slots: Seq<u64>) -> nat
    decreases slots.len(),
{
    if slots.len() == 0 {
        0
    } else {
        assigned_count(slots.drop_last()) + if slots.last() > 0 {
            1nat
        } else {
            0nat
        }
    }
}

/// Every group that owns a slot has a leader.
pub open spec fn owning_groups_led(meta: ClusterMeta) -> bool {
    forall|i: int| 0 <= i < meta.groups@.len() && #[trigger] meta.slots@.contains(meta.groups@[i].group_id)
        ==> meta.groups@[i].leader is Some
}

/// The cluster serves every slot: all 16384 slots are assigned and every
/// group that owns a slot has a leader.
pub open spec fn cluster_ok_spec(meta: ClusterMeta) -> bool {
    assigned_count(meta.slots@) == 16384 && owning_groups_led(meta)
}

/// The first group, in order, that holds a slot but has no leader.
pub open spec fn first_leaderless(slots: Seq<u64>, groups: Seq<GroupMeta>) -> Option<u64>
    decreases groups.len(),
{
    if groups.len() == 0 {
        None
    } else if slots.contains(groups[0].group_id) && groups[0].leader is None {
        Some(groups[0].group_id)
    } else {
        first_leaderless(slots, groups.drop_first())
    }
}

/// What `check_cluster_state` answers.
pub open spec fn cluster_state_result(meta: ClusterMeta, r: Result<(), AikvError>) -> bool {
    if assigned_count(meta.slots@) != 16384 {
        r matches Err(AikvError::Internal(m)) && m@ == "CLUSTERDOWN The cluster is down. Only "@ + decimal_spec(
            assigned_count(meta.slots@),
        ) + " of 16384 slots are assigned"@
    } else {
        match first_leaderless(meta.slots@, meta.groups@) {
            Some(g) => r matches Err(AikvError::Internal(m)) && m@ == "CLUSTERDOWN The cluster is down. Group "@
                + decimal_spec(g as nat) + " has no leader"@,
            None => r is Ok,
        }
    }
}

proof fn lemma_first_leaderless(slots: Seq<u64>, groups: Seq<GroupMeta>)
    ensures
        first_leaderless(slots, groups) is None <==> forall|i: int|
            0 <= i < groups.len() && #[trigger] slots.contains(groups[i].group_id) ==> groups[i].leader is Some,
    decreases groups.len(),
{
    if groups.len() > 0 {
        lemma_first_leaderless(slots, groups.drop_first());
        assert forall|i: int| 1 <= i < groups.len() implies groups[i] == #[trigger] groups.drop_first()[i - 1] by {}
        if first_leaderless(slots, groups) is None {
            assert forall|i: int| 0 <= i < groups.len() && #[trigger] slots.contains(groups[i].group_id) implies groups[i].leader is Some by {
                if i > 0 {
                    assert(groups.drop_first()[i - 1] == groups[i]);
                }
            }
        } else {
            if !(slots.contains(groups[0].group_id) && groups[0].leader is None) {
                let j = choose|j: int| 0 <= j < groups.drop_first().len() && #[trigger] slots.contains(groups.drop_first()[j].group_id) && !(groups.drop_first()[j].leader is Some);
                assert(groups[j + 1] == groups.drop_first()[j]);
            }
        }
    }
}

/// Routing decision for a slot, as `check_slot_ownership` takes it.
pub enum SlotOwnership {
    /// This node leads the slot's group.
    Owned,
    /// Another node leads it: redirect to its client address.
    Moved(Seq<char>),
    /// The slot has no group.
    Unassigned,
    /// The slot's group or its leader's record is missing.
    GroupMissing(u64),
    /// The slot number is outside the slot table.
    Invalid,
}

/// Who serves `slot` for node `me`.
pub open spec fn ownership_spec(meta: ClusterMeta, me: u64, slot: u16) -> SlotOwnership {
    if slot as int >= meta.slots@.len() {
        SlotOwnership::Invalid
    } else {
        let gid = meta.slots@[slot as int];
        if gid == 0 {
            SlotOwnership::Unassigned
        } else {
            match find_group(meta.groups@, gid) {
                Some(g) => if g.leader == Some(me) {
                    SlotOwnership::Owned
                } else {
                    match g.leader {
                        Some(l) => match find_node(meta.nodes@, l) {
                            Some(n) => SlotOwnership::Moved(data_address_spec(n.addr@)),
                            None => SlotOwnership::GroupMissing(gid),
                        },
                        None => SlotOwnership::GroupMissing(gid),
                    }
                },
                None => SlotOwnership::GroupMissing(gid),
            }
        }
    }
}

/// The outcome of `check_slot_ownership` in terms of `ownership_spec`.
pub open spec fn ownership_result_matches(r: Result<(), AikvError>, o: SlotOwnership, slot: u16) -> bool {
    match o {
        SlotOwnership::Owned => r is Ok,
        SlotOwnership::Moved(addr) => r matches Err(AikvError::Moved(s, a)) && s == slot && a@ == addr,
        SlotOwnership::Unassigned => r matches Err(AikvError::Internal(m)) && m@ == "CLUSTERDOWN Hash slot "@
            + decimal_spec(slot as nat) + " not served"@,
        SlotOwnership::GroupMissing(g) => r matches Err(AikvError::Internal(m)) && m@ == "CLUSTERDOWN Hash slot "@
            + decimal_spec(slot as nat) + " not served (group "@ + decimal_spec(g as nat) + " not found)"@,
        SlotOwnership::Invalid => r matches Err(AikvError::Invalid(m)) && m@ == "Invalid slot: "@ + decimal_spec(
            slot as nat,
        ),
    }
}

pub(crate) fn find_group_exec(groups: &Vec<GroupMeta>, gid: u64) -> (r: Option<usize>)
    ensures
        match r {
            Some(i) => i < groups@.len() && find_group(groups@, gid) == Some(groups@[i as int]),
            None => find_group(groups@, gid) is None,
        },
{
    let mut i: usize = 0;
    proof {
        assert(groups@.subrange(0, groups@.len() as int) =~= groups@);
    }
    while i < groups.len()
        invariant
            i <= groups@.len(),
            find_group(groups@, gid) == find_group(groups@.subrange(i as int, groups@.len() as int), gid),
        decreases groups@.len() - i,
    {
        proof {
            let rest = groups@.subrange(i as int, groups@.len() as int);
            assert(rest.drop_first() =~= groups@.subrange(i + 1, groups@.len() as int));
            assert(rest[0] == groups@[i as int]);
        }
        if groups[i].group_id == gid {
            return Some(i);
        }
        i = i + 1;
    }
    None
}

pub(crate) fn find_node_exec(nodes: &Vec<MetaNodeInfo>, id: u64) -> (r: Option<usize>)
    ensures
        match r {
            Some(i) => i < nodes@.len() && find_node(nodes@, id) == Some(nodes@[i as int]),
            None => find_node(nodes@, id) is None,
        },
{
    let mut i: usize = 0;
    proof {
        assert(nodes@.subrange(0, nodes@.len() as int) =~= nodes@);
    }
    while i < nodes.len()
        invariant
            i <= nodes@.len(),
            find_node(nodes@, id) == find_node(nodes@.subrange(i as int, nodes@.len() as int), id),
        decreases nodes@.len() - i,
    {
        proof {
            let rest = nodes@.subrange(i as int, nodes@.len() as int);
            assert(rest.drop_first() =~= nodes@.subrange(i + 1, nodes@.len() as int));
            assert(rest[0] == nodes@[i as int]);
        }
        if nodes[i].node_id == id {
            return Some(i);
        }
        i = i + 1;
    }
    None
}

/// Maps a node address to its client address (see `data_address_spec`).
pub fn extract_data_address(addr: &str) -> (r: String)
    ensures
        r@ == data_address_spec(addr@),
{
    match parse_u16(str_after_last(addr, ':')) {
        Some(port) => {
            if 50051 <= port && port <= 50056 {
                let mut s = string_of("127.0.0.1:");
                push_str(&mut s, u64_to_decimal((6379 + (port - 50051)) as u64).as_str());
                s
            } else if 6379 <= port && port <= 6384 {
                let mut s = string_of("127.0.0.1:");
                push_str(&mut s, u64_to_decimal(port as u64).as_str());
                s
            } else {
                string_of(addr)
            }
        },
        None => string_of(addr),
    }
}

impl ClusterMeta {
    /// Number of slots assigned to some group.
    pub fn assigned_slots(&self) -> (r: usize)
        ensures
            r == assigned_count(self.slots@),
    {
        let mut c: usize = 0;
        let mut i: usize = 0;
        proof {
            assert(self.slots@.subrange(0, 0) =~= Seq::<u64>::empty());
        }
        while i < self.slots.len()
            invariant
                i <= self.slots@.len(),
                c == assigned_count(self.slots@.subrange(0, i as int)),
                c <= i,
            decreases self.slots@.len() - i,
        {
            proof {
                assert(self.slots@.subrange(0, i + 1).drop_last() =~= self.slots@.subrange(0, i as int));
            }
            if self.slots[i] > 0 {
                c = c + 1;
            }
            i = i + 1;
        }
        proof {
            assert(self.slots@.subrange(0, self.slots@.len() as int) =~= self.slots@);
        }
        c
    }

    /// Whether some slot is assigned to group `gid`.
    pub fn owns_slots(&self, gid: u64) -> (r: bool)
        ensures
            r == self.slots@.contains(gid),
    {
        let mut i: usize = 0;
        while i < self.slots.len()
            invariant
                i <= self.slots@.len(),
                forall|j: int| 0 <= j < i ==> self.slots@[j] != gid,
            decreases self.slots@.len() - i,
        {
            if self.slots[i] == gid {
                return true;
            }
            i = i + 1;
        }
        false
    }

    /// Whether the cluster serves every slot (see `cluster_ok_spec`).
    pub fn is_cluster_ok(&self) -> (r: bool)
        ensures
            r == cluster_ok_spec(*self),
    {
        self.check_cluster_state().is_ok()
    }

    /// Ok when the cluster serves every slot; otherwise a CLUSTERDOWN error
    /// naming the first reason: how many slots are assigned, or the first
    /// group that holds slots without a leader.
    pub fn check_cluster_state(&self) -> (r: Result<(), AikvError>)
        ensures
            r is Ok <==> cluster_ok_spec(*self),
            cluster_state_result(*self, r),
    {
        proof {
            lemma_first_leaderless(self.slots@, self.groups@);
        }
        let assigned = self.assigned_slots();
        if assigned != 16384 {
            let mut m = string_of("CLUSTERDOWN The cluster is down. Only ");
            push_str(&mut m, u64_to_decimal(assigned as u64).as_str());
            push_str(&mut m, " of 16384 slots are assigned");
            return Err(AikvError::Internal(m));
        }
        let mut i: usize = 0;
        proof {
            assert(self.groups@.skip(0) =~= self.groups@);
        }
        while i < self.groups.len()
            invariant
                i <= self.groups@.len(),
                first_leaderless(self.slots@, self.groups@) == first_leaderless(self.slots@, self.groups@.skip(i as int)),
                assigned_count(self.slots@) == 16384,
            decreases self.groups@.len() - i,
        {
            proof {
                assert(self.groups@.skip(i as int).drop_first() =~= self.groups@.skip(i + 1));
                assert(self.groups@.skip(i as int)[0] == self.groups@[i as int]);
            }
            if self.owns_slots(self.groups[i].group_id) && self.groups[i].leader.is_none() {
                proof {
                    let rest = self.groups@.skip(i as int);
                    assert(rest.len() > 0);
                    assert(first_leaderless(self.slots@, rest) == Some(rest[0].group_id));
                }
                let mut m = string_of("CLUSTERDOWN The cluster is down. Group ");
                push_str(&mut m, u64_to_decimal(self.groups[i].group_id).as_str());
                push_str(&mut m, " has no leader");
                return Err(AikvError::Internal(m));
            }
            i = i + 1;
        }
        proof {
            assert(self.groups@.skip(i as int).len() == 0);
        }
        Ok(())
    }

    /// Decides whether node `me` serves `slot`: Ok when it leads the slot's
    /// group, a MOVED redirect to the leader's client address when another
    /// node leads it, and an error when the slot is invalid, unassigned, or
    /// its group or leader is not recorded.
    pub fn check_slot_ownership(&self, me: u64, slot: u16) -> (r: Result<(), AikvError>)
        ensures
            ownership_result_matches(r, ownership_spec(*self, me, slot), slot),
    {
        if slot as usize >= self.slots.len() {
            let mut m = string_of("Invalid slot: ");
            push_str(&mut m, u64_to_decimal(slot as u64).as_str());
            return Err(AikvError::Invalid(m));
        }
        let gid = self.slots[slot as usize];
        if gid == 0 {
            let mut m = string_of("CLUSTERDOWN Hash slot ");
            push_str(&mut m, u64_to_decimal(slot as u64).as_str());
            push_str(&mut m, " not served");
            return Err(AikvError::Internal(m));
        }
        match find_group_exec(&self.groups, gid) {
            Some(gi) => {
                let g = &self.groups[gi];
                match g.leader {
                    Some(l) => {
                        if l == me {
                            return Ok(());
                        }
                        match find_node_exec(&self.nodes, l) {
                            Some(ni) => {
                                let addr = extract_data_address(self.nodes[ni].addr.as_str());
                                return Err(AikvError::Moved(slot, addr));
                            },
                            None => {},
                        }
                    },
                    None => {},
                }
            },
            None => {},
        }
        let mut m = string_of("CLUSTERDOWN Hash slot ");
        push_str(&mut m, u64_to_decimal(slot as u64).as_str());
        push_str(&mut m, " not served (group ");
        push_str(&mut m, u64_to_decimal(gid).as_str());
        push_str(&mut m, " not found)");
        Err(AikvError::Internal(m))
    }

    /// Decides whether node `me` serves `key` (see `check_slot_ownership`).
    pub fn check_key_slot(&self, me: u64, key: &[u8]) -> (r: Result<(), AikvError>)
        ensures
            ownership_result_matches(r, ownership_spec(*self, me, key_slot_spec(key@)), key_slot_spec(key@)),
    {
        let slot = key_to_slot(key);
        self.check_slot_ownership(me, slot)
    }

    /// Decides whether node `me` serves all `keys`: no keys are always
    /// served; keys in different slots are refused with CROSSSLOT; otherwise
    /// the common slot decides.
    pub fn check_keys_slot(&self, me: u64, keys: &[&[u8]]) -> (r: Result<(), AikvError>)
        ensures
            keys@.len() == 0 ==> r is Ok,
            keys@.len() > 0 && (exists|i: int| 0 <= i < keys@.len() && #[trigger] key_slot_spec(keys@[i]@) != key_slot_spec(keys@[0]@))
                ==> r == Err::<(), AikvError>(AikvError::CrossSlot),
            keys@.len() > 0 && (forall|i: int| 0 <= i < keys@.len() ==> #[trigger] key_slot_spec(keys@[i]@) == key_slot_spec(keys@[0]@))
                ==> ownership_result_matches(r, ownership_spec(*self, me, key_slot_spec(keys@[0]@)), key_slot_spec(keys@[0]@)),
    {
        if keys.len() == 0 {
            return Ok(());
        }
        let first = key_to_slot(keys[0]);
        let mut i: usize = 1;
        while i < keys.len()
            invariant
                1 <= i <= keys@.len(),
                first == key_slot_spec(keys@[0]@),
                forall|j: int| 0 <= j < i ==> #[trigger] key_slot_spec(keys@[j]@) == first,
            decreases keys@.len() - i,
        {
            let s = key_to_slot(keys[i]);
            if s != first {
                return Err(AikvError::CrossSlot);
            }
            i = i + 1;
        }
        self.check_slot_ownership(me, first)
    }

    /// The leader of the group serving `slot` and its client address, when
    /// the slot is assigned and both the group's leader and its node record
    /// are known.
    pub fn get_slot_owner(&self, slot: u16) -> (r: Option<(u64, String)>)
        ensures
            match (r, slot_owner_spec(*self, slot)) {
                (Some((id, addr)), Some((sid, saddr))) => id == sid && addr@ == saddr,
                (None, None) => true,
                _ => false,
            },
    {
        if slot as usize >= self.slots.len() {
            return None;
        }
        let gid = self.slots[slot as usize];
        if gid == 0 {
            return None;
        }
        match find_group_exec(&self.groups, gid) {
            Some(gi) => match self.groups[gi].leader {
                Some(l) => match find_node_exec(&self.nodes, l) {
                    Some(ni) => Some((l, extract_data_address(self.nodes[ni].addr.as_str()))),
                    None => None,
                },
                None => None,
            },
            None => None,
        }
    }
}

} // verus!
