//! The cluster commands that change the replicated metadata (MEET, FORGET,
//! ADDSLOTS, ADDSLOTSRANGE, DELSLOTS, DELSLOTSRANGE, FLUSHSLOTS, RESET,
//! REPLICATE, ADDREPLICATION, FAILOVER): what each of them asks the
//! metadata service to change, in order, and what it answers.
//!
//! Submitting the changes belongs to whoever holds the metadata service: it
//! submits the steps of a plan in turn; at the first that fails it answers
//! `Internal` with the step's failure text, `": "` and the service's
//! message; when all succeed it answers the plan's answer.
use crate::cluster::commands::{hex40, hex40_text, ClusterCommands};
use crate::cluster::meta::{find_group, find_node, find_group_exec, find_node_exec, ClusterMeta, GroupMeta, TOTAL_SLOTS};
use crate::command::reply::{models, ok_reply, Failure, Reply};
use crate::error::AikvError;
use crate::protocol::RespValue;
use crate::text::{decimal_spec, push_str, string_of, u64_to_decimal};
use vstd::prelude::*;

verus! {

/// How a replica takes over its group.
#[derive(Debug, Clone, Copy, PartialEq, Eq)]
pub enum FailoverMode {
    /// With the master's agreement.
    Default,
    /// Without the master's agreement.
    Force,
    /// Even when the master cannot be reached.
    Takeover,
}

/// A change to the metadata.
#[derive(Debug, Clone, PartialEq, Eq)]
pub enum MetaOp {
    /// Records a node and its address.
    AddNode(u64, String),
    /// Drops a node.
    RemoveNode(u64),
    /// Creates a group with the given members.
    CreateGroup(u64, Vec<u64>),
    /// Makes a node the leader of a group.
    UpdateGroupLeader(u64, u64),
    /// Sets the members of a group.
    UpdateGroupMembers(u64, Vec<u64>),
    /// Gives slots `start..end` (end excluded) to a group; group 0 leaves
    /// them unassigned.
    UpdateSlots(u16, u16, u64),
}

/// One change of a plan, with the text that its failure is reported with.
#[derive(Debug, Clone, PartialEq, Eq)]
pub struct MetaStep {
    /// The change.
    pub op: MetaOp,
    /// What a failure of it is reported as (before the service's message).
    pub failure: String,
}

/// What a metadata-changing command does: its changes, in order, and its
/// answer once all of them have been made.
#[derive(Debug)]
pub struct CommandPlan {
    /// The changes.
    pub steps: Vec<MetaStep>,
    /// The answer after the changes.
    pub answer: Result<RespValue, AikvError>,
}

/// A change as values.
pub enum OpView {
    AddNode(u64, Seq<char>),
    RemoveNode(u64),
    CreateGroup(u64, Seq<u64>),
    UpdateGroupLeader(u64, u64),
    UpdateGroupMembers(u64, Seq<u64>),
    UpdateSlots(u16, u16, u64),
}

/// A step as values: the change and its failure text.
pub type StepView = (OpView, Seq<char>);

impl View for MetaOp {
    type V = OpView;

    open spec fn view(&self) -> OpView {
        match self {
            MetaOp::AddNode(id, a) => OpView::AddNode(*id, a@),
            MetaOp::RemoveNode(id) => OpView::RemoveNode(*id),
            MetaOp::CreateGroup(g, r) => OpView::CreateGroup(*g, r@),
            MetaOp::UpdateGroupLeader(g, l) => OpView::UpdateGroupLeader(*g, *l),
            MetaOp::UpdateGroupMembers(g, r) => OpView::UpdateGroupMembers(*g, r@),
            MetaOp::UpdateSlots(s, e, g) => OpView::UpdateSlots(*s, *e, *g),
        }
    }
}

impl View for MetaStep {
    type V = StepView;

    open spec fn view(&self) -> StepView {
        (self.op@, self.failure@)
    }
}

/// The steps as values.
pub open spec fn step_views(v: Seq<MetaStep>) -> Seq<StepView> {
    v.map_values(|s: MetaStep| s@)
}

/// `p` makes exactly the changes `steps` and then answers `answer`.
pub open spec fn plan_is(p: CommandPlan, steps: Seq<StepView>, answer: Reply) -> bool {
    step_views(p.steps@) == steps && models(p.answer, answer)
}

// ---------------------------------------------------------------------------
// The plans as values
// ---------------------------------------------------------------------------

/// Whether group `g` is what a lookup of kind `kind` for `node` wants:
/// 0, a group with `node` among its members; 1, the group of master
/// `node` (by id, as leader, or as member); 2, a group with `node` among
/// its members but not leading it.
pub open spec fn group_matches(g: GroupMeta, node: u64, kind: u8) -> bool {
    if kind == 0 {
        g.replicas@.contains(node)
    } else if kind == 1 {
        g.group_id == node || g.leader == Some(node) || g.replicas@.contains(node)
    } else {
        g.replicas@.contains(node) && g.leader != Some(node)
    }
}

/// The id of the first group, in metadata order, that `group_matches`.
pub open spec fn first_group(groups: Seq<GroupMeta>, node: u64, kind: u8) -> Option<u64>
    decreases groups.len(),
{
    if groups.len() == 0 {
        None
    } else if group_matches(groups[0], node, kind) {
        Some(groups[0].group_id)
    } else {
        first_group(groups.drop_first(), node, kind)
    }
}

/// The first group whose members include `node`.
pub open spec fn group_of_member(groups: Seq<GroupMeta>, node: u64) -> Option<u64> {
    first_group(groups, node, 0)
}

/// The first group that `master` is in: by id, as leader, or as member.
pub open spec fn group_of_master(groups: Seq<GroupMeta>, master: u64) -> Option<u64> {
    first_group(groups, master, 1)
}

/// The first group that `node` is a member of without leading it.
pub open spec fn group_as_replica(groups: Seq<GroupMeta>, node: u64) -> Option<u64> {
    first_group(groups, node, 2)
}

/// `x` put into the sorted `s` after the slots not above it.
pub open spec fn insert_slot(s: Seq<u16>, x: u16) -> Seq<u16>
    decreases s.len(),
{
    if s.len() == 0 {
        seq![x]
    } else if s[0] <= x {
        seq![s[0]] + insert_slot(s.drop_first(), x)
    } else {
        seq![x] + s
    }
}

/// The slots in increasing order.
pub open spec fn sorted_slots(s: Seq<u16>) -> Seq<u16>
    decreases s.len(),
{
    if s.len() == 0 {
        s
    } else {
        insert_slot(sorted_slots(s.drop_last()), s.last())
    }
}

/// The runs of a nonempty slot list, each slot one more than the one
/// before: the runs closed so far (start, end excluded) and the open run
/// (first and last slot).
pub open spec fn runs_so_far(s: Seq<u16>) -> (Seq<(int, int)>, int, int)
    decreases s.len(),
{
    if s.len() <= 1 {
        (Seq::empty(), s[0] as int, s[0] as int)
    } else {
        let (rs, a, b) = runs_so_far(s.drop_last());
        let x = s.last() as int;
        if x == b + 1 {
            (rs, a, x)
        } else {
            (rs.push((a, b + 1)), x, x)
        }
    }
}

/// The runs of a slot list as ranges (start, end excluded).
pub open spec fn slot_runs_of(s: Seq<u16>) -> Seq<(int, int)> {
    if s.len() == 0 {
        Seq::empty()
    } else {
        let (rs, a, b) = runs_so_far(s);
        rs.push((a, b + 1))
    }
}

/// The position of the first slot not below 16384 (the length when none).
pub open spec fn first_bad_slot(s: Seq<u16>) -> int
    decreases s.len(),
{
    if s.len() == 0 {
        0
    } else if s[0] >= TOTAL_SLOTS {
        0
    } else {
        1 + first_bad_slot(s.drop_first())
    }
}

/// `"Invalid slot: N"`, rejected.
pub open spec fn invalid_slot(slot: u16) -> Reply {
    Reply::Fail(Failure::Rejected("Invalid slot: "@ + decimal_spec(slot as nat)))
}

/// `"Invalid slot range: S-E"`, rejected.
pub open spec fn invalid_range(start: u16, end: u16) -> Reply {
    Reply::Fail(Failure::Rejected("Invalid slot range: "@ + decimal_spec(start as nat) + "-"@ + decimal_spec(end as nat)))
}

/// The group a node's slots go to: its group, or a new one with its id.
pub open spec fn own_group(meta: ClusterMeta, node: u64) -> u64 {
    match group_of_member(meta.groups@, node) {
        Some(g) => g,
        None => node,
    }
}

/// CLUSTER ADDSLOTS: a group for this node when it has none, then the
/// sorted slots, run by run, to that group.
pub open spec fn addslots_plan(meta: ClusterMeta, me: u64, slots: Seq<u16>) -> (Seq<StepView>, Reply) {
    let pre: Seq<StepView> = match group_of_member(meta.groups@, me) {
        Some(_) => Seq::empty(),
        None => seq![(OpView::CreateGroup(me, seq![me]), "Failed to create group for node"@)],
    };
    let gid = own_group(meta, me);
    let bad = first_bad_slot(slots);
    if bad < slots.len() {
        (pre, invalid_slot(slots[bad]))
    } else {
        let runs = slot_runs_of(sorted_slots(slots));
        (
            pre + runs.map_values(
                |r: (int, int)|
                    (
                        OpView::UpdateSlots(r.0 as u16, r.1 as u16, gid),
                        "Failed to assign slots "@ + decimal_spec(r.0 as nat) + "-"@ + decimal_spec((r.1 - 1) as nat),
                    ),
            ),
            ok_reply(),
        )
    }
}

/// CLUSTER ADDSLOTSRANGE start end [node]: the range, ends included, to the
/// target node's group (this node when the target is 0), which is created
/// and led by the target when it has none.
pub open spec fn addslotsrange_plan(meta: ClusterMeta, me: u64, start: u16, end: u16, target: u64) -> (
    Seq<StepView>,
    Reply,
) {
    if target != 0 && find_node(meta.nodes@, target) is None {
        (
            Seq::empty(),
            Reply::Fail(Failure::Rejected("Target node "@ + hex40(target) + " not found in cluster"@)),
        )
    } else {
        let node = if target == 0 {
            me
        } else {
            target
        };
        let pre: Seq<StepView> = match group_of_member(meta.groups@, node) {
            Some(_) => Seq::empty(),
            None => seq![
                (OpView::CreateGroup(node, seq![node]), "Failed to create group for node"@),
                (OpView::UpdateGroupLeader(node, node), "Failed to set group leader"@),
            ],
        };
        if start > end || end >= TOTAL_SLOTS {
            (pre, invalid_range(start, end))
        } else {
            (
                pre.push(
                    (
                        OpView::UpdateSlots(start, (end + 1) as u16, own_group(meta, node)),
                        "Failed to assign slots "@ + decimal_spec(start as nat) + "-"@ + decimal_spec(end as nat),
                    ),
                ),
                ok_reply(),
            )
        }
    }
}

/// CLUSTER DELSLOTS: each slot in turn leaves its group, up to the first
/// slot out of range, which is rejected.
pub open spec fn delslots_plan(slots: Seq<u16>) -> (Seq<StepView>, Reply) {
    let bad = first_bad_slot(slots);
    let steps = Seq::new(
        bad as nat,
        |i: int|
            (
                OpView::UpdateSlots(slots[i], (slots[i] + 1) as u16, 0),
                "Failed to delete slot "@ + decimal_spec(slots[i] as nat),
            ),
    );
    if bad < slots.len() {
        (steps, invalid_slot(slots[bad]))
    } else {
        (steps, ok_reply())
    }
}

/// CLUSTER DELSLOTSRANGE start end: the range, ends included, leaves its
/// groups.
pub open spec fn delslotsrange_plan(start: u16, end: u16) -> (Seq<StepView>, Reply) {
    if start > end || end >= TOTAL_SLOTS {
        (Seq::empty(), invalid_range(start, end))
    } else {
        (
            seq![
                (
                    OpView::UpdateSlots(start, (end + 1) as u16, 0),
                    "Failed to delete slots "@ + decimal_spec(start as nat) + "-"@ + decimal_spec(end as nat),
                ),
            ],
            ok_reply(),
        )
    }
}

/// One step per slot of the first `n` that group `gid` holds, each
/// unassigning that slot.
pub open spec fn clear_steps(slots: Seq<u64>, gid: u64, n: nat, failure: Seq<char>) -> Seq<StepView>
    decreases n,
{
    if n == 0 {
        Seq::empty()
    } else {
        let p = clear_steps(slots, gid, (n - 1) as nat, failure);
        let i = n - 1;
        if slots[i] == gid {
            p.push((OpView::UpdateSlots(i as u16, (i + 1) as u16, 0), failure))
        } else {
            p
        }
    }
}

/// The clearing steps for each group, of the first `n`, that `me` leads.
pub open spec fn led_clear_steps(meta: ClusterMeta, me: u64, n: nat, failure: Seq<char>) -> Seq<StepView>
    decreases n,
{
    if n == 0 {
        Seq::empty()
    } else {
        let p = led_clear_steps(meta, me, (n - 1) as nat, failure);
        let g = meta.groups@[n - 1];
        if g.leader == Some(me) {
            p + clear_steps(meta.slots@, g.group_id, meta.slots@.len(), failure)
        } else {
            p
        }
    }
}

/// CLUSTER FLUSHSLOTS: every slot of a group this node leads leaves it.
pub open spec fn flushslots_plan(meta: ClusterMeta, me: u64) -> (Seq<StepView>, Reply) {
    (led_clear_steps(meta, me, meta.groups@.len(), "Failed to flush slot"@), ok_reply())
}

/// CLUSTER RESET [HARD | SOFT]: a hard reset clears the slots of the groups
/// this node leads; a soft one changes nothing.
pub open spec fn reset_plan(meta: ClusterMeta, me: u64, hard: bool) -> (Seq<StepView>, Reply) {
    if hard {
        (led_clear_steps(meta, me, meta.groups@.len(), "Failed to clear slot"@), ok_reply())
    } else {
        (Seq::empty(), ok_reply())
    }
}

/// Adding `replica` to the group of `master` (see `replicate_plan`).
pub open spec fn join_group_plan(meta: ClusterMeta, replica: u64, master: u64, failure: spec_fn(u64) -> Seq<char>) -> (
    Seq<StepView>,
    Reply,
) {
    match group_of_master(meta.groups@, master) {
        None => (
            Seq::empty(),
            Reply::Fail(Failure::Internal("Master node "@ + hex40(master) + " does not belong to any group"@)),
        ),
        Some(gid) => match find_group(meta.groups@, gid) {
            None => (Seq::empty(), Reply::Fail(Failure::Internal("Group "@ + decimal_spec(gid as nat) + " not found"@))),
            Some(g) => if g.replicas@.contains(replica) {
                (Seq::empty(), ok_reply())
            } else {
                (seq![(OpView::UpdateGroupMembers(gid, g.replicas@.push(replica)), failure(gid))], ok_reply())
            },
        },
    }
}

/// CLUSTER REPLICATE master: this node joins the members of the master's
/// group, unless it is one already.
pub open spec fn replicate_plan(meta: ClusterMeta, me: u64, master: u64) -> (Seq<StepView>, Reply) {
    join_group_plan(meta, me, master, |gid: u64| "Failed to add replica to group "@ + decimal_spec(gid as nat))
}

/// CLUSTER ADDREPLICATION replica master: `replica` joins the members of
/// the master's group, unless it is one already.
pub open spec fn add_replication_plan(meta: ClusterMeta, replica: u64, master: u64) -> (Seq<StepView>, Reply) {
    join_group_plan(
        meta,
        replica,
        master,
        |gid: u64| "Failed to add replica "@ + hex40(replica) + " to group "@ + decimal_spec(gid as nat),
    )
}

/// CLUSTER FAILOVER [FORCE | TAKEOVER]: this node leads the group it is a
/// member of without leading it.
pub open spec fn failover_plan(meta: ClusterMeta, me: u64, mode: FailoverMode) -> (Seq<StepView>, Reply) {
    match group_as_replica(meta.groups@, me) {
        None => (Seq::empty(), Reply::Fail(Failure::Rejected("This node is not a replica or already a master"@))),
        Some(gid) => (
            seq![
                (
                    OpView::UpdateGroupLeader(gid, me),
                    if mode == FailoverMode::Takeover {
                        "Failed to perform takeover"@
                    } else {
                        "Failed to perform failover"@
                    },
                ),
            ],
            ok_reply(),
        ),
    }
}

/// CLUSTER MEET ip port [id]: the node `ip:port` joins the metadata, with
/// the given id or the one its address hashes to.
pub open spec fn meet_plan(ip: Seq<char>, port: u16, id: Option<u64>) -> (Seq<StepView>, Reply) {
    let addr = ip + ":"@ + decimal_spec(port as nat);
    let node = match id {
        Some(n) => n,
        None => spec_addr_hash(addr),
    };
    (seq![(OpView::AddNode(node, addr), "Failed to add node to cluster"@)], ok_reply())
}

/// CLUSTER FORGET id: the node leaves the metadata.
pub open spec fn forget_plan(node: u64) -> (Seq<StepView>, Reply) {
    (seq![(OpView::RemoveNode(node), "Failed to remove node"@)], ok_reply())
}

// ---------------------------------------------------------------------------
// Building the plans
// ---------------------------------------------------------------------------

/// Whether `x` is among `v`.
fn contains_id(v: &Vec<u64>, x: u64) -> (r: bool)
    ensures
        r == v@.contains(x),
{
    let mut i: usize = 0;
    while i < v.len()
        invariant
            i <= v@.len(),
            forall|j: int| 0 <= j < i ==> v@[j] != x,
        decreases v.len() - i,
    {
        if v[i] == x {
            proof {
                assert(v@[i as int] == x);
            }
            return true;
        }
        i = i + 1;
    }
    false
}

fn group_matches_exec(g: &GroupMeta, node: u64, kind: u8) -> (r: bool)
    ensures
        r == group_matches(*g, node, kind),
{
    if kind == 0 {
        contains_id(&g.replicas, node)
    } else if kind == 1 {
        g.group_id == node || g.leader == Some(node) || contains_id(&g.replicas, node)
    } else {
        contains_id(&g.replicas, node) && g.leader != Some(node)
    }
}

/// `first_group`.
fn first_group_exec(groups: &Vec<GroupMeta>, node: u64, kind: u8) -> (r: Option<u64>)
    ensures
        r == first_group(groups@, node, kind),
{
    let mut i: usize = 0;
    proof {
        assert(groups@.subrange(0, groups@.len() as int) =~= groups@);
    }
    while i < groups.len()
        invariant
            i <= groups@.len(),
            first_group(groups@, node, kind) == first_group(groups@.subrange(i as int, groups@.len() as int), node, kind),
        decreases groups@.len() - i,
    {
        proof {
            let rest = groups@.subrange(i as int, groups@.len() as int);
            assert(rest.drop_first() =~= groups@.subrange(i + 1, groups@.len() as int));
            assert(rest[0] == groups@[i as int]);
        }
        if group_matches_exec(&groups[i], node, kind) {
            return Some(groups[i].group_id);
        }
        i = i + 1;
    }
    None
}

/// `first_bad_slot`.
fn first_bad_slot_exec(s: &[u16]) -> (r: usize)
    ensures
        r as int == first_bad_slot(s@),
        r <= s@.len(),
        forall|i: int| 0 <= i < r ==> s@[i] < TOTAL_SLOTS,
{
    let mut i: usize = 0;
    proof {
        assert(s@.subrange(0, s@.len() as int) =~= s@);
    }
    while i < s.len()
        invariant
            i <= s@.len(),
            first_bad_slot(s@) == i + first_bad_slot(s@.subrange(i as int, s@.len() as int)),
            forall|j: int| 0 <= j < i ==> s@[j] < TOTAL_SLOTS,
        decreases s@.len() - i,
    {
        proof {
            let rest = s@.subrange(i as int, s@.len() as int);
            assert(rest.drop_first() =~= s@.subrange(i + 1, s@.len() as int));
            assert(rest[0] == s@[i as int]);
        }
        if s[i] >= TOTAL_SLOTS {
            return i;
        }
        i = i + 1;
    }
    proof {
        assert(s@.subrange(s@.len() as int, s@.len() as int) =~= Seq::<u16>::empty());
    }
    i
}

proof fn lemma_insert_slot_at(s: Seq<u16>, x: u16, j: int)
    requires
        0 <= j <= s.len(),
        forall|k: int| 0 <= k < j ==> #[trigger] s[k] <= x,
        j < s.len() ==> s[j] > x,
    ensures
        insert_slot(s, x) == s.insert(j, x),
    decreases j,
{
    if j == 0 {
        if s.len() == 0 {
            assert(s.insert(0, x) =~= seq![x]);
        } else {
            assert(s.insert(0, x) =~= seq![x] + s);
        }
    } else {
        let t = s.drop_first();
        assert forall|k: int| 0 <= k < j - 1 implies #[trigger] t[k] <= x by {
            assert(t[k] == s[k + 1]);
        }
        if j - 1 < t.len() {
            assert(t[j - 1] == s[j]);
        }
        lemma_insert_slot_at(t, x, j - 1);
        assert(s[0] <= x);
        assert(s.insert(j, x) =~= seq![s[0]] + t.insert(j - 1, x));
    }
}

proof fn lemma_insert_slot_bound(t: Seq<u16>, x: u16)
    requires
        forall|i: int| 0 <= i < t.len() ==> #[trigger] t[i] < TOTAL_SLOTS,
        x < TOTAL_SLOTS,
    ensures
        forall|i: int| 0 <= i < insert_slot(t, x).len() ==> #[trigger] insert_slot(t, x)[i] < TOTAL_SLOTS,
    decreases t.len(),
{
    if t.len() > 0 && t[0] <= x {
        let rest = t.drop_first();
        assert forall|i: int| 0 <= i < rest.len() implies #[trigger] rest[i] < TOTAL_SLOTS by {
            assert(rest[i] == t[i + 1]);
        }
        lemma_insert_slot_bound(rest, x);
        let r = insert_slot(t, x);
        assert forall|i: int| 0 <= i < r.len() implies #[trigger] r[i] < TOTAL_SLOTS by {
            if i > 0 {
                assert(r[i] == insert_slot(rest, x)[i - 1]);
            }
        }
    } else if t.len() > 0 {
        let r = insert_slot(t, x);
        assert forall|i: int| 0 <= i < r.len() implies #[trigger] r[i] < TOTAL_SLOTS by {
            if i > 0 {
                assert(r[i] == t[i - 1]);
            }
        }
    }
}

/// Sorting keeps every slot in range.
proof fn lemma_sorted_slots_bound(s: Seq<u16>)
    requires
        forall|i: int| 0 <= i < s.len() ==> #[trigger] s[i] < TOTAL_SLOTS,
    ensures
        forall|i: int| 0 <= i < sorted_slots(s).len() ==> #[trigger] sorted_slots(s)[i] < TOTAL_SLOTS,
    decreases s.len(),
{
    if s.len() > 0 {
        let rest = s.drop_last();
        assert forall|i: int| 0 <= i < rest.len() implies #[trigger] rest[i] < TOTAL_SLOTS by {
            assert(rest[i] == s[i]);
        }
        lemma_sorted_slots_bound(rest);
        assert(s.last() == s[s.len() - 1]);
        lemma_insert_slot_bound(sorted_slots(rest), s.last());
    }
}

proof fn lemma_runs_so_far_bounds(s: Seq<u16>)
    requires
        s.len() >= 1,
        forall|i: int| 0 <= i < s.len() ==> #[trigger] s[i] < TOTAL_SLOTS,
    ensures
        ({
            let (rs, a, b) = runs_so_far(s);
            &&& 0 <= a <= b < TOTAL_SLOTS
            &&& forall|k: int| 0 <= k < rs.len() ==> 0 <= #[trigger] rs[k].0 < rs[k].1 <= TOTAL_SLOTS
        }),
    decreases s.len(),
{
    if s.len() > 1 {
        let rest = s.drop_last();
        assert forall|i: int| 0 <= i < rest.len() implies #[trigger] rest[i] < TOTAL_SLOTS by {
            assert(rest[i] == s[i]);
        }
        lemma_runs_so_far_bounds(rest);
        assert(s.last() == s[s.len() - 1]);
    }
}

/// Every run of in-range slots starts before it ends, within the slot
/// table.
proof fn lemma_runs_bounds(s: Seq<u16>)
    requires
        forall|i: int| 0 <= i < s.len() ==> #[trigger] s[i] < TOTAL_SLOTS,
    ensures
        forall|k: int| 0 <= k < slot_runs_of(s).len() ==> 0 <= #[trigger] slot_runs_of(s)[k].0 < slot_runs_of(s)[k].1
            <= TOTAL_SLOTS,
{
    if s.len() > 0 {
        lemma_runs_so_far_bounds(s);
        let (rs, a, b) = runs_so_far(s);
        let r = rs.push((a, b + 1));
        assert forall|k: int| 0 <= k < r.len() implies 0 <= #[trigger] r[k].0 < r[k].1 <= TOTAL_SLOTS by {
            if k < rs.len() {
                assert(r[k] == rs[k]);
            }
        }
    }
}

/// The slots in increasing order (`sorted_slots`).
fn sort_slots(s: &[u16]) -> (r: Vec<u16>)
    ensures
        r@ == sorted_slots(s@),
{
    let mut out: Vec<u16> = Vec::new();
    let mut i: usize = 0;
    proof {
        assert(s@.take(0) =~= Seq::<u16>::empty());
    }
    while i < s.len()
        invariant
            i <= s@.len(),
            out@ == sorted_slots(s@.take(i as int)),
        decreases s.len() - i,
    {
        proof {
            assert(s@.take(i + 1).drop_last() =~= s@.take(i as int));
        }
        let x = s[i];
        let mut j: usize = 0;
        while j < out.len() && out[j] <= x
            invariant
                j <= out@.len(),
                forall|k: int| 0 <= k < j ==> #[trigger] out@[k] <= x,
            decreases out.len() - j,
        {
            j = j + 1;
        }
        proof {
            lemma_insert_slot_at(out@, x, j as int);
        }
        out.insert(j, x);
        i = i + 1;
    }
    proof {
        assert(s@.take(s@.len() as int) =~= s@);
    }
    out
}

/// The runs of `s` (`slot_runs_of`), when every slot is in range.
fn slot_runs_exec(s: &Vec<u16>) -> (r: Vec<(u16, u16)>)
    requires
        forall|i: int| 0 <= i < s@.len() ==> #[trigger] s@[i] < TOTAL_SLOTS,
    ensures
        r@.len() == slot_runs_of(s@).len(),
        forall|i: int| 0 <= i < r@.len() ==> #[trigger] r@[i].0 as int == slot_runs_of(s@)[i].0 && r@[i].1 as int
            == slot_runs_of(s@)[i].1,
{
    let mut out: Vec<(u16, u16)> = Vec::new();
    if s.len() == 0 {
        return out;
    }
    let mut a: u16 = s[0];
    let mut b: u16 = s[0];
    let mut i: usize = 1;
    proof {
        assert(s@.take(1).len() == 1);
    }
    while i < s.len()
        invariant
            1 <= i <= s@.len(),
            forall|k: int| 0 <= k < s@.len() ==> #[trigger] s@[k] < TOTAL_SLOTS,
            b < TOTAL_SLOTS,
            ({
                let (rs, ra, rb) = runs_so_far(s@.take(i as int));
                &&& ra == a as int
                &&& rb == b as int
                &&& out@.len() == rs.len()
                &&& forall|k: int| 0 <= k < rs.len() ==> #[trigger] out@[k].0 as int == rs[k].0 && out@[k].1 as int
                    == rs[k].1
            }),
        decreases s.len() - i,
    {
        proof {
            assert(s@.take(i + 1).drop_last() =~= s@.take(i as int));
            assert(s@.take(i + 1).last() == s@[i as int]);
        }
        let x = s[i];
        if x as u32 == b as u32 + 1 {
            b = x;
        } else {
            let ghost before = out@;
            out.push((a, b + 1));
            proof {
                let (rs, ra, rb) = runs_so_far(s@.take(i as int));
                let rs2 = rs.push((ra, rb + 1));
                assert forall|k: int| 0 <= k < rs2.len() implies #[trigger] out@[k].0 as int == rs2[k].0 && out@[k].1
                    as int == rs2[k].1 by {
                    if k < rs.len() {
                        assert(out@[k] == before[k]);
                    }
                }
            }
            a = x;
            b = x;
        }
        i = i + 1;
    }
    let ghost before = out@;
    out.push((a, b + 1));
    proof {
        assert(s@.take(s@.len() as int) =~= s@);
        let (rs, ra, rb) = runs_so_far(s@);
        let rs2 = rs.push((ra, rb + 1));
        assert forall|k: int| 0 <= k < rs2.len() implies #[trigger] out@[k].0 as int == rs2[k].0 && out@[k].1 as int
            == rs2[k].1 by {
            if k < rs.len() {
                assert(out@[k] == before[k]);
            }
        }
    }
    out
}

/// `"<prefix>S-E"` with the decimal texts of `a` and `b`.
fn range_text(prefix: &str, a: u64, b: u64) -> (r: String)
    ensures
        r@ == prefix@ + decimal_spec(a as nat) + "-"@ + decimal_spec(b as nat),
{
    let mut s = string_of(prefix);
    push_str(&mut s, u64_to_decimal(a).as_str());
    push_str(&mut s, "-");
    push_str(&mut s, u64_to_decimal(b).as_str());
    s
}

/// `"<prefix>N"` with the decimal text of `n`.
fn number_text(prefix: &str, n: u64) -> (r: String)
    ensures
        r@ == prefix@ + decimal_spec(n as nat),
{
    let mut s = string_of(prefix);
    push_str(&mut s, u64_to_decimal(n).as_str());
    s
}

fn step(op: MetaOp, failure: String) -> (r: MetaStep)
    ensures
        r@ == (op@, failure@),
{
    MetaStep { op, failure }
}

fn ok_answer() -> (r: Result<RespValue, AikvError>)
    ensures
        models(r, ok_reply()),
{
    Ok(RespValue::ok())
}

fn rejected(msg: String) -> (r: Result<RespValue, AikvError>)
    ensures
        models(r, Reply::Fail(Failure::Rejected(msg@))),
{
    Err(AikvError::Invalid(msg))
}

fn internal(msg: String) -> (r: Result<RespValue, AikvError>)
    ensures
        models(r, Reply::Fail(Failure::Internal(msg@))),
{
    Err(AikvError::Internal(msg))
}

/// Adds the steps that unassign each slot of group `gid` to `steps`.
fn push_clear_steps(steps: &mut Vec<MetaStep>, slots: &Vec<u64>, gid: u64, failure: &str)
    ensures
        step_views(final(steps)@) == step_views(old(steps)@) + clear_steps(slots@, gid, slots@.len(), failure@),
{
    let ghost start = step_views(steps@);
    let mut i: usize = 0;
    proof {
        assert(step_views(steps@) =~= start + clear_steps(slots@, gid, 0, failure@));
    }
    while i < slots.len()
        invariant
            i <= slots@.len(),
            step_views(steps@) == start + clear_steps(slots@, gid, i as nat, failure@),
        decreases slots.len() - i,
    {
        if slots[i] == gid {
            let ghost before = step_views(steps@);
            #[verifier::truncate]
            let from = i as u16;
            #[verifier::truncate]
            let to = (i as u64 + 1) as u16;
            proof {
                assert(from == i as u16);
                assert(to == (i + 1) as u16) by (bit_vector)
                    requires
                        to == ((i as u64 + 1) as u16),
                        i < 0xffff_ffff_ffff_ffff,
                ;
            }
            steps.push(step(MetaOp::UpdateSlots(from, to, 0), string_of(failure)));
            proof {
                assert(step_views(steps@) =~= before.push((OpView::UpdateSlots(i as u16, (i + 1) as u16, 0), failure@)));
            }
        }
        i = i + 1;
    }
}

/// The clearing steps for the groups `me` leads (`led_clear_steps`).
fn led_clear_steps_exec(meta: &ClusterMeta, me: u64, failure: &str) -> (r: Vec<MetaStep>)
    ensures
        step_views(r@) == led_clear_steps(*meta, me, meta.groups@.len(), failure@),
{
    let mut steps: Vec<MetaStep> = Vec::new();
    let mut i: usize = 0;
    proof {
        assert(step_views(steps@) =~= Seq::<StepView>::empty());
    }
    while i < meta.groups.len()
        invariant
            i <= meta.groups@.len(),
            step_views(steps@) == led_clear_steps(*meta, me, i as nat, failure@),
        decreases meta.groups.len() - i,
    {
        if meta.groups[i].leader == Some(me) {
            push_clear_steps(&mut steps, &meta.slots, meta.groups[i].group_id, failure);
        }
        i = i + 1;
    }
    steps
}

impl ClusterCommands {
    /// CLUSTER ADDSLOTS slot...: the plan (see `addslots_plan`).
    pub fn cluster_addslots(&self, slots: Vec<u16>) -> (r: CommandPlan)
        ensures
            ({
                let (st, a) = addslots_plan(self.spec_meta(), self.spec_node_id(), slots@);
                plan_is(r, st, a)
            }),
    {
        let meta = self.meta();
        let me = self.node_id();
        let mut steps: Vec<MetaStep> = Vec::new();
        let gid = match first_group_exec(&meta.groups, me, 0) {
            Some(g) => g,
            None => {
                let mut members: Vec<u64> = Vec::new();
                members.push(me);
                steps.push(step(MetaOp::CreateGroup(me, members), string_of("Failed to create group for node")));
                me
            },
        };
        let ghost pre = step_views(steps@);
        proof {
            assert(pre =~= match group_of_member(meta.groups@, me) {
                Some(_) => Seq::<StepView>::empty(),
                None => seq![(OpView::CreateGroup(me, seq![me]), "Failed to create group for node"@)],
            });
        }
        let bad = first_bad_slot_exec(slots.as_slice());
        if bad < slots.len() {
            return CommandPlan { steps, answer: rejected(number_text("Invalid slot: ", slots[bad] as u64)) };
        }
        let sorted = sort_slots(slots.as_slice());
        proof {
            lemma_sorted_slots_bound(slots@);
        }
        let runs = slot_runs_exec(&sorted);
        let ghost want = slot_runs_of(sorted@);
        proof {
            lemma_runs_bounds(sorted@);
        }
        let mut k: usize = 0;
        while k < runs.len()
            invariant
                k <= runs@.len(),
                runs@.len() == want.len(),
                forall|i: int| 0 <= i < runs@.len() ==> #[trigger] runs@[i].0 as int == want[i].0 && runs@[i].1 as int
                    == want[i].1,
                forall|i: int| 0 <= i < want.len() ==> 0 <= #[trigger] want[i].0 < want[i].1 <= TOTAL_SLOTS,
                step_views(steps@) == pre + want.take(k as int).map_values(
                    |r: (int, int)|
                        (
                            OpView::UpdateSlots(r.0 as u16, r.1 as u16, gid),
                            "Failed to assign slots "@ + decimal_spec(r.0 as nat) + "-"@ + decimal_spec((r.1 - 1) as nat),
                        ),
                ),
            decreases runs.len() - k,
        {
            let (a, e) = runs[k];
            let ghost before = step_views(steps@);
            let ghost f = |r: (int, int)|
                (
                    OpView::UpdateSlots(r.0 as u16, r.1 as u16, gid),
                    "Failed to assign slots "@ + decimal_spec(r.0 as nat) + "-"@ + decimal_spec((r.1 - 1) as nat),
                );
            steps.push(step(MetaOp::UpdateSlots(a, e, gid), range_text("Failed to assign slots ", a as u64, (e - 1) as u64)));
            proof {
                let w = want[k as int];
                assert(w.0 == a as int && w.1 == e as int);
                assert(w.0 as u16 == a && w.1 as u16 == e);
                assert(f(w) == (OpView::UpdateSlots(a, e, gid), "Failed to assign slots "@ + decimal_spec(a as nat) + "-"@
                    + decimal_spec((e - 1) as nat)));
                assert(want.take(k + 1) =~= want.take(k as int).push(w));
                assert(want.take(k + 1).map_values(f) =~= want.take(k as int).map_values(f).push(f(w)));
                assert(step_views(steps@) =~= before.push(f(w)));
            }
            k = k + 1;
        }
        proof {
            assert(want.take(want.len() as int) =~= want);
        }
        CommandPlan { steps, answer: ok_answer() }
    }
}


impl ClusterCommands {
    /// CLUSTER ADDSLOTSRANGE start end [node]: the plan (see
    /// `addslotsrange_plan`).
    pub fn cluster_addslotsrange(&self, start: u16, end: u16, target_node_id: u64) -> (r: CommandPlan)
        ensures
            ({
                let (st, a) = addslotsrange_plan(self.spec_meta(), self.spec_node_id(), start, end, target_node_id);
                plan_is(r, st, a)
            }),
    {
        let meta = self.meta();
        let mut steps: Vec<MetaStep> = Vec::new();
        proof {
            assert(step_views(steps@) =~= Seq::<StepView>::empty());
        }
        if target_node_id != 0 && find_node_exec(&meta.nodes, target_node_id).is_none() {
            let mut msg = string_of("Target node ");
            push_str(&mut msg, hex40_text(target_node_id).as_str());
            push_str(&mut msg, " not found in cluster");
            return CommandPlan { steps, answer: rejected(msg) };
        }
        let node = if target_node_id == 0 {
            self.node_id()
        } else {
            target_node_id
        };
        let gid = match first_group_exec(&meta.groups, node, 0) {
            Some(g) => g,
            None => {
                let mut members: Vec<u64> = Vec::new();
                members.push(node);
                steps.push(step(MetaOp::CreateGroup(node, members), string_of("Failed to create group for node")));
                steps.push(step(MetaOp::UpdateGroupLeader(node, node), string_of("Failed to set group leader")));
                node
            },
        };
        let ghost pre = step_views(steps@);
        proof {
            assert(pre =~= match group_of_member(meta.groups@, node) {
                Some(_) => Seq::<StepView>::empty(),
                None => seq![
                    (OpView::CreateGroup(node, seq![node]), "Failed to create group for node"@),
                    (OpView::UpdateGroupLeader(node, node), "Failed to set group leader"@),
                ],
            });
        }
        if start > end || end >= TOTAL_SLOTS {
            return CommandPlan {
                steps,
                answer: rejected(range_text("Invalid slot range: ", start as u64, end as u64)),
            };
        }
        steps.push(
            step(MetaOp::UpdateSlots(start, end + 1, gid), range_text("Failed to assign slots ", start as u64, end as u64)),
        );
        proof {
            assert(step_views(steps@) =~= pre.push(
                (
                    OpView::UpdateSlots(start, (end + 1) as u16, gid),
                    "Failed to assign slots "@ + decimal_spec(start as nat) + "-"@ + decimal_spec(end as nat),
                ),
            ));
        }
        CommandPlan { steps, answer: ok_answer() }
    }

    /// CLUSTER DELSLOTS slot...: the plan (see `delslots_plan`).
    pub fn cluster_delslots(&self, slots: Vec<u16>) -> (r: CommandPlan)
        ensures
            ({
                let (st, a) = delslots_plan(slots@);
                plan_is(r, st, a)
            }),
    {
        let bad = first_bad_slot_exec(slots.as_slice());
        let ghost want = delslots_plan(slots@).0;
        let mut steps: Vec<MetaStep> = Vec::new();
        let mut i: usize = 0;
        while i < bad
            invariant
                i <= bad <= slots@.len(),
                bad == first_bad_slot(slots@),
                forall|j: int| 0 <= j < bad ==> slots@[j] < TOTAL_SLOTS,
                want == delslots_plan(slots@).0,
                step_views(steps@) == want.take(i as int),
            decreases bad - i,
        {
            let x = slots[i];
            let ghost before = step_views(steps@);
            steps.push(step(MetaOp::UpdateSlots(x, x + 1, 0), number_text("Failed to delete slot ", x as u64)));
            proof {
                assert(want.len() == bad);
                assert(want[i as int] == (OpView::UpdateSlots(x, (x + 1) as u16, 0), "Failed to delete slot "@
                    + decimal_spec(x as nat)));
                assert(step_views(steps@) =~= before.push(want[i as int]));
                assert(want.take(i + 1) =~= want.take(i as int).push(want[i as int]));
            }
            i = i + 1;
        }
        proof {
            assert(want.take(bad as int) =~= want);
        }
        if bad < slots.len() {
            CommandPlan { steps, answer: rejected(number_text("Invalid slot: ", slots[bad] as u64)) }
        } else {
            CommandPlan { steps, answer: ok_answer() }
        }
    }

    /// CLUSTER DELSLOTSRANGE start end: the plan (see `delslotsrange_plan`).
    pub fn cluster_delslotsrange(&self, start: u16, end: u16) -> (r: CommandPlan)
        ensures
            ({
                let (st, a) = delslotsrange_plan(start, end);
                plan_is(r, st, a)
            }),
    {
        let mut steps: Vec<MetaStep> = Vec::new();
        if start > end || end >= TOTAL_SLOTS {
            proof {
                assert(step_views(steps@) =~= Seq::<StepView>::empty());
            }
            return CommandPlan { steps, answer: rejected(range_text("Invalid slot range: ", start as u64, end as u64)) };
        }
        steps.push(
            step(MetaOp::UpdateSlots(start, end + 1, 0), range_text("Failed to delete slots ", start as u64, end as u64)),
        );
        proof {
            assert(step_views(steps@) =~= delslotsrange_plan(start, end).0);
        }
        CommandPlan { steps, answer: ok_answer() }
    }

    /// CLUSTER FLUSHSLOTS: the plan (see `flushslots_plan`).
    pub fn cluster_flushslots(&self) -> (r: CommandPlan)
        ensures
            ({
                let (st, a) = flushslots_plan(self.spec_meta(), self.spec_node_id());
                plan_is(r, st, a)
            }),
    {
        let steps = led_clear_steps_exec(self.meta(), self.node_id(), "Failed to flush slot");
        CommandPlan { steps, answer: ok_answer() }
    }

    /// CLUSTER RESET [HARD | SOFT]: the plan (see `reset_plan`).
    pub fn cluster_reset(&self, hard: bool) -> (r: CommandPlan)
        ensures
            ({
                let (st, a) = reset_plan(self.spec_meta(), self.spec_node_id(), hard);
                plan_is(r, st, a)
            }),
    {
        let steps = if hard {
            led_clear_steps_exec(self.meta(), self.node_id(), "Failed to clear slot")
        } else {
            let v: Vec<MetaStep> = Vec::new();
            proof {
                assert(step_views(v@) =~= Seq::<StepView>::empty());
            }
            v
        };
        CommandPlan { steps, answer: ok_answer() }
    }

    /// Adding `replica` to the group of `master`, with the failure text of
    /// REPLICATE (`named` false) or ADDREPLICATION (`named` true).
    fn join_group(&self, replica: u64, master: u64, named: bool) -> (r: CommandPlan)
        ensures
            ({
                let (st, a) = if named {
                    add_replication_plan(self.spec_meta(), replica, master)
                } else {
                    replicate_plan(self.spec_meta(), replica, master)
                };
                plan_is(r, st, a)
            }),
    {
        let meta = self.meta();
        let mut steps: Vec<MetaStep> = Vec::new();
        proof {
            assert(step_views(steps@) =~= Seq::<StepView>::empty());
        }
        let gid = match first_group_exec(&meta.groups, master, 1) {
            Some(g) => g,
            None => {
                let mut msg = string_of("Master node ");
                push_str(&mut msg, hex40_text(master).as_str());
                push_str(&mut msg, " does not belong to any group");
                return CommandPlan { steps, answer: internal(msg) };
            },
        };
        let gi = match find_group_exec(&meta.groups, gid) {
            Some(i) => i,
            None => {
                let mut msg = number_text("Group ", gid);
                push_str(&mut msg, " not found");
                return CommandPlan { steps, answer: internal(msg) };
            },
        };
        let group = &meta.groups[gi];
        if !contains_id(&group.replicas, replica) {
            let mut members = copy_ids(&group.replicas);
            members.push(replica);
            let failure = if named {
                let mut m = string_of("Failed to add replica ");
                push_str(&mut m, hex40_text(replica).as_str());
                push_str(&mut m, " to group ");
                push_str(&mut m, u64_to_decimal(gid).as_str());
                m
            } else {
                number_text("Failed to add replica to group ", gid)
            };
            steps.push(step(MetaOp::UpdateGroupMembers(gid, members), failure));
            proof {
                assert(step_views(steps@) =~= (if named {
                    add_replication_plan(self.spec_meta(), replica, master)
                } else {
                    replicate_plan(self.spec_meta(), replica, master)
                }).0);
            }
        }
        CommandPlan { steps, answer: ok_answer() }
    }

    /// CLUSTER REPLICATE master: the plan (see `replicate_plan`).
    pub fn cluster_replicate(&self, master_id: u64) -> (r: CommandPlan)
        ensures
            ({
                let (st, a) = replicate_plan(self.spec_meta(), self.spec_node_id(), master_id);
                plan_is(r, st, a)
            }),
    {
        self.join_group(self.node_id(), master_id, false)
    }

    /// CLUSTER ADDREPLICATION replica master: the plan (see
    /// `add_replication_plan`).
    pub fn cluster_add_replication(&self, replica_id: u64, master_id: u64) -> (r: CommandPlan)
        ensures
            ({
                let (st, a) = add_replication_plan(self.spec_meta(), replica_id, master_id);
                plan_is(r, st, a)
            }),
    {
        self.join_group(replica_id, master_id, true)
    }

    /// CLUSTER FAILOVER [FORCE | TAKEOVER]: the plan (see `failover_plan`).
    pub fn cluster_failover(&self, mode: FailoverMode) -> (r: CommandPlan)
        ensures
            ({
                let (st, a) = failover_plan(self.spec_meta(), self.spec_node_id(), mode);
                plan_is(r, st, a)
            }),
    {
        let me = self.node_id();
        let mut steps: Vec<MetaStep> = Vec::new();
        match first_group_exec(&self.meta().groups, me, 2) {
            None => {
                proof {
                    assert(step_views(steps@) =~= Seq::<StepView>::empty());
                }
                CommandPlan {
                    steps,
                    answer: rejected(string_of("This node is not a replica or already a master")),
                }
            },
            Some(gid) => {
                let failure = match mode {
                    FailoverMode::Takeover => string_of("Failed to perform takeover"),
                    _ => string_of("Failed to perform failover"),
                };
                steps.push(step(MetaOp::UpdateGroupLeader(gid, me), failure));
                proof {
                    assert(step_views(steps@) =~= failover_plan(self.spec_meta(), me, mode).0);
                }
                CommandPlan { steps, answer: ok_answer() }
            },
        }
    }

    /// CLUSTER MEET ip port [id]: the plan (see `meet_plan`).
    pub fn cluster_meet(&self, ip: String, port: u16, node_id_opt: Option<u64>) -> (r: CommandPlan)
        ensures
            ({
                let (st, a) = meet_plan(ip@, port, node_id_opt);
                plan_is(r, st, a)
            }),
    {
        let mut addr = ip;
        push_str(&mut addr, ":");
        push_str(&mut addr, u64_to_decimal(port as u64).as_str());
        let node = match node_id_opt {
            Some(n) => n,
            None => Self::generate_node_id_from_addr(addr.as_str()),
        };
        let mut steps: Vec<MetaStep> = Vec::new();
        steps.push(step(MetaOp::AddNode(node, addr), string_of("Failed to add node to cluster")));
        proof {
            assert(step_views(steps@) =~= meet_plan(ip@, port, node_id_opt).0);
        }
        CommandPlan { steps, answer: ok_answer() }
    }

    /// CLUSTER FORGET id: the plan (see `forget_plan`).
    pub fn cluster_forget(&self, node_id: u64) -> (r: CommandPlan)
        ensures
            ({
                let (st, a) = forget_plan(node_id);
                plan_is(r, st, a)
            }),
    {
        let mut steps: Vec<MetaStep> = Vec::new();
        steps.push(step(MetaOp::RemoveNode(node_id), string_of("Failed to remove node")));
        proof {
            assert(step_views(steps@) =~= forget_plan(node_id).0);
        }
        CommandPlan { steps, answer: ok_answer() }
    }

    /// A fresh node id: the clock's nanoseconds mixed with a random word;
    /// nothing is promised of it.
    pub fn generate_node_id() -> (r: u64) {
        crate::observability::tracing_setup::unix_time_nanos() ^ random_word()
    }

    /// The id every node gives the node at `addr`: its hash under std's
    /// default hasher.
    pub fn generate_node_id_from_addr(addr: &str) -> (r: u64)
        ensures
            r == spec_addr_hash(addr@),
    {
        default_hash(addr)
    }
}

/// A copy of a list of ids.
fn copy_ids(v: &Vec<u64>) -> (r: Vec<u64>)
    ensures
        r@ == v@,
{
    let mut r: Vec<u64> = Vec::new();
    let mut i: usize = 0;
    while i < v.len()
        invariant
            i <= v@.len(),
            r@ == v@.take(i as int),
        decreases v.len() - i,
    {
        r.push(v[i]);
        i = i + 1;
        proof {
            assert(r@ =~= v@.take(i as int));
        }
    }
    proof {
        assert(v@.take(v@.len() as int) =~= v@);
    }
    r
}

// ---------------------------------------------------------------------------
// Outside calls
// ---------------------------------------------------------------------------

/// What std's default hasher (`DefaultHasher::new()`, fixed keys) gives for
/// a string.
pub uninterp spec fn spec_addr_hash(addr: Seq<char>) -> u64;

/// `BuildHasherDefault::<DefaultHasher>::default().hash_one(addr)`: the
/// hash of the text under std's default hasher, whose keys are fixed, so
/// that every node computes the same id for an address.
#[verifier::external_body]
fn default_hash(addr: &str) -> (r: u64)
    ensures
        r == spec_addr_hash(addr@),
{
    std::hash::BuildHasher::hash_one(
        &std::hash::BuildHasherDefault::<std::collections::hash_map::DefaultHasher>::default(),
        addr,
    )
}

/// A random word (rand's `random::<u64>()`); it depends on chance.
#[verifier::external_body]
fn random_word() -> (r: u64) {
    rand::random::<u64>()
}

} // verus!

