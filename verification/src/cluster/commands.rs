//! The CLUSTER command family, answered from a snapshot of the cluster
//! metadata and this node's id.
use crate::cluster::meta::{
    assigned_count, cluster_ok_spec, data_address_spec, extract_data_address, find_group, find_group_exec, find_node,
    find_node_exec, ownership_result_matches, ownership_spec, ClusterMeta, GroupMeta, MetaNodeInfo, MetaNodeStatus,
};
pub use crate::cluster::admin::{CommandPlan, FailoverMode, MetaOp, MetaStep};
use crate::cluster::slot::{key_slot_spec, key_to_slot};
use crate::command::reply::{
    arg_option, arg_text, arg_views, arity_error, key_of, lemma_arg_views, models, option_of, text_bytes, Failure,
    Reply,
};
use crate::error::AikvError;
use crate::protocol::RespValue;
use crate::text::{
    after_last, decimal_spec, hex_fixed_spec, join_spec, join_strings, parse_unsigned_spec, push_hex_fixed, push_str,
    str_after_last, str_eq, string_of, u64_to_decimal, views,
};
use vstd::prelude::*;
use vstd::utf8::encode_utf8;

verus! {

/// The kind of redirect a node answers for a key it does not serve.
#[derive(Debug, Clone, Copy, PartialEq, Eq)]
pub enum RedirectType {
    /// MOVED: the key belongs to another node.
    Moved,
    /// ASK: the key's slot is being migrated to another node.
    Ask,
}

/// A node or group id as CLUSTER prints it: forty lowercase hexadecimal
/// digits, zero padded.
pub open spec fn hex40(n: u64) -> Seq<char> {
    "000000000000000000000000"@ + hex_fixed_spec(n as nat, 16)
}

/// The runs of consecutive slots that group `g` holds among the first `n`
/// slots: the closed runs, and the run still open at slot `n - 1`.
pub open spec fn runs_fold(s: Seq<u64>, g: u64, n: nat) -> (Seq<(int, int)>, Option<(int, int)>)
    decreases n,
{
    if n == 0 {
        (Seq::empty(), None)
    } else {
        let prev = runs_fold(s, g, (n - 1) as nat);
        let i = n - 1;
        if s[i] == g {
            (
                prev.0,
                Some(
                    match prev.1 {
                        None => (i, i),
                        Some(r) => (r.0, i),
                    },
                ),
            )
        } else {
            match prev.1 {
                Some(r) => (prev.0.push(r), None),
                None => (prev.0, None),
            }
        }
    }
}

/// The maximal runs of consecutive slots that group `g` holds, in slot
/// order, as first and last slot.
pub open spec fn group_runs(s: Seq<u64>, g: u64) -> Seq<(int, int)> {
    let f = runs_fold(s, g, s.len());
    match f.1 {
        Some(r) => f.0.push(r),
        None => f.0,
    }
}

/// The runs of consecutive slots held by one group, among the first `n`
/// slots, as CLUSTER SLOTS walks them: an unassigned slot or a change of
/// group closes a run at the slot before.
pub open spec fn slot_runs_fold(s: Seq<u64>, n: nat) -> (Seq<(int, int, u64)>, Option<(int, u64)>)
    decreases n,
{
    if n == 0 {
        (Seq::empty(), None)
    } else {
        let prev = slot_runs_fold(s, (n - 1) as nat);
        let i = n - 1;
        let g = s[i];
        if g == 0 {
            match prev.1 {
                Some(c) => (prev.0.push((c.0, i - 1, c.1)), None),
                None => (prev.0, None),
            }
        } else {
            match prev.1 {
                None => (prev.0, Some((i, g))),
                Some(c) => if c.1 != g {
                    (prev.0.push((c.0, i - 1, c.1)), Some((i, g)))
                } else {
                    prev
                },
            }
        }
    }
}

/// The runs CLUSTER SLOTS reports: a run still open at the end closes at
/// slot 16383.
pub open spec fn slot_runs(s: Seq<u64>) -> Seq<(int, int, u64)> {
    let f = slot_runs_fold(s, s.len());
    match f.1 {
        Some(c) => f.0.push((c.0, 16383, c.1)),
        None => f.0,
    }
}

/// What the runs among the first `n` slots satisfy: each closed run lies
/// below `n` and every slot in it belongs to its group, which is not 0; the
/// open run, if any, starts below `n` and every slot from its start up to
/// `n` belongs to its group; and every assigned slot below `n` lies in a
/// closed run or at or after the start of the open run.
proof fn lemma_slot_runs_fold(s: Seq<u64>, n: nat)
    requires
        n <= s.len(),
    ensures
        forall|r: int|
            0 <= r < slot_runs_fold(s, n).0.len() ==> {
                let run = #[trigger] slot_runs_fold(s, n).0[r];
                &&& 0 <= run.0 <= run.1 < n
                &&& run.2 != 0
                &&& forall|i: int| run.0 <= i <= run.1 ==> s[i] == run.2
            },
        slot_runs_fold(s, n).1 matches Some(c) ==> {
            &&& 0 <= c.0 < n
            &&& c.1 != 0
            &&& forall|i: int| c.0 <= i < n ==> s[i] == c.1
        },
        forall|i: int|
            0 <= i < n && s[i] != 0 ==> (exists|r: int|
                0 <= r < slot_runs_fold(s, n).0.len() && #[trigger] slot_runs_fold(s, n).0[r].0 <= i
                    <= slot_runs_fold(s, n).0[r].1) || (slot_runs_fold(s, n).1 matches Some(c) && c.0 <= i),
    decreases n,
{
    if n > 0 {
        lemma_slot_runs_fold(s, (n - 1) as nat);
        let prev = slot_runs_fold(s, (n - 1) as nat);
        let cur = slot_runs_fold(s, n);
        let i = n - 1;
        assert forall|j: int| 0 <= j < n && s[j] != 0 implies (exists|r: int|
            0 <= r < cur.0.len() && #[trigger] cur.0[r].0 <= j <= cur.0[r].1) || (cur.1 matches Some(c) && c.0 <= j) by {
            if j < i {
                if exists|r: int| 0 <= r < prev.0.len() && #[trigger] prev.0[r].0 <= j <= prev.0[r].1 {
                    let r = choose|r: int| 0 <= r < prev.0.len() && #[trigger] prev.0[r].0 <= j <= prev.0[r].1;
                    assert(cur.0[r] == prev.0[r]);
                } else if cur.0.len() > prev.0.len() {
                    assert(cur.0[prev.0.len() as int].0 <= j <= cur.0[prev.0.len() as int].1);
                }
            }
        }
    }
}

/// CLUSTER SLOTS reports exactly the assigned slots, each with the group
/// that holds it: every slot of a reported range belongs to the range's
/// group (so no unassigned slot is reported), and every assigned slot lies
/// in a reported range.
pub proof fn law_slot_runs_report_their_group(s: Seq<u64>)
    requires
        s.len() == 16384,
    ensures
        forall|r: int|
            0 <= r < slot_runs(s).len() ==> {
                let run = #[trigger] slot_runs(s)[r];
                &&& 0 <= run.0 <= run.1 < 16384
                &&& run.2 != 0
                &&& forall|i: int| run.0 <= i <= run.1 ==> s[i] == run.2
            },
        forall|i: int|
            0 <= i < 16384 && s[i] != 0 ==> exists|r: int|
                0 <= r < slot_runs(s).len() && #[trigger] slot_runs(s)[r].0 <= i <= slot_runs(s)[r].1,
{
    lemma_slot_runs_fold(s, s.len());
    let f = slot_runs_fold(s, s.len());
    let out = slot_runs(s);
    assert forall|i: int| 0 <= i < 16384 && s[i] != 0 implies exists|r: int|
        0 <= r < out.len() && #[trigger] out[r].0 <= i <= out[r].1 by {
        if exists|r: int| 0 <= r < f.0.len() && #[trigger] f.0[r].0 <= i <= f.0[r].1 {
            let r = choose|r: int| 0 <= r < f.0.len() && #[trigger] f.0[r].0 <= i <= f.0[r].1;
            assert(out[r] == f.0[r]);
        } else {
            assert(out[f.0.len() as int].0 <= i <= out[f.0.len() as int].1);
        }
    }
}

/// The port after the last `:` of an address, as a `u16` (6379 when it is
/// not one).
pub open spec fn port_or_default(addr: Seq<char>) -> nat {
    match parse_unsigned_spec(after_last(addr, ':'), 65535) {
        Some(p) => p,
        None => 6379,
    }
}

/// The cluster bus port for a client address: its port plus 10000, in
/// 16-bit arithmetic.
pub open spec fn bus_port(addr: Seq<char>) -> nat {
    (port_or_default(addr) + 10000) % 65536
}

/// The text before the last `:` of an address.
pub open spec fn before_last_colon(addr: Seq<char>) -> Seq<char> {
    addr.subrange(0, addr.len() - after_last(addr, ':').len() - 1)
}

/// An address split at its last `:` into host and port (6379 when the port
/// is not an `i64`, or when there is no `:`).
pub open spec fn split_addr(addr: Seq<char>) -> (Seq<char>, int) {
    if addr.contains(':') {
        (
            before_last_colon(addr),
            match crate::text::parse_i64_spec(after_last(addr, ':')) {
                Some(p) => p,
                None => 6379,
            },
        )
    } else {
        (addr, 6379)
    }
}

/// A bulk string of text.
pub open spec fn text_reply(t: Seq<char>) -> Reply {
    Reply::Bulk(encode_utf8(t))
}

/// `a-b` for a run of slots.
pub open spec fn run_text(r: (int, int)) -> Seq<char> {
    decimal_spec(r.0 as nat) + "-"@ + decimal_spec(r.1 as nat)
}

/// The runs of every group that node `id` leads, group by group.
pub open spec fn led_runs(groups: Seq<GroupMeta>, s: Seq<u64>, id: u64) -> Seq<(int, int)>
    decreases groups.len(),
{
    if groups.len() == 0 {
        Seq::empty()
    } else {
        led_runs(groups.drop_last(), s, id) + if groups.last().leader == Some(id) {
            group_runs(s, groups.last().group_id)
        } else {
            Seq::empty()
        }
    }
}

/// Node `id` leads some group.
pub open spec fn leads_any(groups: Seq<GroupMeta>, id: u64) -> bool {
    exists|i: int| 0 <= i < groups.len() && #[trigger] groups[i].leader == Some(id)
}

/// The leader of the first group that has `id` among its replicas and has
/// a leader.
pub open spec fn replica_leader(groups: Seq<GroupMeta>, id: u64) -> Option<u64>
    decreases groups.len(),
{
    if groups.len() == 0 {
        None
    } else if groups[0].replicas@.contains(id) && groups[0].leader is Some {
        groups[0].leader
    } else {
        replica_leader(groups.drop_first(), id)
    }
}

/// The link state CLUSTER NODES shows for a node.
pub open spec fn link_state(st: MetaNodeStatus) -> Seq<char> {
    match st {
        MetaNodeStatus::Offline => "disconnected"@,
        _ => "connected"@,
    }
}

/// The line CLUSTER NODES writes for a node: id, `address@busport`, flags,
/// master, ping and pong times, epoch, link state and slot runs.
pub open spec fn node_line(meta: ClusterMeta, me: u64, n: MetaNodeInfo) -> Seq<char> {
    let master = leads_any(meta.groups@, n.node_id);
    let data = data_address_spec(n.addr@);
    let master_id = if master {
        "-"@
    } else {
        match replica_leader(meta.groups@, n.node_id) {
            Some(l) => hex40(l),
            None => "-"@,
        }
    };
    let runs = if master {
        led_runs(meta.groups@, meta.slots@, n.node_id)
    } else {
        Seq::empty()
    };
    hex40(n.node_id) + " "@ + data + "@"@ + decimal_spec(bus_port(data)) + " "@ + (if n.node_id == me {
        "myself,"@
    } else {
        Seq::empty()
    }) + (if master {
        "master"@
    } else {
        "slave"@
    }) + " "@ + master_id + " 0 0 "@ + decimal_spec(meta.config_version as nat) + " "@ + link_state(n.status) + " "@
        + join_spec(runs.map_values(|r: (int, int)| run_text(r)), " "@)
}

/// What CLUSTER NODES answers: one line per node, joined by CRLF.
pub open spec fn nodes_reply(meta: ClusterMeta, me: u64) -> Reply {
    text_reply(join_spec(meta.nodes@.map_values(|n: MetaNodeInfo| node_line(meta, me, n)), "\r\n"@))
}

/// What CLUSTER INFO answers.
pub open spec fn info_text(meta: ClusterMeta) -> Seq<char> {
    let assigned = decimal_spec(assigned_count(meta.slots@));
    let epoch = decimal_spec(meta.config_version as nat);
    "cluster_state:"@ + (if cluster_ok_spec(meta) {
        "ok"@
    } else {
        "fail"@
    }) + "\r\ncluster_slots_assigned:"@ + assigned + "\r\ncluster_slots_ok:"@ + assigned
        + "\r\ncluster_slots_pfail:0\r\ncluster_slots_fail:0\r\ncluster_known_nodes:"@ + decimal_spec(
        meta.nodes@.len(),
    ) + "\r\ncluster_size:"@ + decimal_spec(meta.groups@.len()) + "\r\ncluster_current_epoch:"@ + epoch
        + "\r\ncluster_my_epoch:"@ + epoch + "\r\ncluster_stats_messages_sent:0\r\ncluster_stats_messages_received:0"@
}

/// The nodes among `reps` other than `leader` that have a record, each
/// answered by `f`, in order.
pub open spec fn replica_replies(
    nodes: Seq<MetaNodeInfo>,
    reps: Seq<u64>,
    leader: Option<u64>,
    f: spec_fn(u64, MetaNodeInfo) -> Reply,
) -> Seq<Reply>
    decreases reps.len(),
{
    if reps.len() == 0 {
        Seq::empty()
    } else {
        let prev = replica_replies(nodes, reps.drop_last(), leader, f);
        let r = reps.last();
        if Some(r) != leader && find_node(nodes, r) is Some {
            prev.push(f(r, find_node(nodes, r).unwrap()))
        } else {
            prev
        }
    }
}

/// The leader of `g` answered by `f`, when it has a record, then the other
/// replicas answered by `h`.
pub open spec fn group_member_replies(
    nodes: Seq<MetaNodeInfo>,
    g: GroupMeta,
    f: spec_fn(u64, MetaNodeInfo) -> Reply,
    h: spec_fn(u64, MetaNodeInfo) -> Reply,
) -> Seq<Reply> {
    let lead = match g.leader {
        Some(l) => match find_node(nodes, l) {
            Some(n) => seq![f(l, n)],
            None => Seq::empty(),
        },
        None => Seq::empty(),
    };
    lead + replica_replies(nodes, g.replicas@, g.leader, h)
}

/// A node in a CLUSTER SLOTS entry: host, port and id.
pub open spec fn slot_node_reply(id: u64, n: MetaNodeInfo) -> Reply {
    let a = split_addr(data_address_spec(n.addr@));
    Reply::Array(seq![text_reply(a.0), Reply::Int(a.1), text_reply(hex40(id))])
}

/// How a member node is answered: 0 in CLUSTER SLOTS, 1 and 2 in CLUSTER
/// SHARDS as master and as replica, 3 as a CLUSTER REPLICAS line for
/// `master`.
pub open spec fn member_reply(meta: ClusterMeta, master: u64, kind: u8, id: u64, n: MetaNodeInfo) -> Reply {
    if kind == 0 {
        slot_node_reply(id, n)
    } else if kind == 1 {
        shard_node_reply(id, n, "master"@)
    } else if kind == 2 {
        shard_node_reply(id, n, "replica"@)
    } else {
        text_reply(replica_line(meta, master, id, n))
    }
}

/// A CLUSTER SLOTS entry: first and last slot, then the group's nodes.
pub open spec fn slot_entry(meta: ClusterMeta, r: (int, int, u64)) -> Reply {
    Reply::Array(
        seq![Reply::Int(r.0), Reply::Int(r.1)] + match find_group(meta.groups@, r.2) {
            Some(g) => group_member_replies(
                meta.nodes@,
                g,
                |id: u64, n: MetaNodeInfo| member_reply(meta, 0, 0, id, n),
                |id: u64, n: MetaNodeInfo| member_reply(meta, 0, 0, id, n),
            ),
            None => Seq::empty(),
        },
    )
}

/// What CLUSTER SLOTS answers.
pub open spec fn slots_reply(meta: ClusterMeta) -> Reply {
    Reply::Array(slot_runs(meta.slots@).map_values(|r: (int, int, u64)| slot_entry(meta, r)))
}

/// The health CLUSTER SHARDS shows for a node.
pub open spec fn health_of(st: MetaNodeStatus) -> Seq<char> {
    match st {
        MetaNodeStatus::Online => "online"@,
        MetaNodeStatus::Offline => "offline"@,
        _ => "loading"@,
    }
}

/// A node in a CLUSTER SHARDS entry, with its role.
pub open spec fn shard_node_reply(id: u64, n: MetaNodeInfo, role: Seq<char>) -> Reply {
    let a = split_addr(data_address_spec(n.addr@));
    Reply::Array(
        seq![
            text_reply("id"@),
            text_reply(hex40(id)),
            text_reply("port"@),
            Reply::Int(a.1),
            text_reply("ip"@),
            text_reply(a.0),
            text_reply("endpoint"@),
            text_reply(a.0),
            text_reply("role"@),
            text_reply(role),
            text_reply("replication-offset"@),
            Reply::Int(0),
            text_reply("health"@),
            text_reply(health_of(n.status)),
        ],
    )
}

/// The CLUSTER SHARDS entry of a group that holds slots.
pub open spec fn shard_entry(meta: ClusterMeta, g: GroupMeta) -> Reply {
    Reply::Array(
        seq![
            text_reply("slots"@),
            Reply::Array(
                group_runs(meta.slots@, g.group_id).map_values(
                    |r: (int, int)| Reply::Array(seq![Reply::Int(r.0), Reply::Int(r.1)]),
                ),
            ),
            text_reply("nodes"@),
            Reply::Array(
                group_member_replies(
                    meta.nodes@,
                    g,
                    |id: u64, n: MetaNodeInfo| member_reply(meta, 0, 1, id, n),
                    |id: u64, n: MetaNodeInfo| member_reply(meta, 0, 2, id, n),
                ),
            ),
        ],
    )
}

/// The CLUSTER SHARDS entries of the first `n` groups, skipping groups
/// without slots.
pub open spec fn shard_entries(meta: ClusterMeta, groups: Seq<GroupMeta>) -> Seq<Reply>
    decreases groups.len(),
{
    if groups.len() == 0 {
        Seq::empty()
    } else {
        let prev = shard_entries(meta, groups.drop_last());
        let g = groups.last();
        if group_runs(meta.slots@, g.group_id).len() == 0 {
            prev
        } else {
            prev.push(shard_entry(meta, g))
        }
    }
}

/// The shard of node `me`: the first group it leads or replicates.
pub open spec fn shard_of(groups: Seq<GroupMeta>, me: u64) -> Option<u64>
    decreases groups.len(),
{
    if groups.len() == 0 {
        None
    } else if groups[0].leader == Some(me) || groups[0].replicas@.contains(me) {
        Some(groups[0].group_id)
    } else {
        shard_of(groups.drop_first(), me)
    }
}

/// The first group that node `id` leads.
pub open spec fn led_group(groups: Seq<GroupMeta>, id: u64) -> Option<GroupMeta>
    decreases groups.len(),
{
    if groups.len() == 0 {
        None
    } else if groups[0].leader == Some(id) {
        Some(groups[0])
    } else {
        led_group(groups.drop_first(), id)
    }
}

/// The line CLUSTER REPLICAS writes for a replica of `master`.
pub open spec fn replica_line(meta: ClusterMeta, master: u64, id: u64, n: MetaNodeInfo) -> Seq<char> {
    let data = data_address_spec(n.addr@);
    hex40(id) + " "@ + data + "@"@ + decimal_spec(bus_port(data)) + " slave "@ + hex40(master) + " 0 0 "@
        + decimal_spec(meta.config_version as nat) + " "@ + link_state(n.status)
}

/// What CLUSTER REPLICAS answers for `master`.
pub open spec fn replicas_reply(meta: ClusterMeta, master: u64) -> Reply {
    let lines = match led_group(meta.groups@, master) {
        Some(g) => replica_replies(
            meta.nodes@,
            g.replicas@,
            Some(master),
            |id: u64, n: MetaNodeInfo| member_reply(meta, master, 3, id, n),
        ),
        None => Seq::empty(),
    };
    if lines.len() == 0 {
        Reply::Fail(Failure::Rejected("Node "@ + hex40(master) + " is not a master or does not exist"@))
    } else {
        Reply::Array(lines)
    }
}

// ---------------------------------------------------------------------------
// Formatting helpers
// ---------------------------------------------------------------------------

/// An id as forty hexadecimal digits (see `hex40`).
pub fn hex40_text(n: u64) -> (r: String)
    ensures
        r@ == hex40(n),
{
    let mut s = string_of("000000000000000000000000");
    push_hex_fixed(&mut s, n, 16);
    s
}

/// The runs of consecutive slots group `g` holds (see `group_runs`).
pub fn group_runs_of(s: &Vec<u64>, g: u64) -> (r: Vec<(usize, usize)>)
    ensures
        r@.map_values(|p: (usize, usize)| (p.0 as int, p.1 as int)) == group_runs(s@, g),
{
    let mut out: Vec<(usize, usize)> = Vec::new();
    let mut open: Option<(usize, usize)> = None;
    let mut i: usize = 0;
    while i < s.len()
        invariant
            i <= s@.len(),
            out@.map_values(|p: (usize, usize)| (p.0 as int, p.1 as int)) == runs_fold(s@, g, i as nat).0,
            match open {
                Some(p) => runs_fold(s@, g, i as nat).1 == Some((p.0 as int, p.1 as int)),
                None => runs_fold(s@, g, i as nat).1 is None,
            },
        decreases s.len() - i,
    {
        let ghost before = out@;
        if s[i] == g {
            open = match open {
                None => Some((i, i)),
                Some(p) => Some((p.0, i)),
            };
        } else {
            match open {
                Some(p) => {
                    out.push(p);
                    proof {
                        assert(out@.map_values(|p: (usize, usize)| (p.0 as int, p.1 as int)) =~= before.map_values(
                            |p: (usize, usize)| (p.0 as int, p.1 as int),
                        ).push((p.0 as int, p.1 as int)));
                    }
                },
                None => {},
            }
            open = None;
        }
        i = i + 1;
    }
    let ghost before = out@;
    match open {
        Some(p) => {
            out.push(p);
            proof {
                assert(out@.map_values(|p: (usize, usize)| (p.0 as int, p.1 as int)) =~= before.map_values(
                    |p: (usize, usize)| (p.0 as int, p.1 as int),
                ).push((p.0 as int, p.1 as int)));
            }
        },
        None => {},
    }
    out
}

/// The runs CLUSTER SLOTS reports (see `slot_runs`).
pub fn slot_runs_of(s: &Vec<u64>) -> (r: Vec<(usize, usize, u64)>)
    ensures
        r@.map_values(|p: (usize, usize, u64)| (p.0 as int, p.1 as int, p.2)) == slot_runs(s@),
{
    let mut out: Vec<(usize, usize, u64)> = Vec::new();
    let mut open: Option<(usize, u64)> = None;
    let mut i: usize = 0;
    while i < s.len()
        invariant
            i <= s@.len(),
            out@.map_values(|p: (usize, usize, u64)| (p.0 as int, p.1 as int, p.2)) == slot_runs_fold(s@, i as nat).0,
            match open {
                Some(c) => slot_runs_fold(s@, i as nat).1 == Some((c.0 as int, c.1)) && c.0 < i,
                None => slot_runs_fold(s@, i as nat).1 is None,
            },
        decreases s.len() - i,
    {
        let ghost before = out@;
        let g = s[i];
        if g == 0 {
            match open {
                Some(c) => {
                    out.push((c.0, i - 1, c.1));
                    proof {
                        assert(out@.map_values(|p: (usize, usize, u64)| (p.0 as int, p.1 as int, p.2)) =~= before.map_values(
                            |p: (usize, usize, u64)| (p.0 as int, p.1 as int, p.2),
                        ).push((c.0 as int, i - 1, c.1)));
                    }
                },
                None => {},
            }
            open = None;
        } else {
            match open {
                None => {
                    open = Some((i, g));
                },
                Some(c) => {
                    if c.1 != g {
                        out.push((c.0, i - 1, c.1));
                        proof {
                            assert(out@.map_values(|p: (usize, usize, u64)| (p.0 as int, p.1 as int, p.2)) =~= before.map_values(
                                |p: (usize, usize, u64)| (p.0 as int, p.1 as int, p.2),
                            ).push((c.0 as int, i - 1, c.1)));
                        }
                        open = Some((i, g));
                    }
                },
            }
        }
        i = i + 1;
    }
    let ghost before = out@;
    match open {
        Some(c) => {
            out.push((c.0, 16383, c.1));
            proof {
                assert(out@.map_values(|p: (usize, usize, u64)| (p.0 as int, p.1 as int, p.2)) =~= before.map_values(
                    |p: (usize, usize, u64)| (p.0 as int, p.1 as int, p.2),
                ).push((c.0 as int, 16383, c.1)));
            }
        },
        None => {},
    }
    out
}

/// The cluster bus port for a client address (see `bus_port`).
pub fn bus_port_of(addr: &str) -> (r: u16)
    ensures
        r as nat == bus_port(addr@),
{
    let p: u16 = match crate::text::parse_u16(str_after_last(addr, ':')) {
        Some(p) => p,
        None => 6379,
    };
    p.wrapping_add(10000)
}

/// An address split at its last `:` (see `split_addr`).
pub fn split_addr_of(addr: &str) -> (r: (String, i64))
    ensures
        r.0@ == split_addr(addr@).0,
        r.1 as int == split_addr(addr@).1,
{
    let n = addr.unicode_len();
    let mut i = n;
    while i > 0
        invariant
            i <= n,
            n == addr@.len(),
            forall|k: int| i <= k < n ==> addr@[k] != ':',
        decreases i,
    {
        if addr.get_char(i - 1) == ':' {
            proof {
                crate::text::lemma_after_last_found(addr@, ':', i - 1);
                assert(addr@.contains(':'));
            }
            let host = string_of(addr.substring_char(0, i - 1));
            let port = match crate::text::parse_i64(addr.substring_char(i, n)) {
                Some(p) => p,
                None => 6379,
            };
            return (host, port);
        }
        i = i - 1;
    }
    proof {
        if addr@.contains(':') {
            let k = choose|k: int| 0 <= k < addr@.len() && addr@[k] == ':';
            assert(addr@[k] != ':');
        }
    }
    (string_of(addr), 6379)
}

/// `a-b` for a run of slots.
fn run_text_of(r: (usize, usize)) -> (t: String)
    ensures
        t@ == run_text((r.0 as int, r.1 as int)),
{
    let mut s = u64_to_decimal(r.0 as u64);
    push_str(&mut s, "-");
    push_str(&mut s, u64_to_decimal(r.1 as u64).as_str());
    s
}

/// A bulk string of text.
fn text_answer(t: &str) -> (r: RespValue)
    ensures
        crate::command::reply::value_models(r, text_reply(t@)),
{
    RespValue::bulk_string(text_bytes(t))
}

// ---------------------------------------------------------------------------
// Reading node ids
// ---------------------------------------------------------------------------

/// The value of a hexadecimal digit, if `c` is one.
pub open spec fn hex_digit_value(c: char) -> Option<nat> {
    if '0' <= c && c <= '9' {
        Some((c as nat - '0' as nat) as nat)
    } else if 'a' <= c && c <= 'f' {
        Some((c as nat - 'a' as nat + 10) as nat)
    } else if 'A' <= c && c <= 'F' {
        Some((c as nat - 'A' as nat + 10) as nat)
    } else {
        None
    }
}

/// The number that hexadecimal digits denote, if they all are digits.
pub open spec fn hex_digits_value(s: Seq<char>) -> Option<nat>
    decreases s.len(),
{
    if s.len() == 0 {
        Some(0)
    } else {
        match (hex_digits_value(s.drop_last()), hex_digit_value(s.last())) {
            (Some(v), Some(d)) => Some(v * 16 + d),
            _ => None,
        }
    }
}

/// What Rust's `u64::from_str_radix(s, 16)` gives: an optional `+`, then
/// one or more hexadecimal digits denoting a value that fits.
pub open spec fn parse_hex_spec(s: Seq<char>) -> Option<nat> {
    let body = if s.len() > 0 && s[0] == '+' {
        s.drop_first()
    } else {
        s
    };
    if body.len() == 0 {
        None
    } else {
        match hex_digits_value(body) {
            Some(v) => if v <= u64::MAX {
                Some(v)
            } else {
                None
            },
            None => None,
        }
    }
}

/// A node id argument: hexadecimal, else decimal.
pub open spec fn node_id_arg(t: Seq<char>) -> Option<nat> {
    match parse_hex_spec(t) {
        Some(v) => Some(v),
        None => parse_unsigned_spec(t, u64::MAX as nat),
    }
}

proof fn lemma_hex_prefix(s: Seq<char>, k: int)
    requires
        0 <= k <= s.len(),
        hex_digits_value(s) is Some,
    ensures
        hex_digits_value(s.take(k)) is Some,
        hex_digits_value(s.take(k)).unwrap() <= hex_digits_value(s).unwrap(),
    decreases s.len(),
{
    if k < s.len() {
        lemma_hex_prefix(s.drop_last(), k);
        assert(s.drop_last().take(k) =~= s.take(k));
    } else {
        assert(s.take(k) =~= s);
    }
}

/// Reads `s` as `u64::from_str_radix(s, 16)` does.
pub fn parse_hex_u64(s: &str) -> (r: Option<u64>)
    ensures
        match parse_hex_spec(s@) {
            Some(v) => r == Some(v as u64),
            None => r is None,
        },
{
    let n = s.unicode_len();
    let start: usize = if n > 0 && s.get_char(0) == '+' {
        1
    } else {
        0
    };
    let ghost body = if s@.len() > 0 && s@[0] == '+' {
        s@.drop_first()
    } else {
        s@
    };
    proof {
        assert(body =~= s@.subrange(start as int, n as int));
    }
    if start == n {
        return None;
    }
    let mut v: u64 = 0;
    let mut i: usize = start;
    proof {
        assert(body.take(0) =~= Seq::<char>::empty());
    }
    while i < n
        invariant
            start <= i <= n,
            n == s@.len(),
            body =~= s@.subrange(start as int, n as int),
            body == (if s@.len() > 0 && s@[0] == '+' {
                s@.drop_first()
            } else {
                s@
            }),
            start < n,
            hex_digits_value(body.take(i - start)) == Some(v as nat),
        decreases n - i,
    {
        let c = s.get_char(i);
        let d: u64 = if '0' <= c && c <= '9' {
            (c as u32 - '0' as u32) as u64
        } else if 'a' <= c && c <= 'f' {
            (c as u32 - 'a' as u32 + 10) as u64
        } else if 'A' <= c && c <= 'F' {
            (c as u32 - 'A' as u32 + 10) as u64
        } else {
            proof {
                let k = i - start;
                assert(body.take(k + 1).drop_last() =~= body.take(k));
                assert(body.take(k + 1).last() == c);
                assert(hex_digits_value(body.take(k + 1)) is None);
                if hex_digits_value(body) is Some {
                    lemma_hex_prefix(body, k + 1);
                }
            }
            return None;
        };
        proof {
            let k = i - start;
            assert(body.take(k + 1).drop_last() =~= body.take(k));
            assert(body.take(k + 1).last() == c);
        }
        if v > (u64::MAX - d) / 16 {
            proof {
                let k = i - start;
                assert(hex_digits_value(body.take(k + 1)) == Some((v * 16 + d) as nat));
                assert(v * 16 + d > u64::MAX) by (nonlinear_arith)
                    requires
                        v > (u64::MAX - d) / 16,
                        d < 16,
                ;
                if hex_digits_value(body) is Some {
                    lemma_hex_prefix(body, k + 1);
                }
            }
            return None;
        }
        proof {
            assert(v * 16 + d <= u64::MAX) by (nonlinear_arith)
                requires
                    v <= (u64::MAX - d) / 16,
                    d < 16,
            ;
        }
        v = v * 16 + d;
        i = i + 1;
    }
    proof {
        assert(body.take(n - start) =~= body);
    }
    Some(v)
}

/// Reads a node id argument: hexadecimal, else decimal.
pub fn parse_node_id(t: &str) -> (r: Option<u64>)
    ensures
        match node_id_arg(t@) {
            Some(v) => r == Some(v as u64),
            None => r is None,
        },
{
    match parse_hex_u64(t) {
        Some(v) => Some(v),
        None => crate::text::parse_u64(t),
    }
}

// ---------------------------------------------------------------------------
// Lookups over the groups
// ---------------------------------------------------------------------------

fn u64_vec_contains(v: &Vec<u64>, x: u64) -> (r: bool)
    ensures
        r == v@.contains(x),
{
    let mut i: usize = 0;
    while i < v.len()
        invariant
            i <= v@.len(),
            forall|j: int| 0 <= j < i ==> v@[j] != x,
        decreases v.len() - i,
    {
        if v[i] == x {
            proof {
                assert(v@[i as int] == x);
            }
            return true;
        }
        i = i + 1;
    }
    false
}

fn leads(groups: &Vec<GroupMeta>, id: u64) -> (r: bool)
    ensures
        r == leads_any(groups@, id),
{
    let mut i: usize = 0;
    while i < groups.len()
        invariant
            i <= groups@.len(),
            forall|j: int| 0 <= j < i ==> groups@[j].leader != Some(id),
        decreases groups.len() - i,
    {
        if groups[i].leader == Some(id) {
            proof {
                assert(groups@[i as int].leader == Some(id));
            }
            return true;
        }
        i = i + 1;
    }
    false
}

proof fn lemma_skip_step<T>(s: Seq<T>, i: int)
    requires
        0 <= i < s.len(),
    ensures
        s.skip(i).len() > 0,
        s.skip(i)[0] == s[i],
        s.skip(i).drop_first() == s.skip(i + 1),
{
    assert(s.skip(i).drop_first() =~= s.skip(i + 1));
}

fn replica_leader_of(groups: &Vec<GroupMeta>, id: u64) -> (r: Option<u64>)
    ensures
        r == replica_leader(groups@, id),
{
    let mut i: usize = 0;
    proof {
        assert(groups@.skip(0) =~= groups@);
    }
    while i < groups.len()
        invariant
            i <= groups@.len(),
            replica_leader(groups@, id) == replica_leader(groups@.skip(i as int), id),
        decreases groups.len() - i,
    {
        proof {
            lemma_skip_step(groups@, i as int);
        }
        if groups[i].leader.is_some() && u64_vec_contains(&groups[i].replicas, id) {
            return groups[i].leader;
        }
        i = i + 1;
    }
    proof {
        assert(groups@.skip(i as int).len() == 0);
    }
    None
}

fn shard_of_exec(groups: &Vec<GroupMeta>, me: u64) -> (r: Option<u64>)
    ensures
        r == shard_of(groups@, me),
{
    let mut i: usize = 0;
    proof {
        assert(groups@.skip(0) =~= groups@);
    }
    while i < groups.len()
        invariant
            i <= groups@.len(),
            shard_of(groups@, me) == shard_of(groups@.skip(i as int), me),
        decreases groups.len() - i,
    {
        proof {
            lemma_skip_step(groups@, i as int);
        }
        if groups[i].leader == Some(me) || u64_vec_contains(&groups[i].replicas, me) {
            return Some(groups[i].group_id);
        }
        i = i + 1;
    }
    proof {
        assert(groups@.skip(i as int).len() == 0);
    }
    None
}

fn led_group_exec(groups: &Vec<GroupMeta>, id: u64) -> (r: Option<usize>)
    ensures
        match r {
            Some(i) => i < groups@.len() && led_group(groups@, id) == Some(groups@[i as int]),
            None => led_group(groups@, id) is None,
        },
{
    let mut i: usize = 0;
    proof {
        assert(groups@.skip(0) =~= groups@);
    }
    while i < groups.len()
        invariant
            i <= groups@.len(),
            led_group(groups@, id) == led_group(groups@.skip(i as int), id),
        decreases groups.len() - i,
    {
        proof {
            lemma_skip_step(groups@, i as int);
        }
        if groups[i].leader == Some(id) {
            return Some(i);
        }
        i = i + 1;
    }
    proof {
        assert(groups@.skip(i as int).len() == 0);
    }
    None
}

proof fn lemma_take_step<T>(s: Seq<T>, i: int)
    requires
        0 <= i < s.len(),
    ensures
        s.take(i + 1).drop_last() == s.take(i),
        s.take(i + 1).last() == s[i],
        s.take(i + 1).len() == i + 1,
{
    assert(s.take(i + 1).drop_last() =~= s.take(i));
}

fn led_runs_of(groups: &Vec<GroupMeta>, slots: &Vec<u64>, id: u64) -> (r: Vec<(usize, usize)>)
    ensures
        r@.map_values(|p: (usize, usize)| (p.0 as int, p.1 as int)) == led_runs(groups@, slots@, id),
{
    let mut out: Vec<(usize, usize)> = Vec::new();
    let mut i: usize = 0;
    proof {
        assert(groups@.take(0) =~= Seq::<GroupMeta>::empty());
        assert(out@.map_values(|p: (usize, usize)| (p.0 as int, p.1 as int)) =~= Seq::<(int, int)>::empty());
    }
    while i < groups.len()
        invariant
            i <= groups@.len(),
            out@.map_values(|p: (usize, usize)| (p.0 as int, p.1 as int)) == led_runs(groups@.take(i as int), slots@, id),
        decreases groups.len() - i,
    {
        proof {
            lemma_take_step(groups@, i as int);
        }
        if groups[i].leader == Some(id) {
            let mut more = group_runs_of(slots, groups[i].group_id);
            let ghost a = out@;
            let ghost b = more@;
            out.append(&mut more);
            proof {
                assert(out@.map_values(|p: (usize, usize)| (p.0 as int, p.1 as int)) =~= a.map_values(
                    |p: (usize, usize)| (p.0 as int, p.1 as int),
                ) + b.map_values(|p: (usize, usize)| (p.0 as int, p.1 as int)));
            }
        } else {
            proof {
                assert(led_runs(groups@.take(i as int), slots@, id) + Seq::<(int, int)>::empty() =~= led_runs(
                    groups@.take(i as int),
                    slots@,
                    id,
                ));
            }
        }
        i = i + 1;
    }
    proof {
        assert(groups@.take(groups@.len() as int) =~= groups@);
    }
    out
}

/// The line CLUSTER NODES writes for node `n` (see `node_line`).
fn node_line_of(meta: &ClusterMeta, me: u64, n: &MetaNodeInfo) -> (r: String)
    ensures
        r@ == node_line(*meta, me, *n),
{
    let master = leads(&meta.groups, n.node_id);
    let data = extract_data_address(n.addr.as_str());
    let master_id = if master {
        string_of("-")
    } else {
        match replica_leader_of(&meta.groups, n.node_id) {
            Some(l) => hex40_text(l),
            None => string_of("-"),
        }
    };
    let runs: Vec<(usize, usize)> = if master {
        led_runs_of(&meta.groups, &meta.slots, n.node_id)
    } else {
        Vec::new()
    };
    let ghost rv = runs@.map_values(|p: (usize, usize)| (p.0 as int, p.1 as int));
    let mut texts: Vec<String> = Vec::new();
    let mut i: usize = 0;
    while i < runs.len()
        invariant
            i <= runs@.len(),
            rv == runs@.map_values(|p: (usize, usize)| (p.0 as int, p.1 as int)),
            views(texts@) == rv.take(i as int).map_values(|r: (int, int)| run_text(r)),
        decreases runs.len() - i,
    {
        let t = run_text_of(runs[i]);
        let ghost before = texts@;
        texts.push(t);
        proof {
            assert(views(texts@) =~= views(before).push(t@));
            assert(rv.take(i + 1).map_values(|r: (int, int)| run_text(r)) =~= rv.take(i as int).map_values(
                |r: (int, int)| run_text(r),
            ).push(run_text(rv[i as int])));
        }
        i = i + 1;
    }
    proof {
        assert(rv.take(runs@.len() as int) =~= rv);
        if !master {
            assert(rv =~= Seq::<(int, int)>::empty());
        }
    }
    let ranges = join_strings(&texts, " ");
    let mut s = hex40_text(n.node_id);
    push_str(&mut s, " ");
    push_str(&mut s, data.as_str());
    push_str(&mut s, "@");
    push_str(&mut s, u64_to_decimal(bus_port_of(data.as_str()) as u64).as_str());
    push_str(&mut s, " ");
    if n.node_id == me {
        push_str(&mut s, "myself,");
    }
    push_str(
        &mut s,
        if master {
            "master"
        } else {
            "slave"
        },
    );
    push_str(&mut s, " ");
    push_str(&mut s, master_id.as_str());
    push_str(&mut s, " 0 0 ");
    push_str(&mut s, u64_to_decimal(meta.config_version).as_str());
    push_str(&mut s, " ");
    push_str(
        &mut s,
        match n.status {
            MetaNodeStatus::Offline => "disconnected",
            _ => "connected",
        },
    );
    push_str(&mut s, " ");
    push_str(&mut s, ranges.as_str());
    proof {
        let empty = Seq::<char>::empty();
        if n.node_id == me {
        } else {
            assert(s@ =~= node_line(*meta, me, *n));
        }
    }
    s
}

/// A node in a CLUSTER SHARDS entry, from its id text, host, port,
/// role and health.
fn shard_member(hid: &str, ip: &str, port: i64, role: &str, health: &str) -> (r: RespValue)
    ensures
        crate::command::reply::value_models(
            r,
            Reply::Array(
                seq![
                    text_reply("id"@),
                    text_reply(hid@),
                    text_reply("port"@),
                    Reply::Int(port as int),
                    text_reply("ip"@),
                    text_reply(ip@),
                    text_reply("endpoint"@),
                    text_reply(ip@),
                    text_reply("role"@),
                    text_reply(role@),
                    text_reply("replication-offset"@),
                    Reply::Int(0),
                    text_reply("health"@),
                    text_reply(health@),
                ],
            ),
        ),
{
    let ghost want = seq![
        text_reply("id"@),
        text_reply(hid@),
        text_reply("port"@),
        Reply::Int(port as int),
        text_reply("ip"@),
        text_reply(ip@),
        text_reply("endpoint"@),
        text_reply(ip@),
        text_reply("role"@),
        text_reply(role@),
        text_reply("replication-offset"@),
        Reply::Int(0),
        text_reply("health"@),
        text_reply(health@),
    ];
    let mut items: Vec<RespValue> = Vec::new();
    items.push(text_answer("id"));
    items.push(text_answer(hid));
    items.push(text_answer("port"));
    items.push(RespValue::integer(port));
    items.push(text_answer("ip"));
    items.push(text_answer(ip));
    items.push(text_answer("endpoint"));
    items.push(text_answer(ip));
    items.push(text_answer("role"));
    items.push(text_answer(role));
    items.push(text_answer("replication-offset"));
    items.push(RespValue::integer(0));
    items.push(text_answer("health"));
    items.push(text_answer(health));
    proof {
        assert forall|j: int| 0 <= j < 14 implies crate::command::reply::value_models(#[trigger] items@[j], want[j]) by {}
    }
    RespValue::array(items)
}

/// A CLUSTER REPLICAS line, answered as a bulk string.
fn replica_line_answer(meta: &ClusterMeta, master: u64, id: u64, n: &MetaNodeInfo) -> (r: RespValue)
    ensures
        crate::command::reply::value_models(r, text_reply(replica_line(*meta, master, id, *n))),
{
    let data = extract_data_address(n.addr.as_str());
    let mut s = hex40_text(id);
    push_str(&mut s, " ");
    push_str(&mut s, data.as_str());
    push_str(&mut s, "@");
    push_str(&mut s, u64_to_decimal(bus_port_of(data.as_str()) as u64).as_str());
    push_str(&mut s, " slave ");
    push_str(&mut s, hex40_text(master).as_str());
    push_str(&mut s, " 0 0 ");
    push_str(&mut s, u64_to_decimal(meta.config_version).as_str());
    push_str(&mut s, " ");
    push_str(
        &mut s,
        match n.status {
            MetaNodeStatus::Offline => "disconnected",
            _ => "connected",
        },
    );
    text_answer(s.as_str())
}

/// A node in a CLUSTER SLOTS entry.
fn slot_member_answer(id: u64, n: &MetaNodeInfo) -> (r: RespValue)
    ensures
        crate::command::reply::value_models(r, slot_node_reply(id, *n)),
{
    let data = extract_data_address(n.addr.as_str());
    let (ip, port) = split_addr_of(data.as_str());
    let hid = hex40_text(id);
    let ghost want = seq![text_reply(ip@), Reply::Int(port as int), text_reply(hid@)];
    let mut items: Vec<RespValue> = Vec::new();
    items.push(text_answer(ip.as_str()));
    items.push(RespValue::integer(port));
    items.push(text_answer(hid.as_str()));
    proof {
        assert forall|j: int| 0 <= j < 3 implies crate::command::reply::value_models(#[trigger] items@[j], want[j]) by {}
    }
    RespValue::array(items)
}

/// A node in a CLUSTER SHARDS entry, as master or replica.
fn shard_member_answer(id: u64, n: &MetaNodeInfo, master: bool) -> (r: RespValue)
    ensures
        crate::command::reply::value_models(
            r,
            shard_node_reply(
                id,
                *n,
                if master {
                    "master"@
                } else {
                    "replica"@
                },
            ),
        ),
{
    let data = extract_data_address(n.addr.as_str());
    let (ip, port) = split_addr_of(data.as_str());
    let hid = hex40_text(id);
    let role = if master {
        "master"
    } else {
        "replica"
    };
    let health = match n.status {
        MetaNodeStatus::Online => "online",
        MetaNodeStatus::Offline => "offline",
        _ => "loading",
    };
    shard_member(hid.as_str(), ip.as_str(), port, role, health)
}

/// How a member node is answered (see `member_reply`).
fn member_answer(meta: &ClusterMeta, master: u64, kind: u8, id: u64, n: &MetaNodeInfo) -> (r: RespValue)
    ensures
        crate::command::reply::value_models(r, member_reply(*meta, master, kind, id, *n)),
{
    if kind == 0 {
        slot_member_answer(id, n)
    } else if kind == 1 {
        shard_member_answer(id, n, true)
    } else if kind == 2 {
        shard_member_answer(id, n, false)
    } else {
        replica_line_answer(meta, master, id, n)
    }
}

/// The replicas of `reps` other than `leader` that have a record (see
/// `replica_replies`), answered as `kind` says.
fn replica_answers(meta: &ClusterMeta, reps: &Vec<u64>, leader: Option<u64>, master: u64, kind: u8) -> (r: Vec<
    RespValue,
>)
    ensures
        ({
            let want = replica_replies(
                meta.nodes@,
                reps@,
                leader,
                |id: u64, n: MetaNodeInfo| member_reply(*meta, master, kind, id, n),
            );
            r@.len() == want.len() && forall|j: int|
                0 <= j < want.len() ==> crate::command::reply::value_models(#[trigger] r@[j], want[j])
        }),
{
    let ghost f = |id: u64, n: MetaNodeInfo| member_reply(*meta, master, kind, id, n);
    let mut out: Vec<RespValue> = Vec::new();
    let mut i: usize = 0;
    while i < reps.len()
        invariant
            i <= reps@.len(),
            f == (|id: u64, n: MetaNodeInfo| member_reply(*meta, master, kind, id, n)),
            ({
                let want = replica_replies(meta.nodes@, reps@.take(i as int), leader, f);
                out@.len() == want.len() && forall|j: int|
                    0 <= j < want.len() ==> crate::command::reply::value_models(#[trigger] out@[j], want[j])
            }),
        decreases reps.len() - i,
    {
        proof {
            lemma_take_step(reps@, i as int);
        }
        let r = reps[i];
        if Some(r) != leader {
            match find_node_exec(&meta.nodes, r) {
                Some(ni) => {
                    let a = member_answer(meta, master, kind, r, &meta.nodes[ni]);
                    out.push(a);
                },
                None => {},
            }
        }
        i = i + 1;
    }
    proof {
        assert(reps@.take(reps@.len() as int) =~= reps@);
    }
    out
}

/// The members of `g`: its leader answered as `lead_kind`, then the other
/// replicas as `rep_kind` (see `group_member_replies`).
fn group_member_answers(meta: &ClusterMeta, g: &GroupMeta, lead_kind: u8, rep_kind: u8) -> (r: Vec<RespValue>)
    ensures
        ({
            let want = group_member_replies(
                meta.nodes@,
                *g,
                |id: u64, n: MetaNodeInfo| member_reply(*meta, 0, lead_kind, id, n),
                |id: u64, n: MetaNodeInfo| member_reply(*meta, 0, rep_kind, id, n),
            );
            r@.len() == want.len() && forall|j: int|
                0 <= j < want.len() ==> crate::command::reply::value_models(#[trigger] r@[j], want[j])
        }),
{
    let mut out: Vec<RespValue> = Vec::new();
    match g.leader {
        Some(l) => match find_node_exec(&meta.nodes, l) {
            Some(ni) => {
                out.push(member_answer(meta, 0, lead_kind, l, &meta.nodes[ni]));
            },
            None => {},
        },
        None => {},
    }
    let ghost head = out@;
    let mut rest = replica_answers(meta, &g.replicas, g.leader, 0, rep_kind);
    out.append(&mut rest);
    out
}

// ---------------------------------------------------------------------------
// The handler
// ---------------------------------------------------------------------------

/// A slot number argument, in the syntax of Rust's `u16` parsing.
pub open spec fn slot_arg(a: Seq<u8>) -> Option<nat> {
    parse_unsigned_spec(key_of(a), u16::MAX as nat)
}

/// What CLUSTER GETKEYSINSLOT and COUNTKEYSINSLOT answer for a slot whose
/// keys are not tracked: `none` for a valid slot.
pub open spec fn slot_query_reply(slot: nat, none: Reply) -> Reply {
    if slot >= 16384 {
        Reply::Fail(Failure::Rejected("Invalid slot: "@ + decimal_spec(slot)))
    } else {
        none
    }
}

/// What a CLUSTER subcommand that names a node answers: an error when the
/// id does not parse.
pub open spec fn with_node_id(t: Seq<char>, f: spec_fn(u64) -> Reply) -> Reply {
    match node_id_arg(t) {
        Some(v) => f(v as u64),
        None => Reply::Fail(Failure::Rejected("Invalid node ID"@)),
    }
}

/// What CLUSTER answers on node `me` with metadata `meta`.
pub open spec fn cluster_reply(meta: ClusterMeta, me: u64, a: Seq<Seq<u8>>) -> Reply {
    if a.len() == 0 {
        Reply::Fail(Failure::Arity("CLUSTER"@))
    } else {
        let sub = option_of(a[0]);
        if sub == "INFO"@ {
            text_reply(info_text(meta))
        } else if sub == "NODES"@ {
            nodes_reply(meta, me)
        } else if sub == "SLOTS"@ {
            slots_reply(meta)
        } else if sub == "MYID"@ {
            text_reply(hex40(me))
        } else if sub == "KEYSLOT"@ {
            if a.len() != 2 {
                Reply::Fail(Failure::Arity("CLUSTER KEYSLOT"@))
            } else {
                Reply::Int(key_slot_spec(a[1]) as int)
            }
        } else if sub == "GETKEYSINSLOT"@ {
            if a.len() != 3 {
                Reply::Fail(Failure::Arity("CLUSTER GETKEYSINSLOT"@))
            } else {
                match slot_arg(a[1]) {
                    None => Reply::Fail(Failure::Rejected("Invalid slot"@)),
                    Some(slot) => match crate::command::reply::usize_arg(a[2]) {
                        None => Reply::Fail(Failure::Rejected("Invalid count"@)),
                        Some(_) => slot_query_reply(slot, Reply::Array(Seq::empty())),
                    },
                }
            }
        } else if sub == "COUNTKEYSINSLOT"@ {
            if a.len() != 2 {
                Reply::Fail(Failure::Arity("CLUSTER COUNTKEYSINSLOT"@))
            } else {
                match slot_arg(a[1]) {
                    None => Reply::Fail(Failure::Rejected("Invalid slot"@)),
                    Some(slot) => slot_query_reply(slot, Reply::Int(0)),
                }
            }
        } else if sub == "SHARDS"@ {
            Reply::Array(shard_entries(meta, meta.groups@))
        } else if sub == "MYSHARDID"@ {
            text_reply(
                hex40(
                    match shard_of(meta.groups@, me) {
                        Some(g) => g,
                        None => me,
                    },
                ),
            )
        } else if sub == "SET-CONFIG-EPOCH"@ {
            if a.len() != 2 {
                Reply::Fail(Failure::Arity("CLUSTER SET-CONFIG-EPOCH"@))
            } else {
                match crate::command::reply::u64_arg(a[1]) {
                    None => Reply::Fail(Failure::Rejected("Invalid epoch"@)),
                    Some(_) => Reply::Simple("OK"@),
                }
            }
        } else if sub == "REPLICAS"@ || sub == "SLAVES"@ {
            if a.len() != 2 {
                Reply::Fail(Failure::Arity("CLUSTER "@ + sub))
            } else {
                with_node_id(key_of(a[1]), |m: u64| replicas_reply(meta, m))
            }
        } else if sub == "SAVECONFIG"@ {
            Reply::Simple("OK"@)
        } else if sub == "BUMPEPOCH"@ {
            text_reply("BUMPED "@ + decimal_spec(meta.config_version as nat))
        } else if sub == "COUNT-FAILURE-REPORTS"@ {
            if a.len() != 2 {
                Reply::Fail(Failure::Arity("CLUSTER COUNT-FAILURE-REPORTS"@))
            } else {
                with_node_id(key_of(a[1]), |m: u64| Reply::Int(0))
            }
        } else {
            Reply::Fail(Failure::Command("Unknown CLUSTER subcommand: "@ + sub))
        }
    }
}

/// A CLUSTER SLOTS entry (see `slot_entry`).
fn slot_entry_answer(meta: &ClusterMeta, st: usize, en: usize, gid: u64) -> (r: RespValue)
    ensures
        crate::command::reply::value_models(r, slot_entry(*meta, (st as int, en as int, gid))),
{
    let ghost head = seq![Reply::Int(st as int), Reply::Int(en as int)];
    let mut entry: Vec<RespValue> = Vec::new();
    entry.push(RespValue::integer(st as i64));
    entry.push(RespValue::integer(en as i64));
    match find_group_exec(&meta.groups, gid) {
        Some(gi) => {
            let ghost g = meta.groups@[gi as int];
            let ghost want = group_member_replies(
                meta.nodes@,
                g,
                |id: u64, n: MetaNodeInfo| member_reply(*meta, 0, 0, id, n),
                |id: u64, n: MetaNodeInfo| member_reply(*meta, 0, 0, id, n),
            );
            let ghost before = entry@;
            let mut rest = group_member_answers(meta, &meta.groups[gi], 0, 0);
            let ghost rv = rest@;
            entry.append(&mut rest);
            proof {
                assert(entry@ == before + rv);
                assert forall|j: int| 0 <= j < (head + want).len() implies crate::command::reply::value_models(
                    #[trigger] entry@[j],
                    (head + want)[j],
                ) by {
                    if j >= 2 {
                        assert(entry@[j] == rv[j - 2]);
                    }
                }
            }
        },
        None => {
            proof {
                assert(head + Seq::<Reply>::empty() =~= head);
                assert forall|j: int| 0 <= j < 2 implies crate::command::reply::value_models(#[trigger] entry@[j], head[j]) by {}
            }
        },
    }
    RespValue::array(entry)
}

/// A CLUSTER SHARDS entry for a group with runs `runs` (see
/// `shard_entry`).
fn shard_entry_answer(meta: &ClusterMeta, g: &GroupMeta, runs: &Vec<(usize, usize)>) -> (r: RespValue)
    requires
        runs@.map_values(|p: (usize, usize)| (p.0 as int, p.1 as int)) == group_runs(meta.slots@, g.group_id),
    ensures
        crate::command::reply::value_models(r, shard_entry(*meta, *g)),
{
    let ghost rv = runs@.map_values(|p: (usize, usize)| (p.0 as int, p.1 as int));
    let ghost want_slots = rv.map_values(|r: (int, int)| Reply::Array(seq![Reply::Int(r.0), Reply::Int(r.1)]));
    let mut slot_items: Vec<RespValue> = Vec::new();
    let mut i: usize = 0;
    while i < runs.len()
        invariant
            i <= runs@.len(),
            rv == runs@.map_values(|p: (usize, usize)| (p.0 as int, p.1 as int)),
            want_slots == rv.map_values(|r: (int, int)| Reply::Array(seq![Reply::Int(r.0), Reply::Int(r.1)])),
            slot_items@.len() == i,
            forall|j: int| 0 <= j < i ==> crate::command::reply::value_models(#[trigger] slot_items@[j], want_slots[j]),
        decreases runs.len() - i,
    {
        let (a, b) = runs[i];
        let mut pair: Vec<RespValue> = Vec::new();
        pair.push(RespValue::integer(a as i64));
        pair.push(RespValue::integer(b as i64));
        proof {
            assert(rv[i as int] == (a as int, b as int));
            let w = seq![Reply::Int(a as int), Reply::Int(b as int)];
            assert forall|j: int| 0 <= j < 2 implies crate::command::reply::value_models(#[trigger] pair@[j], w[j]) by {}
        }
        slot_items.push(RespValue::array(pair));
        i = i + 1;
    }
    let members = group_member_answers(meta, g, 1, 2);
    let ghost want = seq![
        text_reply("slots"@),
        Reply::Array(want_slots),
        text_reply("nodes"@),
        Reply::Array(
            group_member_replies(
                meta.nodes@,
                *g,
                |id: u64, n: MetaNodeInfo| member_reply(*meta, 0, 1, id, n),
                |id: u64, n: MetaNodeInfo| member_reply(*meta, 0, 2, id, n),
            ),
        ),
    ];
    let mut items: Vec<RespValue> = Vec::new();
    items.push(text_answer("slots"));
    items.push(RespValue::array(slot_items));
    items.push(text_answer("nodes"));
    items.push(RespValue::array(members));
    proof {
        assert forall|j: int| 0 <= j < 4 implies crate::command::reply::value_models(#[trigger] items@[j], want[j]) by {}
    }
    RespValue::array(items)
}

/// Answers the CLUSTER commands for this node from the latest cluster
/// metadata that the metadata service reported.
#[derive(Debug, Clone)]
pub struct ClusterCommands {
    node_id: u64,
    meta: ClusterMeta,
}

impl ClusterCommands {
    /// This node's id.
    pub closed spec fn spec_node_id(&self) -> u64 {
        self.node_id
    }

    /// The metadata the answers are taken from.
    pub closed spec fn spec_meta(&self) -> ClusterMeta {
        self.meta
    }

    /// A handler for node `node_id` with the given metadata.
    pub fn new(node_id: u64, meta: ClusterMeta) -> (r: Self)
        ensures
            r.spec_node_id() == node_id,
            r.spec_meta() == meta,
    {
        ClusterCommands { node_id, meta }
    }

    /// Takes newer metadata from the metadata service.
    pub fn set_meta(&mut self, meta: ClusterMeta)
        ensures
            final(self).spec_meta() == meta,
            final(self).spec_node_id() == old(self).spec_node_id(),
    {
        self.meta = meta;
    }

    /// The metadata the answers are taken from.
    pub fn meta(&self) -> (r: &ClusterMeta)
        ensures
            *r == self.spec_meta(),
    {
        &self.meta
    }

    /// This node's id.
    pub fn node_id(&self) -> (r: u64)
        ensures
            r == self.spec_node_id(),
    {
        self.node_id
    }

    /// CLUSTER INFO: state, slot counts, node and group counts, epoch.
    pub fn cluster_info(&self) -> (r: Result<RespValue, AikvError>)
        ensures
            models(r, text_reply(info_text(self.spec_meta()))),
    {
        let assigned = u64_to_decimal(self.meta.assigned_slots() as u64);
        let epoch = u64_to_decimal(self.meta.config_version);
        let mut s = string_of("cluster_state:");
        push_str(
            &mut s,
            if self.meta.is_cluster_ok() {
                "ok"
            } else {
                "fail"
            },
        );
        push_str(&mut s, "\r\ncluster_slots_assigned:");
        push_str(&mut s, assigned.as_str());
        push_str(&mut s, "\r\ncluster_slots_ok:");
        push_str(&mut s, assigned.as_str());
        push_str(&mut s, "\r\ncluster_slots_pfail:0\r\ncluster_slots_fail:0\r\ncluster_known_nodes:");
        push_str(&mut s, u64_to_decimal(self.meta.nodes.len() as u64).as_str());
        push_str(&mut s, "\r\ncluster_size:");
        push_str(&mut s, u64_to_decimal(self.meta.groups.len() as u64).as_str());
        push_str(&mut s, "\r\ncluster_current_epoch:");
        push_str(&mut s, epoch.as_str());
        push_str(&mut s, "\r\ncluster_my_epoch:");
        push_str(&mut s, epoch.as_str());
        push_str(&mut s, "\r\ncluster_stats_messages_sent:0\r\ncluster_stats_messages_received:0");
        Ok(text_answer(s.as_str()))
    }

    /// CLUSTER NODES: one line per node.
    pub fn cluster_nodes(&self) -> (r: Result<RespValue, AikvError>)
        ensures
            models(r, nodes_reply(self.spec_meta(), self.spec_node_id())),
    {
        let ghost meta = self.meta;
        let ghost me = self.node_id;
        let mut lines: Vec<String> = Vec::new();
        let mut i: usize = 0;
        while i < self.meta.nodes.len()
            invariant
                i <= self.meta.nodes@.len(),
                meta == self.meta,
                me == self.node_id,
                views(lines@) == self.meta.nodes@.take(i as int).map_values(|n: MetaNodeInfo| node_line(meta, me, n)),
            decreases self.meta.nodes.len() - i,
        {
            let line = node_line_of(&self.meta, self.node_id, &self.meta.nodes[i]);
            let ghost before = lines@;
            lines.push(line);
            proof {
                assert(views(lines@) =~= views(before).push(line@));
                assert(self.meta.nodes@.take(i + 1).map_values(|n: MetaNodeInfo| node_line(meta, me, n))
                    =~= self.meta.nodes@.take(i as int).map_values(|n: MetaNodeInfo| node_line(meta, me, n)).push(
                    node_line(meta, me, self.meta.nodes@[i as int]),
                ));
            }
            i = i + 1;
        }
        proof {
            assert(self.meta.nodes@.take(self.meta.nodes@.len() as int) =~= self.meta.nodes@);
        }
        let text = join_strings(&lines, "\r\n");
        Ok(text_answer(text.as_str()))
    }

    /// CLUSTER SLOTS: each run of slots with the nodes of its group.
    pub fn cluster_slots(&self) -> (r: Result<RespValue, AikvError>)
        ensures
            models(r, slots_reply(self.spec_meta())),
    {
        let ghost meta = self.meta;
        let runs = slot_runs_of(&self.meta.slots);
        let ghost rv = runs@.map_values(|p: (usize, usize, u64)| (p.0 as int, p.1 as int, p.2));
        let ghost want = rv.map_values(|r: (int, int, u64)| slot_entry(meta, r));
        let mut items: Vec<RespValue> = Vec::new();
        let mut i: usize = 0;
        while i < runs.len()
            invariant
                i <= runs@.len(),
                meta == self.meta,
                rv == runs@.map_values(|p: (usize, usize, u64)| (p.0 as int, p.1 as int, p.2)),
                want == rv.map_values(|r: (int, int, u64)| slot_entry(meta, r)),
                items@.len() == i,
                forall|j: int| 0 <= j < i ==> crate::command::reply::value_models(#[trigger] items@[j], want[j]),
            decreases runs.len() - i,
        {
            let (st, en, gid) = runs[i];
            proof {
                assert(rv[i as int] == (st as int, en as int, gid));
            }
            items.push(slot_entry_answer(&self.meta, st, en, gid));
            i = i + 1;
        }
        Ok(RespValue::array(items))
    }

    /// CLUSTER SHARDS: each group that holds slots, with its runs and nodes.
    pub fn cluster_shards(&self) -> (r: Result<RespValue, AikvError>)
        ensures
            models(r, Reply::Array(shard_entries(self.spec_meta(), self.spec_meta().groups@))),
    {
        let ghost meta = self.meta;
        let mut items: Vec<RespValue> = Vec::new();
        let mut i: usize = 0;
        proof {
            assert(self.meta.groups@.take(0) =~= Seq::<GroupMeta>::empty());
        }
        while i < self.meta.groups.len()
            invariant
                i <= self.meta.groups@.len(),
                meta == self.meta,
                ({
                    let want = shard_entries(meta, self.meta.groups@.take(i as int));
                    items@.len() == want.len() && forall|j: int|
                        0 <= j < want.len() ==> crate::command::reply::value_models(#[trigger] items@[j], want[j])
                }),
            decreases self.meta.groups.len() - i,
        {
            proof {
                lemma_take_step(self.meta.groups@, i as int);
            }
            let runs = group_runs_of(&self.meta.slots, self.meta.groups[i].group_id);
            if runs.len() > 0 {
                let e = shard_entry_answer(&self.meta, &self.meta.groups[i], &runs);
                items.push(e);
            }
            i = i + 1;
        }
        proof {
            assert(self.meta.groups@.take(self.meta.groups@.len() as int) =~= self.meta.groups@);
        }
        Ok(RespValue::array(items))
    }

    /// CLUSTER MYID: this node's id.
    pub fn cluster_myid(&self) -> (r: Result<RespValue, AikvError>)
        ensures
            models(r, text_reply(hex40(self.spec_node_id()))),
    {
        Ok(text_answer(hex40_text(self.node_id).as_str()))
    }

    /// CLUSTER KEYSLOT key: the key's slot.
    pub fn cluster_keyslot(&self, key: &[u8]) -> (r: Result<RespValue, AikvError>)
        ensures
            models(r, Reply::Int(key_slot_spec(key@) as int)),
    {
        Ok(RespValue::integer(key_to_slot(key) as i64))
    }

    /// CLUSTER GETKEYSINSLOT slot count: the keys of a slot are not
    /// tracked, so a valid slot answers the empty array.
    pub fn cluster_getkeysinslot(&self, slot: u16, _count: usize) -> (r: Result<RespValue, AikvError>)
        ensures
            models(r, slot_query_reply(slot as nat, Reply::Array(Seq::empty()))),
    {
        if slot >= 16384 {
            let mut m = string_of("Invalid slot: ");
            push_str(&mut m, u64_to_decimal(slot as u64).as_str());
            return Err(AikvError::Invalid(m));
        }
        Ok(RespValue::array(Vec::new()))
    }

    /// CLUSTER COUNTKEYSINSLOT slot: the keys of a slot are not tracked, so
    /// a valid slot answers 0.
    pub fn cluster_countkeysinslot(&self, slot: u16) -> (r: Result<RespValue, AikvError>)
        ensures
            models(r, slot_query_reply(slot as nat, Reply::Int(0))),
    {
        if slot >= 16384 {
            let mut m = string_of("Invalid slot: ");
            push_str(&mut m, u64_to_decimal(slot as u64).as_str());
            return Err(AikvError::Invalid(m));
        }
        Ok(RespValue::integer(0))
    }

    /// CLUSTER MYSHARDID: the first group this node leads or replicates,
    /// else its own id.
    pub fn cluster_myshardid(&self) -> (r: Result<RespValue, AikvError>)
        ensures
            models(
                r,
                text_reply(
                    hex40(
                        match shard_of(self.spec_meta().groups@, self.spec_node_id()) {
                            Some(g) => g,
                            None => self.spec_node_id(),
                        },
                    ),
                ),
            ),
    {
        let id = match shard_of_exec(&self.meta.groups, self.node_id) {
            Some(g) => g,
            None => self.node_id,
        };
        Ok(text_answer(hex40_text(id).as_str()))
    }

    /// CLUSTER SET-CONFIG-EPOCH epoch: epochs are kept by the metadata
    /// service; answers OK.
    pub fn cluster_set_config_epoch(&self, _epoch: u64) -> (r: Result<RespValue, AikvError>)
        ensures
            models(r, Reply::Simple("OK"@)),
    {
        Ok(RespValue::ok())
    }

    /// CLUSTER REPLICAS node-id: the lines of the replicas of the first
    /// group the node leads; an error when there are none.
    pub fn cluster_replicas(&self, master_id: u64) -> (r: Result<RespValue, AikvError>)
        ensures
            models(r, replicas_reply(self.spec_meta(), master_id)),
    {
        let ghost meta = self.meta;
        let lines: Vec<RespValue> = match led_group_exec(&self.meta.groups, master_id) {
            Some(gi) => replica_answers(&self.meta, &self.meta.groups[gi].replicas, Some(master_id), master_id, 3),
            None => Vec::new(),
        };
        if lines.len() == 0 {
            let mut m = string_of("Node ");
            push_str(&mut m, hex40_text(master_id).as_str());
            push_str(&mut m, " is not a master or does not exist");
            return Err(AikvError::Invalid(m));
        }
        Ok(RespValue::array(lines))
    }

    /// CLUSTER SAVECONFIG: the metadata service persists the configuration;
    /// answers OK.
    pub fn cluster_saveconfig(&self) -> (r: Result<RespValue, AikvError>)
        ensures
            models(r, Reply::Simple("OK"@)),
    {
        Ok(RespValue::ok())
    }

    /// CLUSTER COUNT-FAILURE-REPORTS node-id: failures are not reported
    /// separately; answers 0.
    pub fn cluster_count_failure_reports(&self, _node_id: u64) -> (r: Result<RespValue, AikvError>)
        ensures
            models(r, Reply::Int(0)),
    {
        Ok(RespValue::integer(0))
    }

    /// CLUSTER BUMPEPOCH: answers the current configuration version.
    pub fn cluster_bumpepoch(&self) -> (r: Result<RespValue, AikvError>)
        ensures
            models(r, text_reply("BUMPED "@ + decimal_spec(self.spec_meta().config_version as nat))),
    {
        let mut s = string_of("BUMPED ");
        push_str(&mut s, u64_to_decimal(self.meta.config_version).as_str());
        Ok(text_answer(s.as_str()))
    }

    /// ASKING: answers OK.
    pub fn asking(&self) -> (r: Result<RespValue, AikvError>)
        ensures
            models(r, Reply::Simple("OK"@)),
    {
        Ok(RespValue::ok())
    }

    /// READONLY: answers OK.
    pub fn readonly(&self) -> (r: Result<RespValue, AikvError>)
        ensures
            models(r, Reply::Simple("OK"@)),
    {
        Ok(RespValue::ok())
    }

    /// READWRITE: answers OK.
    pub fn readwrite(&self) -> (r: Result<RespValue, AikvError>)
        ensures
            models(r, Reply::Simple("OK"@)),
    {
        Ok(RespValue::ok())
    }

    /// The MOVED redirect to `addr` for `slot`.
    pub fn moved_error(slot: u16, addr: &str) -> (r: AikvError)
        ensures
            r matches AikvError::Moved(s, a) && s == slot && a@ == addr@,
    {
        AikvError::Moved(slot, string_of(addr))
    }

    /// The ASK redirect to `addr` for `slot`.
    pub fn ask_error(slot: u16, addr: &str) -> (r: AikvError)
        ensures
            r matches AikvError::Ask(s, a) && s == slot && a@ == addr@,
    {
        AikvError::Ask(slot, string_of(addr))
    }

    /// Whether this node serves `slot` (see `ownership_spec`).
    pub fn check_slot_ownership(&self, slot: u16) -> (r: Result<(), AikvError>)
        ensures
            ownership_result_matches(r, ownership_spec(self.spec_meta(), self.spec_node_id(), slot), slot),
    {
        self.meta.check_slot_ownership(self.node_id, slot)
    }

    /// Whether this node serves `key`.
    pub fn check_key_slot(&self, key: &[u8]) -> (r: Result<(), AikvError>)
        ensures
            ownership_result_matches(
                r,
                ownership_spec(self.spec_meta(), self.spec_node_id(), key_slot_spec(key@)),
                key_slot_spec(key@),
            ),
    {
        self.meta.check_key_slot(self.node_id, key)
    }

    /// Whether this node serves all `keys`: keys in different slots are
    /// refused with CROSSSLOT.
    pub fn check_keys_slot(&self, keys: &[&[u8]]) -> (r: Result<(), AikvError>)
        ensures
            keys@.len() == 0 ==> r is Ok,
            keys@.len() > 0 && (exists|i: int| 0 <= i < keys@.len() && #[trigger] key_slot_spec(keys@[i]@) != key_slot_spec(keys@[0]@))
                ==> r == Err::<(), AikvError>(AikvError::CrossSlot),
            keys@.len() > 0 && (forall|i: int| 0 <= i < keys@.len() ==> #[trigger] key_slot_spec(keys@[i]@) == key_slot_spec(keys@[0]@))
                ==> ownership_result_matches(
                r,
                ownership_spec(self.spec_meta(), self.spec_node_id(), key_slot_spec(keys@[0]@)),
                key_slot_spec(keys@[0]@),
            ),
    {
        self.meta.check_keys_slot(self.node_id, keys)
    }

    /// The slot of a key.
    pub fn get_key_slot(key: &[u8]) -> (r: u16)
        ensures
            r == key_slot_spec(key@),
    {
        key_to_slot(key)
    }

    /// Ok when the cluster serves every slot (see
    /// `cluster_state_result`).
    pub fn check_cluster_state(&self) -> (r: Result<(), AikvError>)
        ensures
            r is Ok <==> cluster_ok_spec(self.spec_meta()),
            crate::cluster::meta::cluster_state_result(self.spec_meta(), r),
    {
        self.meta.check_cluster_state()
    }

    /// The leader serving `slot` and its client address.
    pub fn get_slot_owner(&self, slot: u16) -> (r: Option<(u64, String)>)
        ensures
            match (r, crate::cluster::meta::slot_owner_spec(self.spec_meta(), slot)) {
                (Some((id, addr)), Some((sid, saddr))) => id == sid && addr@ == saddr,
                (None, None) => true,
                _ => false,
            },
    {
        self.meta.get_slot_owner(slot)
    }

    /// Reads a node id argument; the error when it does not parse.
    fn node_id_of(a: &Vec<u8>) -> (r: Result<u64, AikvError>)
        ensures
            match node_id_arg(key_of(a@)) {
                Some(v) => r == Ok::<u64, AikvError>(v as u64),
                None => r matches Err(e) && crate::command::reply::error_models(e, Failure::Rejected("Invalid node ID"@)),
            },
    {
        let t = arg_text(a);
        match parse_node_id(t.as_str()) {
            Some(v) => Ok(v),
            None => Err(AikvError::Invalid(string_of("Invalid node ID"))),
        }
    }

    /// CLUSTER subcommand [args...] (see `cluster_reply`).
    pub fn execute(&self, args: &[Vec<u8>]) -> (r: Result<RespValue, AikvError>)
        ensures
            models(r, cluster_reply(self.spec_meta(), self.spec_node_id(), arg_views(args@))),
    {
        proof {
            lemma_arg_views(args@);
        }
        if args.len() == 0 {
            return Err(arity_error("CLUSTER"));
        }
        let sub = arg_option(&args[0]);
        let s = sub.as_str();
        if str_eq(s, "INFO") {
            self.cluster_info()
        } else if str_eq(s, "NODES") {
            self.cluster_nodes()
        } else if str_eq(s, "SLOTS") {
            self.cluster_slots()
        } else if str_eq(s, "MYID") {
            self.cluster_myid()
        } else if str_eq(s, "KEYSLOT") {
            if args.len() != 2 {
                return Err(arity_error("CLUSTER KEYSLOT"));
            }
            self.cluster_keyslot(args[1].as_slice())
        } else if str_eq(s, "GETKEYSINSLOT") {
            if args.len() != 3 {
                return Err(arity_error("CLUSTER GETKEYSINSLOT"));
            }
            let t = arg_text(&args[1]);
            let slot = match crate::text::parse_u16(t.as_str()) {
                Some(v) => v,
                None => {
                    return Err(AikvError::Invalid(string_of("Invalid slot")));
                },
            };
            let count = match crate::command::reply::arg_usize(&args[2]) {
                Some(v) => v,
                None => {
                    return Err(AikvError::Invalid(string_of("Invalid count")));
                },
            };
            self.cluster_getkeysinslot(slot, count)
        } else if str_eq(s, "COUNTKEYSINSLOT") {
            if args.len() != 2 {
                return Err(arity_error("CLUSTER COUNTKEYSINSLOT"));
            }
            let t = arg_text(&args[1]);
            let slot = match crate::text::parse_u16(t.as_str()) {
                Some(v) => v,
                None => {
                    return Err(AikvError::Invalid(string_of("Invalid slot")));
                },
            };
            self.cluster_countkeysinslot(slot)
        } else if str_eq(s, "SHARDS") {
            self.cluster_shards()
        } else if str_eq(s, "MYSHARDID") {
            self.cluster_myshardid()
        } else if str_eq(s, "SET-CONFIG-EPOCH") {
            if args.len() != 2 {
                return Err(arity_error("CLUSTER SET-CONFIG-EPOCH"));
            }
            match crate::command::reply::arg_u64(&args[1]) {
                Some(e) => self.cluster_set_config_epoch(e),
                None => Err(AikvError::Invalid(string_of("Invalid epoch"))),
            }
        } else if str_eq(s, "REPLICAS") || str_eq(s, "SLAVES") {
            if args.len() != 2 {
                let mut name = string_of("CLUSTER ");
                push_str(&mut name, s);
                return Err(AikvError::WrongArgCount(name));
            }
            match Self::node_id_of(&args[1]) {
                Ok(id) => self.cluster_replicas(id),
                Err(e) => Err(e),
            }
        } else if str_eq(s, "SAVECONFIG") {
            self.cluster_saveconfig()
        } else if str_eq(s, "BUMPEPOCH") {
            self.cluster_bumpepoch()
        } else if str_eq(s, "COUNT-FAILURE-REPORTS") {
            if args.len() != 2 {
                return Err(arity_error("CLUSTER COUNT-FAILURE-REPORTS"));
            }
            match Self::node_id_of(&args[1]) {
                Ok(id) => self.cluster_count_failure_reports(id),
                Err(e) => Err(e),
            }
        } else {
            let mut msg = string_of("Unknown CLUSTER subcommand: ");
            push_str(&mut msg, s);
            Err(AikvError::InvalidCommand(msg))
        }
    }
}

} // verus!