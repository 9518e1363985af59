//! Configuration of a cluster node.
use vstd::prelude::*;
use std::path::PathBuf;
use std::time::Duration;
use crate::text::{after_last, parse_unsigned_spec, str_after_last, parse_u16};

verus! {

/// Node identifier.
pub type NodeId = u64;

#[verifier::external_type_specification]
#[verifier::external_body]
pub struct ExPathBuf(PathBuf);

/// std's `PathBuf::clone` gives an equal path.
pub assume_specification[ <PathBuf as Clone>::clone ](p: &PathBuf) -> (r: PathBuf)
    ensures
        r == *p,
;

/// std's `Duration::clone` gives an equal duration.
pub assume_specification[ <Duration as Clone>::clone ](d: &Duration) -> (r: Duration)
    ensures
        r == *d,
;

/// Name for the path that std's `PathBuf::from` builds from a text.
pub uninterp spec fn spec_path_from(s: Seq<char>) -> PathBuf;

/// Builds a path from text with std's `PathBuf::from`.
#[verifier::external_body]
pub(crate) fn path_from_str(s: &str) -> (p: PathBuf)
    ensures
        p == spec_path_from(s@),
{
    PathBuf::from(s)
}

/// Name for the duration that std's `Duration::from_millis` builds.
pub uninterp spec fn spec_duration_from_millis(ms: u64) -> Duration;

/// Name for the duration that std's `Duration::from_secs` builds.
pub uninterp spec fn spec_duration_from_secs(secs: u64) -> Duration;

/// Name for the whole milliseconds that std's `Duration::as_millis` reports.
pub uninterp spec fn spec_duration_as_millis(d: Duration) -> u128;

/// Whole milliseconds of a duration (std's `Duration::as_millis`).
#[verifier::external_body]
pub(crate) fn duration_as_millis(d: &Duration) -> (r: u128)
    ensures
        r == spec_duration_as_millis(*d),
{
    d.as_millis()
}

/// A duration of `ms` milliseconds (std's `Duration::from_millis`): it
/// holds `ms` whole milliseconds.
#[verifier::external_body]
pub(crate) fn duration_from_millis(ms: u64) -> (d: Duration)
    ensures
        d == spec_duration_from_millis(ms),
        spec_duration_as_millis(d) == ms as u128,
{
    Duration::from_millis(ms)
}

/// A duration of `secs` seconds (std's `Duration::from_secs`): it holds
/// `secs` thousand whole milliseconds.
#[verifier::external_body]
pub(crate) fn duration_from_secs(secs: u64) -> (d: Duration)
    ensures
        d == spec_duration_from_secs(secs),
        spec_duration_as_millis(d) == secs as u128 * 1000,
{
    Duration::from_secs(secs)
}

/// The client port written at the end of an address (`host:port`), or 6379
/// when that part is not a valid port.
pub open spec fn addr_port_spec(addr: Seq<char>) -> nat {
    match parse_unsigned_spec(after_last(addr, ':'), 65535) {
        Some(p) => p,
        None => 6379,
    }
}

/// Configuration of a cluster node.
#[derive(Debug, Clone)]
pub struct ClusterConfig {
    /// Node id, unique in the cluster.
    pub node_id: NodeId,
    /// Address for client connections, such as `127.0.0.1:6379`.
    pub bind_addr: String,
    /// Cluster bus port: the client port plus 10000.
    pub cluster_port: u16,
    /// Data directory.
    pub data_dir: PathBuf,
    /// Initial members: (node id, address).
    pub initial_members: Vec<(NodeId, String)>,
    /// Raft election timeout.
    pub election_timeout: Duration,
    /// Raft heartbeat interval.
    pub heartbeat_interval: Duration,
    /// Number of Raft groups that shard the data.
    pub num_groups: usize,
    /// Replicas per group.
    pub replication_factor: usize,
}

impl ClusterConfig {
    /// Creates a configuration. The cluster port is the port of `bind_addr`
    /// (6379 when it has none) plus 10000; that sum must fit a port.
    pub fn new(node_id: NodeId, bind_addr: &str, data_dir: &str) -> (r: Self)
        requires
            addr_port_spec(bind_addr@) + 10000 <= 65535,
        ensures
            r.node_id == node_id,
            r.bind_addr@ == bind_addr@,
            r.cluster_port == addr_port_spec(bind_addr@) + 10000,
            r.data_dir == spec_path_from(data_dir@),
            r.initial_members@.len() == 0,
            r.election_timeout == spec_duration_from_millis(500),
            r.heartbeat_interval == spec_duration_from_millis(100),
            r.num_groups == 3,
            r.replication_factor == 3,
    {
        let port: u16 = match parse_u16(str_after_last(bind_addr, ':')) {
            Some(p) => p,
            None => 6379,
        };
        ClusterConfig {
            node_id,
            bind_addr: crate::text::string_of(bind_addr),
            cluster_port: port + 10000,
            data_dir: path_from_str(data_dir),
            initial_members: Vec::new(),
            election_timeout: duration_from_millis(500),
            heartbeat_interval: duration_from_millis(100),
            num_groups: 3,
            replication_factor: 3,
        }
    }

    /// Replaces the initial members.
    pub fn with_members(self, members: Vec<(NodeId, String)>) -> (r: Self)
        ensures
            r == (ClusterConfig { initial_members: members, ..self }),
    {
        let mut c = self;
        c.initial_members = members;
        c
    }

    /// Replaces the election timeout.
    pub fn with_election_timeout(self, timeout: Duration) -> (r: Self)
        ensures
            r == (ClusterConfig { election_timeout: timeout, ..self }),
    {
        let mut c = self;
        c.election_timeout = timeout;
        c
    }

    /// Replaces the heartbeat interval.
    pub fn with_heartbeat_interval(self, interval: Duration) -> (r: Self)
        ensures
            r == (ClusterConfig { heartbeat_interval: interval, ..self }),
    {
        let mut c = self;
        c.heartbeat_interval = interval;
        c
    }

    /// Replaces the number of groups.
    pub fn with_num_groups(self, num_groups: usize) -> (r: Self)
        ensures
            r == (ClusterConfig { num_groups: num_groups, ..self }),
    {
        let mut c = self;
        c.num_groups = num_groups;
        c
    }

    /// Replaces the replication factor.
    pub fn with_replication_factor(self, factor: usize) -> (r: Self)
        ensures
            r == (ClusterConfig { replication_factor: factor, ..self }),
    {
        let mut c = self;
        c.replication_factor = factor;
        c
    }
}

impl Default for ClusterConfig {
    fn default() -> (r: Self)
        ensures
            r.node_id == 1,
            r.bind_addr@ == "127.0.0.1:6379"@,
            r.cluster_port == 16379,
            r.data_dir == spec_path_from("./data/cluster"@),
            r.initial_members@.len() == 0,
            r.num_groups == 3,
            r.replication_factor == 3,
    {
        proof {
            reveal_strlit("127.0.0.1:6379");
            let s = "127.0.0.1:6379"@;
            crate::text::lemma_after_last_found(s, ':', 9);
            let tail = s.subrange(10, 14);
            assert(tail =~= seq!['6', '3', '7', '9']);
            assert(crate::text::all_digits(tail));
            reveal_with_fuel(crate::text::digits_value, 5);
            assert(tail.drop_last().drop_last().drop_last() =~= seq!['6']);
            assert(tail.drop_last().drop_last() =~= seq!['6', '3']);
            assert(tail.drop_last() =~= seq!['6', '3', '7']);
            assert(crate::text::digits_value(tail) == 6379);
        }
        let r = ClusterConfig::new(1, "127.0.0.1:6379", "./data/cluster");
        r
    }
}

} // verus!
