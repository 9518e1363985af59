use aikv::cluster::commands::{parse_hex_u64, parse_node_id, ClusterCommands};
use aikv::cluster::meta::{ClusterMeta, GroupMeta, MetaNodeInfo, MetaNodeStatus};
use aikv::command::CommandExecutor;
use aikv::error::AikvError;
use aikv::protocol::RespValue;
use aikv::storage::StorageEngine;

fn b(s: &str) -> Vec<u8> {
    s.as_bytes().to_vec()
}

fn bulk(s: &str) -> RespValue {
    RespValue::bulk_string(b(s))
}

fn args(items: &[&str]) -> Vec<Vec<u8>> {
    items.iter().map(|s| b(s)).collect()
}

fn hex40(n: u64) -> String {
    format!("{:040x}", n)
}

/// Two groups: group 1 (leader node 1, replica node 2) holds slots
/// 0..=8191, group 2 (leader node 3) holds 8192..=16383.
fn two_group_meta() -> ClusterMeta {
    let mut slots = vec![1u64; 8192];
    slots.extend(vec![2u64; 8192]);
    ClusterMeta {
        slots,
        groups: vec![
            GroupMeta { group_id: 1, leader: Some(1), replicas: vec![1, 2] },
            GroupMeta { group_id: 2, leader: Some(3), replicas: vec![3] },
        ],
        nodes: vec![
            MetaNodeInfo { node_id: 1, addr: "aikv1:50051".to_string(), status: MetaNodeStatus::Online },
            MetaNodeInfo { node_id: 2, addr: "aikv2:50052".to_string(), status: MetaNodeStatus::Offline },
            MetaNodeInfo { node_id: 3, addr: "10.0.0.3:7000".to_string(), status: MetaNodeStatus::Joining },
        ],
        config_version: 7,
    }
}

fn text_of(v: RespValue) -> String {
    match v {
        RespValue::BulkString(Some(b)) => String::from_utf8(b).unwrap(),
        other => panic!("expected a bulk string, got {:?}", other),
    }
}

#[test]
fn cluster_info_reports_state_and_counts() {
    let c = ClusterCommands::new(1, two_group_meta());
    let text = text_of(c.cluster_info().unwrap());
    assert_eq!(
        text,
        "cluster_state:ok\r\ncluster_slots_assigned:16384\r\ncluster_slots_ok:16384\r\ncluster_slots_pfail:0\r\n\
cluster_slots_fail:0\r\ncluster_known_nodes:3\r\ncluster_size:2\r\ncluster_current_epoch:7\r\ncluster_my_epoch:7\r\n\
cluster_stats_messages_sent:0\r\ncluster_stats_messages_received:0"
    );
    let mut meta = two_group_meta();
    meta.slots[5] = 0;
    let c = ClusterCommands::new(1, meta);
    let text = text_of(c.cluster_info().unwrap());
    assert!(text.starts_with("cluster_state:fail\r\ncluster_slots_assigned:16383\r\n"));
}

#[test]
fn cluster_nodes_lines() {
    let c = ClusterCommands::new(1, two_group_meta());
    let text = text_of(c.cluster_nodes().unwrap());
    let lines: Vec<&str> = text.split("\r\n").collect();
    assert_eq!(lines.len(), 3);
    assert_eq!(
        lines[0],
        format!("{} 127.0.0.1:6379@16379 myself,master - 0 0 7 connected 0-8191", hex40(1))
    );
    assert_eq!(
        lines[1],
        format!("{} 127.0.0.1:6380@16380 slave {} 0 0 7 disconnected ", hex40(2), hex40(1))
    );
    assert_eq!(
        lines[2],
        format!("{} 10.0.0.3:7000@17000 master - 0 0 7 connected 8192-16383", hex40(3))
    );
}

#[test]
fn cluster_slots_ranges_and_nodes() {
    let c = ClusterCommands::new(1, two_group_meta());
    let r = c.cluster_slots().unwrap();
    let node = |ip: &str, port: i64, id: u64| {
        RespValue::array(vec![bulk(ip), RespValue::integer(port), bulk(&hex40(id))])
    };
    let expected = RespValue::array(vec![
        RespValue::array(vec![
            RespValue::integer(0),
            RespValue::integer(8191),
            node("127.0.0.1", 6379, 1),
            node("127.0.0.1", 6380, 2),
        ]),
        RespValue::array(vec![
            RespValue::integer(8192),
            RespValue::integer(16383),
            node("10.0.0.3", 7000, 3),
        ]),
    ]);
    assert_eq!(r, expected);
}

#[test]
fn cluster_shards_entries() {
    let c = ClusterCommands::new(1, two_group_meta());
    let r = c.cluster_shards().unwrap();
    if let RespValue::Array(Some(shards)) = r {
        assert_eq!(shards.len(), 2);
        if let RespValue::Array(Some(first)) = &shards[0] {
            assert_eq!(first[0], bulk("slots"));
            assert_eq!(
                first[1],
                RespValue::array(vec![RespValue::array(vec![RespValue::integer(0), RespValue::integer(8191)])])
            );
            assert_eq!(first[2], bulk("nodes"));
            if let RespValue::Array(Some(nodes)) = &first[3] {
                assert_eq!(nodes.len(), 2);
                if let RespValue::Array(Some(master)) = &nodes[0] {
                    assert_eq!(master[1], bulk(&hex40(1)));
                    assert_eq!(master[3], RespValue::integer(6379));
                    assert_eq!(master[9], bulk("master"));
                    assert_eq!(master[13], bulk("online"));
                } else {
                    panic!("expected a node entry");
                }
                if let RespValue::Array(Some(replica)) = &nodes[1] {
                    assert_eq!(replica[9], bulk("replica"));
                    assert_eq!(replica[13], bulk("offline"));
                } else {
                    panic!("expected a node entry");
                }
            } else {
                panic!("expected nodes");
            }
        } else {
            panic!("expected a shard");
        }
    } else {
        panic!("expected an array");
    }
}

#[test]
fn cluster_ids_and_replicas() {
    let c = ClusterCommands::new(2, two_group_meta());
    assert_eq!(c.cluster_myid().unwrap(), bulk(&hex40(2)));
    assert_eq!(c.cluster_myshardid().unwrap(), bulk(&hex40(1)));
    let lone = ClusterCommands::new(99, two_group_meta());
    assert_eq!(lone.cluster_myshardid().unwrap(), bulk(&hex40(99)));
    assert_eq!(
        c.cluster_replicas(1).unwrap(),
        RespValue::array(vec![bulk(&format!(
            "{} 127.0.0.1:6380@16380 slave {} 0 0 7 disconnected",
            hex40(2),
            hex40(1)
        ))])
    );
    assert!(matches!(c.cluster_replicas(3), Err(AikvError::Invalid(m)) if m == format!("Node {} is not a master or does not exist", hex40(3))));
    assert_eq!(c.cluster_bumpepoch().unwrap(), bulk("BUMPED 7"));
}

#[test]
fn cluster_execute_dispatch() {
    let c = ClusterCommands::new(1, two_group_meta());
    assert_eq!(c.execute(&args(&["keyslot", "foo"])).unwrap(), RespValue::integer(12182));
    assert_eq!(c.execute(&args(&["COUNTKEYSINSLOT", "5"])).unwrap(), RespValue::integer(0));
    assert!(matches!(c.execute(&args(&["COUNTKEYSINSLOT", "20000"])), Err(AikvError::Invalid(m)) if m == "Invalid slot: 20000"));
    assert!(matches!(c.execute(&args(&["COUNTKEYSINSLOT", "x"])), Err(AikvError::Invalid(m)) if m == "Invalid slot"));
    assert_eq!(c.execute(&args(&["GETKEYSINSLOT", "5", "10"])).unwrap(), RespValue::array(vec![]));
    assert!(matches!(c.execute(&args(&["REPLICAS"])), Err(AikvError::WrongArgCount(m)) if m == "CLUSTER REPLICAS"));
    assert!(matches!(c.execute(&args(&["REPLICAS", "zz"])), Err(AikvError::Invalid(m)) if m == "Invalid node ID"));
    assert!(c.execute(&args(&["SLAVES", "1"])).is_ok());
    assert_eq!(c.execute(&args(&["SET-CONFIG-EPOCH", "3"])).unwrap(), RespValue::ok());
    assert!(matches!(c.execute(&args(&["nope"])), Err(AikvError::InvalidCommand(m)) if m == "Unknown CLUSTER subcommand: NOPE"));
}

#[test]
fn node_ids_parse_as_hex_then_decimal() {
    assert_eq!(parse_hex_u64("ff"), Some(255));
    assert_eq!(parse_hex_u64("+1A"), Some(26));
    assert_eq!(parse_hex_u64(""), None);
    assert_eq!(parse_hex_u64("ffffffffffffffff"), Some(u64::MAX));
    assert_eq!(parse_hex_u64("10000000000000000"), None);
    assert_eq!(parse_node_id("10"), Some(16));
    assert_eq!(parse_node_id("99999999999999999999"), None);
    assert_eq!(parse_node_id("18446744073709551615"), Some(18446744073709551615));
}

#[test]
fn routing_redirects_and_crossslot() {
    let mut e = CommandExecutor::new(StorageEngine::new_memory(16));
    e.set_cluster_commands(ClusterCommands::new(1, two_group_meta()));
    let mut db = 0usize;
    // "foo" hashes to slot 12182, served by node 3.
    let r = e.execute("GET", &args(&["foo"]), &mut db, 1);
    assert_eq!(r, Err(AikvError::Moved(12182, "10.0.0.3:7000".to_string())));
    // "a" hashes to slot 15495, also node 3; "b" to 3300, node 1.
    assert_eq!(e.execute("MGET", &args(&["a", "b"]), &mut db, 1), Err(AikvError::CrossSlot));
    // Keys with the same hash tag share a slot; {user1} is served here.
    let slot = ClusterCommands::get_key_slot(b"{user1}a");
    assert!(slot < 8192);
    assert_eq!(
        e.execute("MSET", &args(&["{user1}a", "1", "{user1}b", "2"]), &mut db, 1).unwrap(),
        RespValue::ok()
    );
    assert_eq!(e.execute("GET", &args(&["{user1}b"]), &mut db, 1).unwrap(), bulk("2"));
    assert_eq!(e.execute("CLUSTER", &args(&["MYID"]), &mut db, 1).unwrap(), bulk(&hex40(1)));
    assert_eq!(e.execute("KEYS", &args(&["*"]), &mut db, 1).unwrap(), RespValue::array(vec![bulk("{user1}a"), bulk("{user1}b")]));
}

#[test]
fn slot_ownership_errors() {
    let mut meta = two_group_meta();
    meta.slots[100] = 0;
    meta.slots[200] = 9;
    let c = ClusterCommands::new(1, meta);
    assert_eq!(c.check_slot_ownership(0), Ok(()));
    assert_eq!(
        c.check_slot_ownership(100),
        Err(AikvError::Internal("CLUSTERDOWN Hash slot 100 not served".to_string()))
    );
    assert_eq!(
        c.check_slot_ownership(200),
        Err(AikvError::Internal("CLUSTERDOWN Hash slot 200 not served (group 9 not found)".to_string()))
    );
    assert_eq!(c.check_slot_ownership(20000), Err(AikvError::Invalid("Invalid slot: 20000".to_string())));
    assert_eq!(
        c.check_cluster_state(),
        Err(AikvError::Internal("CLUSTERDOWN The cluster is down. Only 16383 of 16384 slots are assigned".to_string()))
    );
}
