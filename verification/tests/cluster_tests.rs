use aikv::cluster::bus::{ClusterBus, ClusterBusConfig, NodeHealthInfo, NodeHealthStatus};
use aikv::cluster::config::ClusterConfig;
use aikv::cluster::metaraft::{ClusterNodeInfo, ClusterView, MetaRaftClient, MetaRaftClientConfig};
use aikv::cluster::slot::{crc16_xmodem, get_hash_slot_key, key_to_slot, SlotRouter};
use aikv::cluster::types::{ClusterState, NodeRole, SlotRange};
use std::time::Duration;

const TEST_SLOT_COUNT: u16 = 16384;

#[test]
fn test_cluster_bus_config_default() {
    let config = ClusterBusConfig::default();
    assert_eq!(config.health_check_interval, Duration::from_secs(10));
    assert_eq!(config.health_check_timeout, Duration::from_secs(5));
    assert_eq!(config.failure_threshold, 3);
    assert_eq!(config.success_threshold, 2);
    assert_eq!(config.election_timeout, Duration::from_secs(5));
}

#[test]
fn test_cluster_bus_creation() {
    let bus = ClusterBus::with_defaults(1);
    assert_eq!(bus.node_id(), 1);
    assert!(!bus.is_running());
}

#[test]
fn test_node_health_info() {
    let info = NodeHealthInfo::new(1);
    assert_eq!(info.node_id, 1);
    assert!(!info.is_online());
    assert!(!info.is_offline());
    assert!(!info.is_leader);
}

#[test]
fn test_node_health_status() {
    assert_eq!(NodeHealthStatus::default(), NodeHealthStatus::Unknown);

    let online = NodeHealthStatus::Online;
    let offline = NodeHealthStatus::Offline;

    assert_ne!(online, offline);
}

#[test]
fn test_cluster_bus_non_cluster_mode() {
    let mut bus = ClusterBus::with_defaults(1);

    bus.register_node(2);
    assert_eq!(bus.total_node_count(), 1);

    bus.update_node_status(2, NodeHealthStatus::Online);
    assert!(bus.is_node_online(2));

    bus.unregister_node(2);
    assert_eq!(bus.total_node_count(), 0);
}

#[test]
fn test_cluster_bus_cluster_mode() {
    let mut bus = ClusterBus::with_defaults(1);

    bus.register_node(2);
    assert_eq!(bus.total_node_count(), 1);

    bus.update_node_status(2, NodeHealthStatus::Online);
    assert!(bus.is_node_online(2));
    assert!(!bus.is_node_offline(2));

    assert!(!bus.is_node_online(999));
    assert!(bus.is_node_offline(999));

    bus.unregister_node(2);
    assert_eq!(bus.total_node_count(), 0);
}

#[test]
fn test_cluster_bus_default() {
    let bus = ClusterBus::default();
    assert_eq!(bus.node_id(), 0);
}

#[test]
fn test_node_health_info_states() {
    let mut info = NodeHealthInfo::new(1);

    info.status = NodeHealthStatus::Online;
    assert!(info.is_online());
    assert!(!info.is_offline());

    info.status = NodeHealthStatus::Offline;
    assert!(!info.is_online());
    assert!(info.is_offline());

    info.status = NodeHealthStatus::Unknown;
    assert!(!info.is_online());
    assert!(!info.is_offline());
}

#[test]
fn test_online_node_count() {
    let mut bus = ClusterBus::with_defaults(1);

    bus.register_node(1);
    bus.register_node(2);
    bus.register_node(3);

    bus.update_node_status(1, NodeHealthStatus::Online);
    bus.update_node_status(2, NodeHealthStatus::Online);
    bus.update_node_status(3, NodeHealthStatus::Offline);

    assert_eq!(bus.online_node_count(), 2);
    assert_eq!(bus.total_node_count(), 3);
}

#[test]
fn test_get_all_node_health() {
    let mut bus = ClusterBus::with_defaults(1);

    bus.register_node(1);
    bus.register_node(2);
    bus.update_node_status(1, NodeHealthStatus::Online);

    let all_health = bus.get_all_node_health();
    assert_eq!(all_health.len(), 2);
    assert!(all_health.contains_key(&1));
    assert!(all_health.contains_key(&2));
}

#[test]
fn test_config_new() {
    let config = ClusterConfig::new(1, "127.0.0.1:6379", "./data/node1");
    assert_eq!(config.node_id, 1);
    assert_eq!(config.bind_addr, "127.0.0.1:6379");
    assert_eq!(config.cluster_port, 16379);
}

#[test]
fn test_config_with_members() {
    let config = ClusterConfig::new(1, "127.0.0.1:6379", "./data/node1").with_members(vec![
        (1, "127.0.0.1:16379".to_string()),
        (2, "127.0.0.1:16380".to_string()),
    ]);
    assert_eq!(config.initial_members.len(), 2);
}

#[test]
fn test_config_default() {
    let config = ClusterConfig::default();
    assert_eq!(config.node_id, 1);
    assert_eq!(config.replication_factor, 3);
}

#[test]
fn test_cluster_view_default() {
    let view = ClusterView::default();
    assert!(view.nodes.is_empty());
    assert!(view.slot_assignments.is_empty());
    assert_eq!(view.config_epoch, 0);
    assert_eq!(view.my_node_id, 0);
}

#[test]
fn test_cluster_node_info() {
    let info = ClusterNodeInfo {
        node_id: 1,
        data_addr: "127.0.0.1:6379".to_string(),
        raft_addr: "127.0.0.1:50051".to_string(),
        is_online: true,
        is_master: true,
        last_heartbeat: 0,
    };

    assert_eq!(info.node_id, 1);
    assert!(info.is_online);
    assert!(info.is_master);
}

#[test]
fn test_metaraft_client_config_default() {
    let config = MetaRaftClientConfig::default();
    assert_eq!(config.heartbeat_interval, Duration::from_millis(100));
    assert_eq!(config.node_timeout, Duration::from_secs(5));
}

#[test]
fn test_stub_client() {
    let client = MetaRaftClient::new_stub(1);
    assert_eq!(client.node_id(), 1);
    assert!(!client.is_heartbeat_running());
}

#[test]
fn test_key_to_slot() {
    let router = SlotRouter::new();

    let slot = router.key_to_slot(b"test");
    assert!(slot < TEST_SLOT_COUNT);

    let slot2 = router.key_to_slot(b"test");
    assert_eq!(slot, slot2);

    let slot_a = router.key_to_slot(b"key_a");
    let slot_b = router.key_to_slot(b"key_b");

    assert!(slot_a < TEST_SLOT_COUNT);
    assert!(slot_b < TEST_SLOT_COUNT);
}

#[test]
fn test_hash_tag() {
    let router = SlotRouter::new();

    let slot1 = router.key_to_slot(b"{user1}name");
    let slot2 = router.key_to_slot(b"{user1}age");
    let slot3 = router.key_to_slot(b"{user1}email");

    assert!(slot1 < TEST_SLOT_COUNT);
    assert!(slot2 < TEST_SLOT_COUNT);
    assert!(slot3 < TEST_SLOT_COUNT);

    assert_eq!(slot1, slot2);
    assert_eq!(slot2, slot3);

    let slot_a = router.key_to_slot(b"{userA}name");
    let slot_b = router.key_to_slot(b"{userB}name");

    assert!(slot_a < TEST_SLOT_COUNT);
    assert!(slot_b < TEST_SLOT_COUNT);
}

#[test]
fn test_known_slot_values() {
    let router = SlotRouter::new();

    let slot = router.key_to_slot(b"foo");
    assert!(slot < TEST_SLOT_COUNT);

    let slot = router.key_to_slot(b"bar");
    assert!(slot < TEST_SLOT_COUNT);
}

#[test]
fn test_node_role_display() {
    assert_eq!(NodeRole::Leader.to_string(), "leader");
    assert_eq!(NodeRole::Follower.to_string(), "follower");
}

#[test]
fn test_slot_range() {
    let range = SlotRange::new(0, 5461);
    assert!(range.contains(0));
    assert!(range.contains(5460));
    assert!(!range.contains(5461));
    assert_eq!(range.len(), 5461);
}

#[test]
fn test_cluster_state() {
    let state = ClusterState {
        role: NodeRole::Leader,
        cluster_ok: true,
        ..Default::default()
    };
    assert!(state.is_leader());
    assert_eq!(state.status_string(), "ok");
}

// Redis documents these slots for its reference CRC16 (XMODEM) hash.
#[test]
fn crc16_reference_check_value() {
    assert_eq!(crc16_xmodem(b"123456789"), 0x31C3);
    assert_eq!(crc16_xmodem(b""), 0);
}

#[test]
fn known_redis_slots() {
    assert_eq!(key_to_slot(b"foo"), 12182);
    assert_eq!(key_to_slot(b"bar"), 5061);
    assert_eq!(key_to_slot(b"{user1000}.following"), key_to_slot(b"user1000"));
}

#[test]
fn hash_tag_extraction_edges() {
    assert_eq!(get_hash_slot_key(b"{user1}name"), b"user1");
    // An empty tag hashes the whole key.
    assert_eq!(get_hash_slot_key(b"{}name"), b"{}name");
    // No closing brace: the whole key.
    assert_eq!(get_hash_slot_key(b"{name"), b"{name");
    // Only the first tag counts.
    assert_eq!(get_hash_slot_key(b"a{b}{c}"), b"b");
}

#[test]
fn slot_range_edges() {
    let range = SlotRange::new(100, 101);
    assert_eq!(range.len(), 1);
    assert!(!range.is_empty());
    assert!(range.contains(100));
    assert!(!range.contains(99));
    assert_eq!(range.to_string(), "[100-101)");
}

#[test]
fn cluster_state_not_ok() {
    let state = ClusterState::new();
    assert!(!state.is_leader());
    assert_eq!(state.status_string(), "fail");
}

#[test]
fn config_port_offset() {
    let config = ClusterConfig::new(7, "10.0.0.1:7000", "/tmp/x");
    assert_eq!(config.cluster_port, 17000);
    let config = config.with_num_groups(8).with_replication_factor(5);
    assert_eq!(config.num_groups, 8);
    assert_eq!(config.replication_factor, 5);
}

#[test]
fn bus_counts_ignore_duplicates() {
    let mut bus = ClusterBus::with_defaults(1);
    bus.register_node(5);
    bus.register_node(5);
    assert_eq!(bus.total_node_count(), 1);
    assert!(bus.get_node_health(5).is_some());
    assert!(bus.get_node_health(6).is_none());
    // Updating an unregistered node registers it.
    bus.update_node_status(6, NodeHealthStatus::Offline);
    assert_eq!(bus.total_node_count(), 2);
    assert!(bus.is_node_offline(6));
    assert_eq!(bus.online_node_count(), 0);
}
