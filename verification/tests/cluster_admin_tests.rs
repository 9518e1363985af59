use aikv::cluster::commands::{ClusterCommands, CommandPlan, FailoverMode, MetaOp, MetaStep};
use aikv::cluster::meta::{ClusterMeta, GroupMeta, MetaNodeInfo, MetaNodeStatus};
use aikv::error::AikvError;
use aikv::protocol::RespValue;

fn meta() -> ClusterMeta {
    let mut slots = vec![0u64; 16384];
    slots[3] = 1;
    slots[4] = 1;
    slots[10] = 2;
    ClusterMeta {
        slots,
        groups: vec![
            GroupMeta { group_id: 1, leader: Some(1), replicas: vec![1, 2] },
            GroupMeta { group_id: 2, leader: Some(3), replicas: vec![3] },
        ],
        nodes: vec![
            MetaNodeInfo { node_id: 1, addr: "10.0.0.1:6379".to_string(), status: MetaNodeStatus::Online },
            MetaNodeInfo { node_id: 2, addr: "10.0.0.2:6379".to_string(), status: MetaNodeStatus::Online },
            MetaNodeInfo { node_id: 3, addr: "10.0.0.3:6379".to_string(), status: MetaNodeStatus::Online },
        ],
        config_version: 1,
    }
}

fn st(op: MetaOp, failure: &str) -> MetaStep {
    MetaStep { op, failure: failure.to_string() }
}

fn ok(p: &CommandPlan) -> bool {
    matches!(&p.answer, Ok(RespValue::SimpleString(s)) if s == "OK")
}

fn rejected(p: &CommandPlan, msg: &str) -> bool {
    matches!(&p.answer, Err(AikvError::Invalid(m)) if m == msg)
}

#[test]
fn addslots_merges_runs_for_the_nodes_group() {
    let c = ClusterCommands::new(1, meta());
    let p = c.cluster_addslots(vec![7, 5, 6, 9, 100]);
    assert!(ok(&p));
    assert_eq!(
        p.steps,
        vec![
            st(MetaOp::UpdateSlots(5, 8, 1), "Failed to assign slots 5-7"),
            st(MetaOp::UpdateSlots(9, 10, 1), "Failed to assign slots 9-9"),
            st(MetaOp::UpdateSlots(100, 101, 1), "Failed to assign slots 100-100"),
        ]
    );
    let empty = c.cluster_addslots(vec![]);
    assert!(ok(&empty) && empty.steps.is_empty());
}

#[test]
fn addslots_creates_a_group_first() {
    let c = ClusterCommands::new(9, meta());
    let p = c.cluster_addslots(vec![1, 16384]);
    assert!(rejected(&p, "Invalid slot: 16384"));
    assert_eq!(p.steps, vec![st(MetaOp::CreateGroup(9, vec![9]), "Failed to create group for node")]);
    let q = c.cluster_addslots(vec![2, 2]);
    assert_eq!(
        q.steps,
        vec![
            st(MetaOp::CreateGroup(9, vec![9]), "Failed to create group for node"),
            st(MetaOp::UpdateSlots(2, 3, 9), "Failed to assign slots 2-2"),
            st(MetaOp::UpdateSlots(2, 3, 9), "Failed to assign slots 2-2"),
        ]
    );
}

#[test]
fn addslotsrange_targets_a_known_node() {
    let c = ClusterCommands::new(1, meta());
    let p = c.cluster_addslotsrange(10, 20, 0);
    assert!(ok(&p));
    assert_eq!(p.steps, vec![st(MetaOp::UpdateSlots(10, 21, 1), "Failed to assign slots 10-20")]);
    let missing = c.cluster_addslotsrange(10, 20, 77);
    assert!(rejected(&missing, &format!("Target node {:040x} not found in cluster", 77)));
    assert!(missing.steps.is_empty());
    let bad = c.cluster_addslotsrange(20, 10, 3);
    assert!(rejected(&bad, "Invalid slot range: 20-10"));
    assert!(bad.steps.is_empty());
}

#[test]
fn delslots_stops_at_the_first_bad_slot() {
    let c = ClusterCommands::new(1, meta());
    let p = c.cluster_delslots(vec![3, 20000, 4]);
    assert!(rejected(&p, "Invalid slot: 20000"));
    assert_eq!(p.steps, vec![st(MetaOp::UpdateSlots(3, 4, 0), "Failed to delete slot 3")]);
    let r = c.cluster_delslotsrange(0, 16383);
    assert!(ok(&r));
    assert_eq!(r.steps, vec![st(MetaOp::UpdateSlots(0, 16384, 0), "Failed to delete slots 0-16383")]);
    assert!(rejected(&c.cluster_delslotsrange(0, 16384), "Invalid slot range: 0-16384"));
}

#[test]
fn flush_and_reset_clear_led_slots() {
    let c = ClusterCommands::new(1, meta());
    let p = c.cluster_flushslots();
    assert!(ok(&p));
    assert_eq!(
        p.steps,
        vec![
            st(MetaOp::UpdateSlots(3, 4, 0), "Failed to flush slot"),
            st(MetaOp::UpdateSlots(4, 5, 0), "Failed to flush slot"),
        ]
    );
    let hard = c.cluster_reset(true);
    assert_eq!(hard.steps.len(), 2);
    assert_eq!(hard.steps[0].failure, "Failed to clear slot");
    assert!(c.cluster_reset(false).steps.is_empty());
    assert!(ClusterCommands::new(2, meta()).cluster_flushslots().steps.is_empty());
}

#[test]
fn replicate_and_failover() {
    let c = ClusterCommands::new(4, meta());
    let p = c.cluster_replicate(3);
    assert!(ok(&p));
    assert_eq!(p.steps, vec![st(MetaOp::UpdateGroupMembers(2, vec![3, 4]), "Failed to add replica to group 2")]);
    let q = c.cluster_add_replication(5, 1);
    assert_eq!(
        q.steps,
        vec![st(MetaOp::UpdateGroupMembers(1, vec![1, 2, 5]), &format!("Failed to add replica {:040x} to group 1", 5))]
    );
    assert!(ClusterCommands::new(2, meta()).cluster_replicate(1).steps.is_empty());
    let lost = c.cluster_replicate(42);
    assert!(matches!(&lost.answer, Err(AikvError::Internal(m))
        if *m == format!("Master node {:040x} does not belong to any group", 42)));

    let f = ClusterCommands::new(2, meta()).cluster_failover(FailoverMode::Takeover);
    assert_eq!(f.steps, vec![st(MetaOp::UpdateGroupLeader(1, 2), "Failed to perform takeover")]);
    let g = ClusterCommands::new(2, meta()).cluster_failover(FailoverMode::Force);
    assert_eq!(g.steps[0].failure, "Failed to perform failover");
    let leader = ClusterCommands::new(1, meta()).cluster_failover(FailoverMode::Default);
    assert!(rejected(&leader, "This node is not a replica or already a master"));
}

#[test]
fn meet_and_forget() {
    let c = ClusterCommands::new(1, meta());
    let p = c.cluster_meet("10.0.0.9".to_string(), 7000, Some(99));
    assert_eq!(p.steps, vec![st(MetaOp::AddNode(99, "10.0.0.9:7000".to_string()), "Failed to add node to cluster")]);
    let q = c.cluster_meet("10.0.0.9".to_string(), 7000, None);
    let id = ClusterCommands::generate_node_id_from_addr("10.0.0.9:7000");
    assert_eq!(q.steps, vec![st(MetaOp::AddNode(id, "10.0.0.9:7000".to_string()), "Failed to add node to cluster")]);
    assert_eq!(id, ClusterCommands::generate_node_id_from_addr("10.0.0.9:7000"));
    assert_ne!(id, ClusterCommands::generate_node_id_from_addr("10.0.0.9:7001"));
    let f = c.cluster_forget(3);
    assert_eq!(f.steps, vec![st(MetaOp::RemoveNode(3), "Failed to remove node")]);
}
