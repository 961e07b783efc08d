use grape_vector_db::distributed::failover::{
    cluster_consistent, default_node_address, select_authoritative_leader, split_brain_detected, FailoverConfig,
    FailoverManager, FailureDetector, FailureDetectorConfig, HeartbeatRecord, LeaderInfo, NodeState, RecoveryCoordinator,
    RecoveryPriority, RecoveryStatus, RecoveryTask, RecoveryTaskType,
};
use grape_vector_db::distributed::replication::{
    dns_node_address, fallback_node_address, quorum_reached, replication_outcome, ReplicaGroup, ReplicationManager, SyncPolicy, SyncState,
};

fn beat(success: bool) -> HeartbeatRecord {
    HeartbeatRecord { timestamp: 0, success, latency_ms: 5, error_message: None }
}

fn task(id: &str, priority: RecoveryPriority) -> RecoveryTask {
    RecoveryTask {
        task_id: id.to_string(),
        task_type: RecoveryTaskType::PrimaryFailover,
        failed_node: "failed_node".to_string(),
        target_node: Some("new_primary".to_string()),
        affected_shards: vec![1, 2],
        priority,
        created_at: 0,
        estimated_completion_time: None,
    }
}

#[test]
fn failover_defaults_and_detector_thresholds() {
    let c = FailoverConfig::default();
    assert_eq!(c.failure_detection_timeout_secs, 30);
    assert_eq!(c.heartbeat_interval_secs, 10);
    let d = FailureDetectorConfig::from_failover_config(&c);
    assert_eq!(d.failure_threshold, 3);
    assert_eq!(d.recovery_threshold, 2);
    assert_eq!(d.heartbeat_timeout.as_secs(), 30);
}

#[test]
fn node_fails_after_three_recent_failed_heartbeats() {
    let c = FailureDetectorConfig::from_failover_config(&FailoverConfig::default());
    let mut d = FailureDetector::new(c);
    assert!(d.check_node_health("fail_node"));
    d.record_heartbeat("healthy_node", beat(true));
    d.record_heartbeat("fail_node", beat(true));
    for _ in 0..3 {
        d.record_heartbeat("fail_node", beat(false));
    }
    assert!(!d.check_node_health("healthy_node"));
    assert!(d.check_node_health("fail_node"));
    d.record_heartbeat("fail_node", beat(true));
    assert!(!d.check_node_health("fail_node"));
    d.stop_monitoring("fail_node");
    assert!(d.check_node_health("fail_node"));
}

#[test]
fn heartbeat_history_keeps_the_last_fifty() {
    let c = FailureDetectorConfig::from_failover_config(&FailoverConfig::default());
    let mut d = FailureDetector::new(c);
    for i in 0..60 {
        d.record_heartbeat("n", HeartbeatRecord { timestamp: i, success: true, latency_ms: 1, error_message: None });
    }
    let h = &d.histories.iter().find(|(n, _)| n == "n").unwrap().1;
    assert_eq!(h.len(), 50);
    assert_eq!(h[0].timestamp, 10);
    assert_eq!(h[49].timestamp, 59);
}

#[test]
fn recovery_queue_hands_out_tasks() {
    let mut rc = RecoveryCoordinator::new();
    assert!(rc.next_task().is_none());
    rc.add_recovery_task(task("low", RecoveryPriority::Low));
    rc.add_recovery_task(task("critical", RecoveryPriority::Critical));
    rc.add_recovery_task(task("medium", RecoveryPriority::Medium));
    let t = rc.next_task().unwrap();
    assert_eq!(t.task_id, "low");
    let t = rc.next_task().unwrap();
    assert_eq!(t.task_id, "medium");
    let t = rc.next_task().unwrap();
    assert_eq!(t.task_id, "critical");
    assert!(rc.next_task().is_none());
    assert_eq!(RecoveryPriority::Critical.rank(), 3);
    assert_eq!(RecoveryPriority::Low.rank(), 0);
}

#[test]
fn recovery_results_are_recorded() {
    let mut rc = RecoveryCoordinator::new();
    let t = task("test_task", RecoveryPriority::High);
    rc.record_result(&t, Ok(()), 5);
    rc.record_result(&t, Err("boom".to_string()), 6);
    let h = rc.get_recovery_history();
    assert_eq!(h.len(), 2);
    assert_eq!(h[0].final_status, RecoveryStatus::Completed);
    assert_eq!(h[0].recovered_shards, 2);
    assert_eq!(h[1].final_status, RecoveryStatus::Failed);
    assert_eq!(h[1].error_message.as_deref(), Some("boom"));
}

#[test]
fn default_addresses_hash_the_id_into_a_port() {
    let sum: u32 = "node1".bytes().map(|b| b as u32).sum();
    assert_eq!(default_node_address("node1"), format!("node1:{}", 8080 + sum % 1000));
    assert_eq!(default_node_address(""), ":8080");
}

#[test]
fn split_brain_needs_two_nodes_and_not_one_leader() {
    assert!(!split_brain_detected(1, 0));
    assert!(split_brain_detected(2, 0));
    assert!(!split_brain_detected(3, 1));
    assert!(split_brain_detected(3, 2));
    assert!(cluster_consistent(1));
    assert!(!cluster_consistent(2));
}

#[test]
fn authority_goes_to_highest_term_then_longest_log_then_smallest_id() {
    let l = |id: &str, term: u64, idx: u64| LeaderInfo { node_id: id.to_string(), term, last_log_index: idx };
    assert_eq!(select_authoritative_leader(&vec![l("a", 1, 9), l("b", 2, 0), l("c", 2, 0)]), 1);
    assert_eq!(select_authoritative_leader(&vec![l("a", 2, 3), l("b", 2, 5)]), 1);
    assert_eq!(select_authoritative_leader(&vec![l("z", 2, 5), l("m", 2, 5)]), 1);
    assert_eq!(select_authoritative_leader(&vec![l("only", 0, 0)]), 0);
}

#[test]
fn test_add_node() {
    let mut m = FailoverManager::new("local".to_string(), FailoverConfig::default());
    m.add_node("node1".to_string());
    assert_eq!(m.get_node_state("node1"), Some(NodeState::Healthy));
    assert_eq!(m.get_node_state("node2"), None);
}

#[test]
fn failure_verdicts_mark_nodes_and_ask_for_failover() {
    let mut m = FailoverManager::new("local".to_string(), FailoverConfig::default());
    m.add_node("node1".to_string());
    assert!(m.apply_failure_verdict("node1", true));
    assert_eq!(m.get_node_state("node1"), Some(NodeState::Failed));
    m.mark_node_recovered("node1");
    assert_eq!(m.get_node_state("node1"), Some(NodeState::Healthy));
    assert!(!m.apply_failure_verdict("node1", false));
    let mut cfg = FailoverConfig::default();
    cfg.auto_recovery_enabled = false;
    let mut m2 = FailoverManager::new("local".to_string(), cfg);
    m2.add_node("n".to_string());
    assert!(!m2.apply_failure_verdict("n", true));
}

#[test]
fn new_primary_prefers_a_healthy_replica() {
    let mut rm = ReplicationManager::new(3, SyncPolicy::Quorum, "local".to_string());
    rm.add_replica_group(7, "p".to_string(), vec!["r1".to_string(), "r2".to_string()], 0);
    rm.add_node_to_monitoring("r1".to_string(), 0);
    rm.add_node_to_monitoring("r2".to_string(), 0);
    let mut m = FailoverManager::new("local".to_string(), FailoverConfig::default());
    assert_eq!(m.select_new_primary(7, "r1", &rm).unwrap(), "r2");
    match m.select_new_primary(9, "p", &rm) {
        Err(e) => assert_eq!(e, "无法为分片 9 找到合适的新主节点"),
        Ok(_) => panic!(),
    }
    m.add_node("w".to_string());
    assert_eq!(m.select_new_primary(9, "p", &rm).unwrap(), "w");
    assert_eq!(m.get_affected_shards("p", &rm), vec![7]);
    assert_eq!(m.get_affected_shards("r2", &rm), vec![7]);
    assert!(m.get_affected_shards("x", &rm).is_empty());
}

#[test]
fn test_add_replica_group() {
    let mut rm = ReplicationManager::new(3, SyncPolicy::Synchronous, "local".to_string());
    rm.add_replica_group(1, "primary".to_string(), vec!["replica1".to_string(), "replica2".to_string()], 0);
    let g = rm.get_replica_group(1).unwrap();
    assert_eq!(g.primary, "primary");
    assert_eq!(g.replicas.len(), 2);
    assert!(rm.check_group_exists(1).is_ok());
    match rm.check_group_exists(2) {
        Err(e) => assert_eq!(e, "副本组不存在，分片ID: 2"),
        Ok(_) => panic!(),
    }
}

#[test]
fn replicas_start_syncing_and_the_primary_synced() {
    let g = ReplicaGroup::new("p".to_string(), vec!["r1".to_string()], 3);
    assert_eq!(g.version, 1);
    assert_eq!(g.last_updated, 3);
    let state = |n: &str| g.sync_state.iter().find(|(m, _)| m == n).map(|(_, s)| *s);
    assert_eq!(state("p"), Some(SyncState::Synced));
    assert_eq!(state("r1"), Some(SyncState::Syncing));
}

#[test]
fn test_consistency_check() {
    let mut rm = ReplicationManager::new(3, SyncPolicy::Quorum, "local".to_string());
    rm.add_replica_group(1, "primary".to_string(), vec!["replica1".to_string(), "replica2".to_string()], 0);
    assert_eq!(rm.check_replica_consistency(1).unwrap(), false);
    rm.update_sync_state(1, "replica1".to_string(), SyncState::Synced, 1).unwrap();
    rm.update_sync_state(1, "replica2".to_string(), SyncState::Synced, 2).unwrap();
    assert_eq!(rm.check_replica_consistency(1).unwrap(), true);
    assert_eq!(rm.get_replica_group(1).unwrap().version, 3);
    assert!(rm.update_sync_state(5, "x".to_string(), SyncState::Failed, 3).is_err());
    assert!(rm.check_replica_consistency(5).is_err());
    assert!(rm.remove_replica_group(1).is_ok());
    assert!(rm.remove_replica_group(1).is_err());
}

#[test]
fn test_sync_policies_outcomes() {
    assert!(replication_outcome(SyncPolicy::Synchronous, &vec![true, true]).is_ok());
    assert_eq!(replication_outcome(SyncPolicy::Synchronous, &vec![true, false]).unwrap_err(), "同步复制失败，成功: 1/2");
    assert!(replication_outcome(SyncPolicy::Asynchronous, &vec![false, false]).is_ok());
    assert!(replication_outcome(SyncPolicy::Quorum, &vec![true, true, false]).is_ok());
    assert_eq!(
        replication_outcome(SyncPolicy::Quorum, &vec![true, false, false, false]).unwrap_err(),
        "法定人数复制失败，确认数: 1/3"
    );
    assert!(quorum_reached(2, 3));
    assert!(!quorum_reached(2, 4));
    assert!(quorum_reached(1, 0));
}

#[test]
fn node_health_is_monitored() {
    let mut rm = ReplicationManager::new(3, SyncPolicy::Quorum, "local".to_string());
    rm.add_node_to_monitoring("n1".to_string(), 42);
    let h = rm.get_node_health("n1").unwrap();
    assert!(h.is_healthy);
    assert_eq!(h.last_heartbeat, 42);
    assert!(rm.get_node_health("n2").is_none());
}

#[test]
fn node_addresses_by_naming_convention() {
    assert_eq!(dns_node_address("node-1").unwrap(), "node-1.grape-cluster.internal:8080");
    assert_eq!(dns_node_address("节点1").unwrap(), "节点1.grape-cluster.internal:8080");
    assert!(dns_node_address("node_1").is_none());
    assert!(dns_node_address("a.b").is_none());
    assert_eq!(fallback_node_address("n"), "n:8080");
}

#[test]
fn a_removed_node_is_no_longer_watched() {
    let mut m = FailoverManager::new("local".to_string(), FailoverConfig::default());
    m.add_node("a".to_string());
    m.add_node("b".to_string());
    m.apply_failure_verdict("b", true);
    m.remove_node("a");
    assert_eq!(m.get_node_state("a"), None);
    assert_eq!(m.get_node_state("b"), Some(NodeState::Failed));
    m.remove_node("zzz");
    assert_eq!(m.get_node_state("b"), Some(NodeState::Failed));
    assert_eq!(m.node_states.len(), 1);
}
