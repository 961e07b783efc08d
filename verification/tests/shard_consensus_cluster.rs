use grape_vector_db::distributed::cluster::{ClusterCounts, ClusterInfo};
use grape_vector_db::distributed::consensus::{
    batch_result, command_for_entry, deletion_result, replication_result, upsert_result, votes_needed, ApplyOutcome,
    CommandApplier, CommandData, CommandHandler, CommandResult, ConfigChangeType, ConsensusCommand, ConsensusState,
    ElectionOutcome, RaftInternalState, ShardOperation, VectorOperation,
};
use grape_vector_db::distributed::raft::{AppendResponse, RaftState, VectorCommand, VoteResponse};
use grape_vector_db::distributed::shard_planning::{
    apply_stats_delta, cluster_load_totals, estimated_shard_size, get_node_shards, local_shard_ids, migration_verdict,
    missing_local_shard_error, plan_migrations, reassign_primary, shard_distribution, shard_health, IntegrityCheck,
    IntegrityStep, OverloadedNode, ShardLoad,
};
use grape_vector_db::distributed::shard::{
    get_shard_id, initial_shard_layout, CacheStats, ConsistentHashRing, HashAlgorithm, ShardConfig,
};
use grape_vector_db::types::{NodeCounters, NodeInfo, NodeRole, NodeState, ShardInfo, ShardRange, ShardState};
use std::collections::hash_map::DefaultHasher;
use std::hash::{Hash, Hasher};

fn std_hash(s: &str) -> u64 {
    let mut h = DefaultHasher::new();
    s.hash(&mut h);
    h.finish()
}

fn mix64(x: u64) -> u64 {
    let a = x ^ (x >> 33);
    let b = a.wrapping_mul(0xff51afd7ed558ccd);
    let c = b ^ (b >> 33);
    let d = c.wrapping_mul(0xc4ceb9fe1a85ec53);
    d ^ (d >> 33)
}

fn expected_owner(nodes: &[(&str, u32)], per_weight: u32, key: &str) -> String {
    let mut ring: Vec<(u64, String)> = Vec::new();
    for (n, w) in nodes {
        for i in 0..per_weight * w {
            ring.push((mix64(std_hash(&format!("{}:{}", n, i))), n.to_string()));
        }
    }
    ring.sort();
    let h = mix64(std_hash(key));
    ring.iter().find(|(p, _)| *p >= h).unwrap_or(&ring[0]).1.clone()
}

#[test]
fn ring_answers_the_first_virtual_node_clockwise() {
    let mut ring = ConsistentHashRing::new(10);
    assert_eq!(ring.get_node("anything"), None);
    ring.add_node("node1".to_string(), 1);
    ring.add_node("node2".to_string(), 2);
    ring.add_node("node3".to_string(), 1);
    let nodes = [("node1", 1), ("node2", 2), ("node3", 1)];
    for key in ["a", "vector-17", "doc:42", "", "最后"] {
        assert_eq!(ring.get_node(key).unwrap(), expected_owner(&nodes, 10, key), "key {:?}", key);
        assert_eq!(ring.get_node(key).unwrap(), expected_owner(&nodes, 10, key));
    }
    let stats = ring.get_stats();
    assert_eq!(stats.virtual_nodes_count, 40);
    assert_eq!(stats.physical_nodes_count, 3);
    assert_eq!(stats.cache_hits, 5);
    assert_eq!(stats.cache_misses, 6);
    assert_eq!(stats.cache_total_requests, 11);
}

#[test]
fn removing_a_node_hands_its_keys_on() {
    let mut ring = ConsistentHashRing::new(8);
    ring.add_node("a".to_string(), 1);
    ring.add_node("b".to_string(), 1);
    ring.get_node("k1");
    ring.remove_node(&"a".to_string());
    assert_eq!(ring.get_stats().virtual_nodes_count, 8);
    assert_eq!(ring.get_stats().physical_nodes_count, 1);
    for key in ["k1", "k2", "k3"] {
        assert_eq!(ring.get_node(key).unwrap(), "b");
    }
    ring.remove_node(&"zz".to_string());
    assert_eq!(ring.get_stats().physical_nodes_count, 1);
}

#[test]
fn adding_a_node_moves_keys_only_to_it() {
    let mut ring = ConsistentHashRing::new(16);
    ring.add_node("a".to_string(), 1);
    ring.add_node("b".to_string(), 1);
    let keys: Vec<String> = (0..200).map(|i| format!("key-{}", i)).collect();
    let before: Vec<String> = keys.iter().map(|k| ring.owner_at(mix64(std_hash(k))).unwrap()).collect();
    ring.add_node("c".to_string(), 1);
    for (k, b) in keys.iter().zip(before) {
        let after = ring.owner_at(mix64(std_hash(k))).unwrap();
        assert!(after == b || after == "c");
    }
}

#[test]
fn shard_cache_counters() {
    let mut c = CacheStats::new();
    c.record_hit();
    c.record_miss();
    c.record_miss();
    assert_eq!((c.hits, c.misses, c.total_requests), (1, 2, 3));
}

#[test]
fn initial_layout_spreads_shards_and_replicas() {
    let mut config = ShardConfig::default();
    assert_eq!(config.shard_count, 256);
    config.shard_count = 4;
    config.replication_factor = 2;
    let nodes: Vec<String> = vec!["n0".to_string(), "n1".to_string(), "n2".to_string()];
    let layout = initial_shard_layout(&config, &nodes);
    assert_eq!(layout.len(), 4);
    assert_eq!(layout[1].primary_node, "n1");
    assert_eq!(layout[1].replica_nodes, vec!["n2".to_string(), "n0".to_string()]);
    assert_eq!(layout[3].primary_node, "n0");
    let width = u64::MAX / 4;
    assert_eq!(layout[0].range.start_hash, 0);
    assert_eq!(layout[0].range.end_hash, width - 1);
    assert_eq!(layout[3].range.start_hash, 3 * width);
    assert_eq!(layout[3].range.end_hash, u64::MAX);
    let single = initial_shard_layout(&config, &vec!["only".to_string()]);
    assert!(single[0].replica_nodes.is_empty());
}

#[test]
fn keys_map_to_shards_by_each_algorithm() {
    let mut config = ShardConfig::default();
    config.shard_count = 16;
    let mut ring = ConsistentHashRing::new(4);
    config.hash_algorithm = HashAlgorithm::SimpleHash;
    assert_eq!(get_shard_id(&config, &ring, "doc-1") as u64, std_hash("doc-1") % 16);
    config.hash_algorithm = HashAlgorithm::ConsistentHash;
    assert_eq!(get_shard_id(&config, &ring, "doc-1") as u64, std_hash("doc-1") % 16);
    ring.add_node("solo".to_string(), 1);
    assert_eq!(get_shard_id(&config, &ring, "doc-1") as u64, std_hash("solo") % 16);
    config.hash_algorithm = HashAlgorithm::RangeHash;
    let q = std_hash("doc-1") / (u64::MAX / 16);
    assert_eq!(get_shard_id(&config, &ring, "doc-1") as u64, q.min(15));
}

#[test]
fn majority_votes() {
    assert_eq!(votes_needed(0), 1);
    assert_eq!(votes_needed(2), 2);
    assert_eq!(votes_needed(3), 3);
    assert_eq!(votes_needed(4), 3);
}

#[test]
fn consensus_elections_follow_the_answers() {
    let mut s = ConsensusState::default();
    assert!(s.election_timeout >= 150 && s.election_timeout < 300);
    assert_eq!(s.heartbeat_interval, 50);
    let now = s.last_heartbeat + 1_000;
    assert!(s.election_due(now));
    let term = s.begin_election("me".to_string(), now);
    assert_eq!(term, 1);
    assert_eq!(s.state, RaftState::Candidate);
    let granted = Some(VoteResponse { term: 1, vote_granted: true });
    let refused = Some(VoteResponse { term: 1, vote_granted: false });
    let outcome = s.finish_election(&"me".to_string(), 2, &vec![granted, refused.clone()]);
    assert_eq!(outcome, ElectionOutcome::Won);
    assert_eq!(s.state, RaftState::Leader);
    assert!(s.require_leader().is_ok());

    let mut s = ConsensusState::default();
    s.begin_election("me".to_string(), 0);
    let outcome = s.finish_election(&"me".to_string(), 2, &vec![refused.clone(), None]);
    assert_eq!(outcome, ElectionOutcome::Lost);
    assert_eq!(s.state, RaftState::Follower);
    assert_eq!(s.require_leader().unwrap_err(), "不是领导者，无法提交命令");

    let mut s = ConsensusState::default();
    s.begin_election("me".to_string(), 0);
    let higher = Some(VoteResponse { term: 9, vote_granted: false });
    let outcome = s.finish_election(&"me".to_string(), 2, &vec![higher, granted]);
    assert_eq!(outcome, ElectionOutcome::SteppedDown(9));
    assert_eq!(s.current_term, 9);
}

#[test]
fn heartbeats_step_the_leader_down_on_a_higher_term() {
    let mut s = ConsensusState::default();
    s.begin_election("me".to_string(), 0);
    s.finish_election(&"me".to_string(), 0, &vec![]);
    let req = s.heartbeat_request(&"me".to_string());
    assert_eq!(req.term, 1);
    assert!(req.entries.is_empty());
    let ok = Some(AppendResponse { term: 1, success: true, match_index: 0 });
    assert!(!s.handle_heartbeat_responses(&vec![ok, None]));
    assert_eq!(s.state, RaftState::Leader);
    let newer = Some(AppendResponse { term: 4, success: false, match_index: 0 });
    assert!(s.handle_heartbeat_responses(&vec![newer]));
    assert_eq!(s.current_term, 4);
    assert_eq!(s.state, RaftState::Follower);
}

fn node(id: &str, state: NodeState, last_heartbeat: u64, vectors: u64) -> NodeInfo {
    NodeInfo {
        id: id.to_string(),
        address: "10.0.0.1".to_string(),
        port: 7000,
        role: NodeRole::Follower,
        state,
        counters: NodeCounters { request_count: 10, vector_count: vectors },
        last_heartbeat,
    }
}

#[test]
fn config_and_shard_commands() {
    let h = CommandHandler::new();
    match h.execute_config_change(ConfigChangeType::AddNode, &node("n9", NodeState::Healthy, 0, 0)) {
        CommandResult::Success { message, data: Some(CommandData::NodeId(id)) } => {
            assert_eq!(message, "节点 n9 添加成功");
            assert_eq!(id, "n9");
        }
        other => panic!("{:?}", other),
    }
    match h.execute_config_change(ConfigChangeType::AddNode, &node("", NodeState::Healthy, 0, 0)) {
        CommandResult::Error { error, code } => {
            assert_eq!(error, "节点信息不完整");
            assert_eq!(code, 400);
        }
        other => panic!("{:?}", other),
    }
    match h.execute_config_change(ConfigChangeType::RemoveNode, &node("n9", NodeState::Healthy, 0, 0)) {
        CommandResult::Error { error, code } => {
            assert_eq!(error, "节点 n9 不存在");
            assert_eq!(code, 404);
        }
        other => panic!("{:?}", other),
    }
    let create = ShardOperation::CreateShard { shard_id: 5, primary_node: "n1".to_string(), replica_nodes: vec![] };
    match h.execute_shard_operation(create) {
        CommandResult::Success { message, .. } => assert_eq!(message, "分片 5 创建成功"),
        other => panic!("{:?}", other),
    }
    match h.execute_shard_operation(ShardOperation::RebalanceShards { migrations: vec![] }) {
        CommandResult::Success { message, .. } => assert_eq!(message, "分片重新平衡完成，0 个迁移全部成功"),
        other => panic!("{:?}", other),
    }
}

#[test]
fn vector_operation_outcomes() {
    match upsert_result() {
        CommandResult::Success { message, data: None } => assert_eq!(message, "向量插入成功"),
        other => panic!("{:?}", other),
    }
    match deletion_result(&vec![true, false, true]) {
        CommandResult::Success { message, data: Some(CommandData::DeletedCount(n)) } => {
            assert_eq!(message, "删除 2 个向量");
            assert_eq!(n, 2);
        }
        other => panic!("{:?}", other),
    }
    match batch_result(vec![upsert_result()]) {
        CommandResult::Success { message, data: Some(CommandData::Results(v)) } => {
            assert_eq!(message, "批量操作完成");
            assert_eq!(v.len(), 1);
        }
        other => panic!("{:?}", other),
    }
}

fn cluster(nodes: Vec<NodeInfo>, shards: Vec<ShardInfo>) -> ClusterInfo {
    ClusterInfo {
        nodes,
        leader_id: None,
        shards,
        shard_map_version: 0,
        stats: ClusterCounts {
            total_nodes: 0,
            active_nodes: 0,
            total_shards: 0,
            total_vectors: 0,
            avg_request_count: 0,
            avg_vector_count: 0,
        },
        version: 0,
    }
}

fn shard(id: u32, primary: &str, replicas: &[&str]) -> ShardInfo {
    ShardInfo {
        id,
        primary_node: primary.to_string(),
        replica_nodes: replicas.iter().map(|s| s.to_string()).collect(),
        state: ShardState::Active,
        range: ShardRange { start_hash: 0, end_hash: 0 },
    }
}

#[test]
fn failed_primary_is_replaced_by_its_first_replica() {
    let mut c = cluster(
        vec![
            node("a", NodeState::Healthy, 0, 0),
            node("b", NodeState::Healthy, 0, 0),
            node("c", NodeState::Healthy, 0, 0),
        ],
        vec![shard(0, "a", &["b"]), shard(1, "b", &["c"])],
    );
    assert!(c.handle_node_failure("a").is_ok());
    assert_eq!(c.shards[0].primary_node, "b");
    assert!(!c.shards[0].replica_nodes.contains(&"a".to_string()));
    assert_eq!(c.shards[1].primary_node, "b");
    assert_eq!(c.version, 1);
    let mut lone = cluster(vec![node("a", NodeState::Healthy, 0, 0)], vec![shard(0, "a", &[])]);
    assert_eq!(lone.handle_node_failure("a").unwrap_err(), "没有健康的节点可用于重新分配分片");
}

#[test]
fn membership_and_statistics() {
    let mut c = cluster(vec![], vec![]);
    assert!(c.add_node(node("a", NodeState::Healthy, 0, 40), 2).is_ok());
    assert!(c.add_node(node("b", NodeState::Unhealthy, 0, 10), 2).is_ok());
    assert_eq!(c.add_node(node("c", NodeState::Healthy, 0, 1), 2).unwrap_err(), "集群已达到最大节点数量");
    c.update_cluster_stats();
    assert_eq!(c.stats.total_nodes, 2);
    assert_eq!(c.stats.active_nodes, 1);
    assert_eq!(c.stats.total_vectors, 50);
    assert_eq!(c.stats.avg_vector_count, 50);
    assert_eq!(c.stats.avg_request_count, 10);
    assert_eq!(c.find_node("b"), Some(1));
    c.update_node_state_at("b", NodeState::Healthy, 77);
    assert_eq!(c.nodes[1].state, NodeState::Healthy);
    assert_eq!(c.nodes[1].last_heartbeat, 77);
    assert!(c.remove_node("zz").is_ok());
    assert!(c.remove_node("a").is_ok());
    assert_eq!(c.nodes.len(), 1);
}

#[test]
fn silent_nodes_are_marked_unhealthy() {
    let mut c = cluster(
        vec![node("a", NodeState::Healthy, 100, 0), node("b", NodeState::Healthy, 10, 0)],
        vec![],
    );
    let failed = c.mark_timed_out_nodes(100, 30);
    assert_eq!(failed, vec!["b".to_string()]);
    assert_eq!(c.nodes[1].state, NodeState::Unhealthy);
    assert_eq!(c.nodes[0].state, NodeState::Healthy);
}

#[test]
fn shard_health_lists_each_exceeded_limit() {
    let mut config = ShardConfig::default();
    config.max_vectors_per_shard = 10;
    config.max_shard_size_bytes = 100;
    let load = ShardLoad { vector_count: 11, storage_size: 100, read_qps: 7, write_qps: -1, avg_latency_us: 100_001, last_updated: 0 };
    let h = shard_health(3, &load, &config, 99);
    assert!(!h.is_healthy);
    assert_eq!(h.issues, vec!["分片向量数量超出限制".to_string(), "分片平均延迟过高".to_string()]);
    assert_eq!(h.last_check, 99);
    assert_eq!(h.metrics[4], ("avg_latency_ms".to_string(), 100));
    assert_eq!(h.metrics[0], ("vector_count".to_string(), 11));
    let ok = ShardLoad { vector_count: 1, storage_size: 1, read_qps: 0, write_qps: 0, avg_latency_us: 100_000, last_updated: 0 };
    assert!(shard_health(3, &ok, &config, 0).is_healthy);
}

#[test]
fn shard_statistics_never_go_negative() {
    let mut l = ShardLoad { vector_count: 5, storage_size: 100, read_qps: 1, write_qps: 2, avg_latency_us: 3, last_updated: 0 };
    apply_stats_delta(&mut l, -7, 50, 12);
    assert_eq!((l.vector_count, l.storage_size, l.last_updated), (0, 150, 12));
    assert_eq!(estimated_shard_size(Some(42)), 42);
    assert_eq!(estimated_shard_size(None), 1024 * 1024);
    let totals = cluster_load_totals(&vec![l, ShardLoad { vector_count: 9, ..l }]);
    assert_eq!(totals, (9, 300));
}

#[test]
fn primaries_and_their_shards() {
    let mut shards = vec![shard(0, "a", &["b"]), shard(1, "b", &[]), shard(2, "a", &[])];
    assert_eq!(get_node_shards(&shards, "a"), vec![0, 2]);
    assert!(get_node_shards(&shards, "c").is_empty());
    let d = shard_distribution(&shards);
    assert_eq!(d, vec![("a".to_string(), 2), ("b".to_string(), 1)]);
    reassign_primary(&mut shards, 2, &"c".to_string());
    assert_eq!(shards[2].primary_node, "c");
    assert_eq!(shards[0].primary_node, "a");
    reassign_primary(&mut shards, 9, &"z".to_string());
    assert_eq!(shard_distribution(&shards).len(), 3);
}

#[test]
fn migrations_pair_overloaded_with_underloaded_nodes() {
    assert_eq!(plan_migrations(0, &vec![], &vec![]).unwrap_err(), "集群节点列表为空");
    let over = vec![
        OverloadedNode { node_id: "o1".to_string(), first_shard: Some(4), shard_size: 10 },
        OverloadedNode { node_id: "o2".to_string(), first_shard: None, shard_size: 0 },
        OverloadedNode { node_id: "o3".to_string(), first_shard: Some(8), shard_size: 20 },
        OverloadedNode { node_id: "o4".to_string(), first_shard: Some(9), shard_size: 30 },
    ];
    let under = vec!["u1".to_string(), "u2".to_string()];
    let ms = plan_migrations(5, &over, &under).unwrap();
    assert_eq!(ms.len(), 2);
    assert_eq!((ms[0].shard_id, ms[0].from_node.as_str(), ms[0].to_node.as_str()), (4, "o1", "u1"));
    assert_eq!((ms[1].shard_id, ms[1].from_node.as_str(), ms[1].to_node.as_str()), (8, "o3", "u2"));
    assert_eq!(ms[1].estimated_size, 20);
    assert_eq!(ms[0].reason, "负载重新平衡");
    assert_eq!(ms[0].estimated_duration, 30);
    assert!(plan_migrations(5, &over, &vec![]).unwrap().is_empty());
}

#[test]
fn monitoring_marks_silent_nodes_and_repairs_their_shards() {
    let mut c = cluster(
        vec![node("a", NodeState::Healthy, 0, 5), node("b", NodeState::Healthy, 95, 7), node("c", NodeState::Healthy, 99, 1)],
        vec![shard(0, "a", &["b"]), shard(1, "b", &["c"])],
    );
    assert!(c.monitor_cluster_health_at(100, 30).is_ok());
    assert_eq!(c.nodes[0].state, NodeState::Unhealthy);
    assert_eq!(c.shards[0].primary_node, "b");
    assert_eq!(c.stats.active_nodes, 2);
    assert_eq!(c.stats.total_vectors, 13);
    let mut lone = cluster(vec![node("a", NodeState::Healthy, 0, 0)], vec![shard(0, "a", &[])]);
    assert_eq!(lone.monitor_cluster_health_at(100, 30).unwrap_err(), "没有健康的节点可用于重新分配分片");
}

#[test]
fn committed_commands_and_the_leaders_log() {
    use_consensus_internals();
}

fn use_consensus_internals() {
    let up = command_for_entry(VectorCommand::Upsert { points: vec![1u8, 2], shard_id: 4 }, "me".to_string());
    assert!(matches!(up, Some(ConsensusCommand::VectorOperation { operation: VectorOperation::Upsert { ref points }, shard_id: 4 }) if points == &vec![1u8, 2]));
    let del = command_for_entry::<u8>(VectorCommand::Delete { point_ids: vec!["p".to_string()], shard_id: 2 }, "me".to_string());
    assert!(matches!(del, Some(ConsensusCommand::VectorOperation { operation: VectorOperation::Delete { .. }, shard_id: 2 })));
    let create = command_for_entry::<u8>(VectorCommand::CreateShard { shard_id: 6, hash_range: (0, 9) }, "me".to_string());
    match create {
        Some(ConsensusCommand::ShardOperation { operation: ShardOperation::CreateShard { shard_id, primary_node, replica_nodes } }) => {
            assert_eq!((shard_id, primary_node.as_str(), replica_nodes.len()), (6, "me", 0));
        }
        other => panic!("{:?}", other.is_some()),
    }
    assert!(command_for_entry::<u8>(VectorCommand::DropShard { shard_id: 1 }, "me".to_string()).is_none());

    let mut a = CommandApplier::new();
    assert_eq!(a.pending(3), Some((1, 3)));
    a.record(2, ApplyOutcome::Applied);
    a.record(3, ApplyOutcome::Failed);
    assert_eq!(a.last_applied, 2);
    assert_eq!(a.pending(2), None);

    let mut s = RaftInternalState::new();
    let e = s.append_command(vec![9]);
    assert_eq!((e.term, e.index), (0, 0));
    let e = s.append_command(vec![8]);
    assert_eq!(e.index, 1);
    let r = replication_result(5, &vec![true, false, true, false], 1);
    assert!(r.success);
    assert_eq!((r.successful_replications, r.required_acks, r.committed_index), (3, 3, 1));
    s.apply_replication(&r);
    assert_eq!(s.commit_index, 1);
    let r = replication_result(5, &vec![true, false, false, false], 1);
    assert!(!r.success);
    assert_eq!(r.committed_index, 0);
}

#[test]
fn integrity_checks_run_in_order_and_stop_at_the_first_failure() {
    let mut c = IntegrityCheck::new();
    assert_eq!(c.next_step(), Some(IntegrityStep::VectorCount));
    c.record(Ok(true));
    assert_eq!(c.next_step(), Some(IntegrityStep::DataHash));
    c.record(Ok(true));
    assert_eq!(c.next_step(), Some(IntegrityStep::IndexIntegrity));
    c.record(Ok(true));
    assert_eq!(c.next_step(), None);
    let r = c.result();
    assert!(r.is_valid);
    assert_eq!(r.checks_performed, "vector_count, data_hash, index_integrity");
    assert_eq!(r.failure_reason, None);

    let mut d = IntegrityCheck::new();
    d.record(Ok(true));
    d.record(Ok(false));
    assert_eq!(d.next_step(), None);
    let r = d.result();
    assert!(!r.is_valid);
    assert_eq!(r.checks_performed, "vector_count, data_hash");
    assert_eq!(r.failure_reason, Some("数据哈希不一致".to_string()));

    let mut e = IntegrityCheck::new();
    e.record(Err("timeout".to_string()));
    let r = e.result();
    assert!(!r.is_valid);
    assert_eq!(r.checks_performed, "");
    assert_eq!(r.failure_reason, Some("向量数量检查失败: timeout".to_string()));
}

#[test]
fn a_migration_goes_on_only_after_a_passed_check() {
    assert_eq!(migration_verdict(Ok(true)), Ok(()));
    assert_eq!(migration_verdict(Ok(false)), Err("数据完整性验证失败".to_string()));
    assert_eq!(migration_verdict(Err("boom".to_string())), Err("boom".to_string()));
    assert_eq!(missing_local_shard_error(42), "本地不存在分片 42");
}

#[test]
fn a_node_opens_the_shards_it_leads_or_copies() {
    let shards = vec![shard(0, "a", &["b"]), shard(1, "b", &["c"]), shard(2, "c", &["a", "b"])];
    assert_eq!(local_shard_ids(&shards, "a"), vec![0, 2]);
    assert_eq!(local_shard_ids(&shards, "b"), vec![0, 1, 2]);
    assert_eq!(local_shard_ids(&shards, "z"), Vec::<u32>::new());
}

#[test]
fn node_state_update_uses_the_clock() {
    let mut c = cluster(vec![node("a", NodeState::Healthy, 0, 3), node("b", NodeState::Healthy, 5, 0)], vec![]);
    c.update_node_state("b", NodeState::Unhealthy);
    assert_eq!(c.nodes[1].state, NodeState::Unhealthy);
    assert!(c.nodes[1].last_heartbeat > 1_600_000_000);
    assert_eq!(c.nodes[0].state, NodeState::Healthy);
    assert_eq!(c.nodes[0].last_heartbeat, 0);
    assert_eq!(c.version, 1);
    c.update_node_state("zz", NodeState::Healthy);
    assert_eq!(c.version, 1);
}

#[test]
fn adding_then_removing_a_node_gives_the_ring_back() {
    let mut ring = ConsistentHashRing::new(10);
    ring.add_node("node1".to_string(), 1);
    ring.add_node("node2".to_string(), 2);
    let keys = ["a", "vector-17", "doc:42", "", "最后", "k9"];
    let before: Vec<_> = keys.iter().map(|k| ring.get_node(k)).collect();
    let stats = ring.get_stats();
    ring.add_node("node3".to_string(), 3);
    ring.remove_node(&"node3".to_string());
    let after: Vec<_> = keys.iter().map(|k| ring.get_node(k)).collect();
    assert_eq!(before, after);
    assert_eq!(ring.get_stats().virtual_nodes_count, stats.virtual_nodes_count);
    assert_eq!(ring.get_stats().physical_nodes_count, stats.physical_nodes_count);
}
