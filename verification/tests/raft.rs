use grape_vector_db::distributed::raft::{
    command_type_name, AppendRequest, LogEntry, LogEntryType, RaftConfig, RaftNode, RaftState, VectorCommand,
    VoteRequest,
};

fn config(id: &str, peers: &[&str]) -> RaftConfig {
    RaftConfig {
        node_id: id.to_string(),
        peers: peers.iter().map(|p| p.to_string()).collect(),
        election_timeout_ms: 150,
        heartbeat_interval_ms: 50,
        log_compaction_threshold: 1000,
        snapshot_interval: 100,
    }
}

fn entry(index: u64, term: u64) -> LogEntry {
    LogEntry { index, term, entry_type: LogEntryType::Normal, data: vec![index as u8], timestamp: 0 }
}

fn vote(term: u64, candidate: &str, last_index: u64, last_term: u64) -> VoteRequest {
    VoteRequest { term, candidate_id: candidate.to_string(), last_log_index: last_index, last_log_term: last_term }
}

fn append(term: u64, prev_index: u64, prev_term: u64, entries: Vec<LogEntry>, commit: u64) -> AppendRequest {
    AppendRequest {
        term,
        leader_id: "leader".to_string(),
        prev_log_index: prev_index,
        prev_log_term: prev_term,
        entries,
        leader_commit: commit,
    }
}

#[test]
fn raft_defaults() {
    let c = RaftConfig::default();
    assert_eq!(c.node_id.len(), 36);
    assert_eq!(c.election_timeout_ms, 150);
    assert_eq!(c.heartbeat_interval_ms, 50);
    let n = RaftNode::new(config("a", &[]));
    assert_eq!(n.get_state(), RaftState::Follower);
    assert_eq!(n.get_term(), 0);
    assert_eq!(n.get_last_log_index(), 0);
    assert_eq!(n.get_last_log_term(), 0);
    assert!(!n.is_leader());
}

#[test]
fn one_vote_per_term() {
    let mut n = RaftNode::new(config("a", &["b", "c"]));
    let r = n.handle_vote_request(vote(1, "b", 0, 0));
    assert!(r.vote_granted);
    assert_eq!(r.term, 1);
    let r = n.handle_vote_request(vote(1, "c", 0, 0));
    assert!(!r.vote_granted);
    let r = n.handle_vote_request(vote(1, "b", 0, 0));
    assert!(r.vote_granted);
    let r = n.handle_vote_request(vote(2, "c", 0, 0));
    assert!(r.vote_granted);
    assert_eq!(n.get_term(), 2);
}

#[test]
fn stale_or_behind_candidates_get_no_vote() {
    let mut n = RaftNode::new(config("a", &["b"]));
    n.handle_append_request(append(3, 0, 0, vec![entry(1, 2), entry(2, 3)], 0));
    assert_eq!(n.get_term(), 3);
    assert!(!n.handle_vote_request(vote(2, "b", 5, 2)).vote_granted);
    assert!(!n.handle_vote_request(vote(4, "b", 1, 3)).vote_granted);
    assert!(!n.handle_vote_request(vote(4, "b", 9, 2)).vote_granted);
    assert!(n.handle_vote_request(vote(4, "b", 2, 3)).vote_granted);
}

#[test]
fn append_checks_the_previous_entry_and_merges() {
    let mut n = RaftNode::new(config("f", &["leader"]));
    let out = n.handle_append_request(append(1, 0, 0, vec![entry(1, 1), entry(2, 1), entry(3, 1)], 2));
    assert!(out.response.success);
    assert_eq!(out.response.match_index, 3);
    assert_eq!(n.get_commit_index(), 2);
    assert!(out.commit_advanced);
    let out = n.handle_append_request(append(1, 5, 1, vec![], 2));
    assert!(!out.response.success);
    let out = n.handle_append_request(append(2, 1, 1, vec![entry(2, 2)], 2));
    assert!(out.response.success);
    assert_eq!(n.get_last_log_index(), 2);
    assert_eq!(n.get_last_log_term(), 2);
    assert_eq!(n.get_log_entry(2).unwrap().term, 2);
    assert!(n.get_log_entry(3).is_none());
    let out = n.handle_append_request(append(1, 0, 0, vec![], 9));
    assert!(!out.response.success);
    assert_eq!(out.response.term, 2);
}

#[test]
fn elections_need_a_majority() {
    let mut n = RaftNode::new(config("a", &["b", "c"]));
    assert_eq!(n.quorum_size(), 2);
    let req = n.start_election();
    assert_eq!(req.term, 1);
    assert_eq!(req.candidate_id, "a");
    assert_eq!(n.get_state(), RaftState::Candidate);
    assert!(!n.finish_election(1));
    assert_eq!(n.get_state(), RaftState::Follower);
    n.start_election();
    assert!(n.finish_election(2));
    assert!(n.is_leader());
    assert_eq!(n.get_term(), 2);
    let mut single = RaftNode::new(config("solo", &[]));
    assert_eq!(single.quorum_size(), 1);
    single.start_election();
    assert!(single.finish_election(1));
}

#[test]
fn only_the_leader_takes_commands_and_commits_with_a_quorum() {
    let mut n = RaftNode::new(config("a", &["b", "c"]));
    assert_eq!(n.handle_client_command(vec![1], 7).unwrap_err(), "只有领导者可以处理客户端命令");
    n.start_election();
    n.finish_election(2);
    let idx = n.handle_client_command(vec![1], 7).unwrap();
    assert_eq!(idx, 1);
    let req = n.replication_request(idx);
    assert_eq!(req.entries.len(), 1);
    assert_eq!(req.prev_log_index, 0);
    assert_eq!(n.finish_replication(idx, 1).unwrap_err(), "未能获得多数节点确认: 1/2");
    assert_eq!(n.get_commit_index(), 0);
    assert!(n.finish_replication(idx, 2).is_ok());
    assert_eq!(n.get_commit_index(), 1);
    let applied = n.apply_committed_entries();
    assert_eq!(applied.len(), 1);
    assert_eq!(applied[0].data, vec![1]);
    assert!(n.apply_committed_entries().is_empty());
}

#[test]
fn timers_keys_and_urls() {
    let n = RaftNode::new(config("node-7", &["p1"]));
    assert!(n.election_due(150, 150));
    assert!(!n.election_due(149, 150));
    assert!(!n.should_send_heartbeats());
    let t = RaftNode::randomized_election_timeout(150);
    assert!((150..450).contains(&t));
    assert_eq!(RaftNode::heartbeat_url("p1"), "http://p1:8080/raft/heartbeat");
    assert_eq!(n.state_key(), "raft_state_node-7");
    assert_eq!(n.log_key(12), "raft_log_node-7_12");
    assert_eq!(RaftNode::recovery_log_key(12), "raft_log_00000000000000000012");
    assert!(RaftNode::recovery_scan_exhausted(11, 0));
    assert!(!RaftNode::recovery_scan_exhausted(10, 0));
    assert!(!RaftNode::recovery_scan_exhausted(u64::MAX, u64::MAX - 5));
    assert_eq!(RaftNode::default_node_address("p1"), "p1:9090");
    assert_eq!(n.cluster_configuration(), vec!["node-7".to_string(), "p1".to_string()]);
    assert!(RaftNode::vote_for_roll(1, 7));
    assert!(!RaftNode::vote_for_roll(1, 8));
    assert!(!RaftNode::vote_for_roll(0, 0));
    assert!(RaftNode::append_for_roll(1, 1, 8));
    assert!(!RaftNode::append_for_roll(1, 0, 0));
}

#[test]
fn state_is_persisted_and_restored() {
    let mut n = RaftNode::new(config("a", &["b"]));
    n.handle_vote_request(vote(4, "b", 0, 0));
    let p = n.persistent_state();
    assert_eq!(p.current_term, 4);
    assert_eq!(p.voted_for.as_deref(), Some("b"));
    let mut m = RaftNode::new(config("a", &["b"]));
    m.restore_state(p);
    assert_eq!(m.get_term(), 4);
    assert!(m.restore_logs(vec![entry(1, 1), entry(2, 5)]).is_ok());
    assert_eq!(m.get_term(), 5);
    assert_eq!(
        m.restore_logs(vec![entry(1, 2), entry(2, 3), entry(3, 1)]).unwrap_err(),
        "日志一致性检查失败：索引 3 的任期 1 小于前一条目的任期 3"
    );
}

#[test]
fn logs_are_compacted_into_a_snapshot() {
    let mut n = RaftNode::new(config("a", &[]));
    n.handle_append_request(append(1, 0, 0, (1..=4).map(|i| entry(i, 1)).collect(), 0));
    assert!(n.compact_log(0, 1, vec![], 0).is_err());
    assert!(n.compact_log(5, 1, vec![], 0).is_err());
    assert!(n.compact_log(2, 1, vec![9], 0).is_ok());
    assert_eq!(n.log.len(), 3);
    assert_eq!(n.log[0].entry_type, LogEntryType::Snapshot);
    assert_eq!(n.log[0].index, 2);
    assert_eq!(n.log[1].index, 3);
    assert!(!n.should_compact_log());
    assert!(n.auto_compaction_point().is_none());
}

#[test]
fn applied_normal_entries_and_simulated_peers() {
    let mut n = RaftNode::new(config("a", &[]));
    assert_eq!(n.get_node_id(), "a");
    let mut entries: Vec<LogEntry> = (1..=4).map(|i| entry(i, 1)).collect();
    entries[1].entry_type = LogEntryType::ConfigChange;
    n.handle_append_request(append(1, 0, 0, entries, 3));
    n.apply_committed_entries();
    assert_eq!(n.applied_normal_positions(), vec![0, 2]);
    let v = vote(1, "a", 0, 0);
    if RaftNode::simulate_peer_vote(&v) {
        assert!(v.term > 0);
    }
    assert!(!RaftNode::simulate_peer_vote(&vote(0, "a", 0, 0)));
    assert!(!RaftNode::simulate_peer_append(&append(1, 0, 0, vec![], 0)));
}

#[test]
fn snapshot_summaries_name_the_kind_of_command() {
    let upsert: VectorCommand<u8> = VectorCommand::Upsert { points: vec![1, 2], shard_id: 3 };
    let delete: VectorCommand<u8> = VectorCommand::Delete { point_ids: vec!["a".to_string()], shard_id: 3 };
    let create: VectorCommand<u8> = VectorCommand::CreateShard { shard_id: 1, hash_range: (0, 10) };
    let drop: VectorCommand<u8> = VectorCommand::DropShard { shard_id: 1 };
    assert_eq!(command_type_name(Some(&upsert)), "upsert");
    assert_eq!(command_type_name(Some(&delete)), "delete");
    assert_eq!(command_type_name(Some(&create)), "create_shard");
    assert_eq!(command_type_name(Some(&drop)), "drop_shard");
    assert_eq!(command_type_name::<u8>(None), "unknown");
}
