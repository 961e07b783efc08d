use grape_vector_db::distributed::network::{
    api_result, api_url, apply_health_check, connected, missing_connection_error, node_base_url, ApiResponse,
    ConnectionStatus, ConnectionTable,
};
use grape_vector_db::distributed::network_client::{
    after_failed_attempt, heartbeat_request, no_attempt_error, node_url, replication_request, shard_migration_request,
    vector_insert_request, vector_url, NetworkClientSettings, NetworkError, Point, RetryStep,
};
use grape_vector_db::text;
use grape_vector_db::text::{push_zero_padded, str_equal, str_less, u64_to_decimal, with_decimal};
use grape_vector_db::types::{NodeCounters, NodeInfo, NodeRole, NodeState};

fn node(id: &str) -> NodeInfo {
    NodeInfo {
        id: id.to_string(),
        address: "10.1.2.3".to_string(),
        port: 7001,
        role: NodeRole::Follower,
        state: NodeState::Healthy,
        counters: NodeCounters { request_count: 0, vector_count: 0 },
        last_heartbeat: 0,
    }
}

#[test]
fn urls_of_nodes_and_routes() {
    assert_eq!(node_base_url(&node("n")), "http://10.1.2.3:7001");
    assert_eq!(api_url("http://10.1.2.3:7001", "/raft/vote"), "http://10.1.2.3:7001/raft/vote");
    assert_eq!(missing_connection_error("n7"), "未找到节点连接: n7");
    assert_eq!(node_url("10.0.0.5:8080", "/api/v1/heartbeat"), "http://10.0.0.5:8080/api/v1/heartbeat");
    assert_eq!(vector_url("h:1", "p-9"), "http://h:1/api/v1/vectors/p-9");
}

#[test]
fn api_replies_become_results() {
    let ok = ApiResponse { success: true, data: Some(5u32), error: None };
    assert_eq!(api_result(ok, "未知错误"), Ok(5));
    let no_data: ApiResponse<u32> = ApiResponse { success: true, data: None, error: None };
    assert_eq!(api_result(no_data, "加入集群失败"), Err("加入集群失败".to_string()));
    let failed = ApiResponse { success: false, data: Some(1u32), error: Some("denied".to_string()) };
    assert_eq!(api_result(failed, "未知错误"), Err("denied".to_string()));
}

#[test]
fn health_checks_update_live_connections_only() {
    let mut c = connected(node("a"), 10);
    assert_eq!(c.base_url, "http://10.1.2.3:7001");
    apply_health_check(&mut c, true, 50);
    assert_eq!(c.last_active, 50);
    apply_health_check(&mut c, false, 60);
    assert_eq!(c.status, ConnectionStatus::Failed);
    assert_eq!(c.last_active, 50);
    apply_health_check(&mut c, true, 70);
    assert_eq!(c.status, ConnectionStatus::Failed);
    assert_eq!(c.last_active, 50);
}

#[test]
fn connection_table_keeps_one_connection_per_node() {
    let mut t = ConnectionTable::new();
    t.insert(connected(node("a"), 1));
    t.insert(connected(node("b"), 2));
    t.insert(connected(node("a"), 3));
    assert_eq!(t.all_statuses().len(), 2);
    assert_eq!(t.status_of("a"), Some(ConnectionStatus::Connected));
    assert_eq!(t.status_of("zz"), None);
    t.disconnect("a");
    assert_eq!(t.status_of("a"), Some(ConnectionStatus::Disconnected));
    assert_eq!(t.status_of("b"), Some(ConnectionStatus::Connected));
    assert_eq!(t.live_nodes(), vec!["b".to_string()]);
    t.record_health_check("b", false, 9);
    assert_eq!(t.status_of("b"), Some(ConnectionStatus::Failed));
    t.insert(connected(node("c"), 4));
    t.shutdown();
    assert!(t.all_statuses().iter().all(|(_, s)| *s == ConnectionStatus::Disconnected));
    assert!(t.live_nodes().is_empty());
}

#[test]
fn client_settings_and_messages() {
    let s = NetworkClientSettings::new();
    assert_eq!((s.timeout_ms, s.retry_attempts), (10_000, 3));
    let s = s.with_timeout(2_000).with_retry_attempts(5);
    assert_eq!((s.timeout_ms, s.retry_attempts), (2_000, 5));
    let h = heartbeat_request();
    assert_eq!(h.sender_id, "local_node");
    assert!(h.timestamp > 1_600_000_000);
    let r = replication_request(&[1, 2, 3]);
    assert_eq!(r.data, vec![1, 2, 3]);
    let p = Point { id: "p1".to_string(), vector_bits: vec![1.5f32.to_bits()], payload: vec![] };
    let v = vector_insert_request(p);
    assert_eq!(v.point.id, "p1");
    assert_eq!(v.sender_id, "local_node");
    let m = shard_migration_request(vec![7]);
    assert_eq!(m.shard_data, vec![7]);
    assert_eq!(NetworkError::RequestFailed("x".to_string()).message(), "请求失败: x");
    assert_eq!(NetworkError::MaxRetriesExceeded.message(), "超过最大重试次数");
    assert_eq!(NetworkError::Timeout.message(), "连接超时");
    assert_eq!(NetworkError::NodeUnreachable.message(), "节点不可达");
    assert!(matches!(no_attempt_error(), NetworkError::MaxRetriesExceeded));
}

#[test]
fn failed_tries_wait_longer_then_give_up() {
    assert_eq!(after_failed_attempt(0, 3, 100), RetryStep::Wait { delay_ms: 100 });
    assert_eq!(after_failed_attempt(1, 3, 200), RetryStep::Wait { delay_ms: 400 });
    assert_eq!(after_failed_attempt(2, 3, 100), RetryStep::GiveUp);
    assert_eq!(after_failed_attempt(0, 1, 100), RetryStep::GiveUp);
}

#[test]
fn text_helpers() {
    assert_eq!(u64_to_decimal(0), "0");
    assert_eq!(u64_to_decimal(u64::MAX), u64::MAX.to_string());
    assert_eq!(with_decimal("n", 42), "n42");
    let mut s = String::from("x");
    push_zero_padded(&mut s, 42, 5);
    assert_eq!(s, "x00042");
    let mut s = String::new();
    push_zero_padded(&mut s, 123456, 3);
    assert_eq!(s, "123456");
    assert_eq!(text::concat("ab", "的"), "ab的");
    assert!(str_equal("é", "é"));
    assert!(!str_equal("a", "A"));
    for (a, b) in [("a", "b"), ("a", "ab"), ("", "a"), ("b", "a"), ("é", "z"), ("same", "same")] {
        assert_eq!(str_less(a, b), a < b, "{:?} < {:?}", a, b);
    }
}
