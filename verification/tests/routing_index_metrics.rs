use grape_vector_db::distributed::load_balancer::RouteResult;
use grape_vector_db::distributed::request_router::{
    CachedResponse, ClusterAwareRequestRouter, RequestType, RetryPlan, RoutingConfig, RoutingFailure, RoutingRun,
};
use grape_vector_db::embedded::{
    disk_check, ensure_ready, has_active_operations, health_from_checks, shutdown_timed_out, storage_check,
    CheckStatus, DatabaseState, EmbeddedConfig, HealthChecker,
};
use grape_vector_db::index::{IndexConfig, IndexOptimizer, IndexStats, OptimizationStrategy};
use grape_vector_db::metrics::{CacheStats, QpsCalculator, QueryTimeStats};
use std::time::Duration;

fn route(target: &str, backups: &[&str]) -> RouteResult {
    RouteResult {
        target_node: target.to_string(),
        backup_nodes: backups.iter().map(|s| s.to_string()).collect(),
        routing_reason: String::new(),
    }
}

#[test]
fn test_request_router_creation() {
    let r = ClusterAwareRequestRouter::new(RoutingConfig::default());
    assert_eq!(r.config.max_retries, 3);
    assert_eq!(r.routing_metrics.total_requests, 0);
    assert!(r.connection_pools.is_empty());
}

#[test]
fn retries_walk_the_backups_up_to_the_limit() {
    let mut p = RetryPlan::new(&route("n1", &["n2", "n3"]), 1);
    assert_eq!(p.next_target().as_deref(), Some("n1"));
    assert_eq!(p.counters(), (0, false));
    assert_eq!(p.next_target().as_deref(), Some("n2"));
    assert_eq!(p.counters(), (1, true));
    assert_eq!(p.next_target(), None);
    let mut p = RetryPlan::new(&route("n1", &[]), 5);
    assert_eq!(p.next_target().as_deref(), Some("n1"));
    assert_eq!(p.next_target(), None);
    let mut p = RetryPlan::new(&route("n1", &["n2"]), 0);
    assert_eq!(p.next_target().as_deref(), Some("n1"));
    assert_eq!(p.next_target(), None);
}

#[test]
fn test_routing_metrics() {
    let mut r = ClusterAwareRequestRouter::new(RoutingConfig::default());
    r.update_routing_metrics(&"n1".to_string(), true, false);
    r.update_routing_metrics(&"n1".to_string(), false, true);
    r.update_routing_metrics(&"n2".to_string(), true, false);
    r.update_cache_metrics(true);
    r.update_cache_metrics(false);
    let m = &r.routing_metrics;
    assert_eq!(m.total_requests, 3);
    assert_eq!(m.successful_requests, 2);
    assert_eq!(m.failed_requests, 1);
    assert_eq!(m.failover_count, 1);
    assert_eq!(m.cache_hits, 1);
    assert_eq!(m.cache_misses, 1);
    assert_eq!(m.requests_per_node.iter().find(|(n, _)| n == "n1").unwrap().1, 2);
}

#[test]
fn pools_are_made_once_and_dropped_when_idle() {
    let mut r = ClusterAwareRequestRouter::new(RoutingConfig::default());
    r.ensure_connection_pool(&"n1".to_string(), 1_000);
    r.ensure_connection_pool(&"n1".to_string(), 2_000);
    r.ensure_connection_pool(&"n2".to_string(), 700_000);
    assert_eq!(r.connection_pools.len(), 2);
    assert_eq!(r.connection_pools[0].last_used, 1_000);
    assert_eq!(r.connection_pools[0].max_connections, 10);
    r.cleanup_connection_pools(700_500);
    assert_eq!(r.connection_pools.len(), 1);
    assert_eq!(r.connection_pools[0].node_id, "n2");
}

#[test]
fn cache_serves_fresh_answers_only() {
    let mut r = ClusterAwareRequestRouter::new(RoutingConfig::default());
    r.request_cache.push(("q1".to_string(), CachedResponse { data: vec![1, 2], cached_at: 1_000, ttl_ms: 500 }));
    r.request_cache.push(("q2".to_string(), CachedResponse { data: vec![3], cached_at: 1_000, ttl_ms: 5_000 }));
    assert_eq!(r.check_cache("q1", 1_499).unwrap().data, vec![1, 2]);
    assert!(r.check_cache("q1", 1_500).is_none());
    assert!(r.check_cache("zz", 1_000).is_none());
    r.cleanup_cache(2_000);
    assert_eq!(r.request_cache.len(), 1);
    assert_eq!(r.request_cache[0].0, "q2");
    assert_eq!(RequestType::VectorSearch.name(), "VectorSearch");
}

#[test]
fn index_defaults_and_optimization_rules() {
    let c = IndexConfig::default();
    assert_eq!(c.index_type, "hnsw");
    assert_eq!(c.ef_search, 100);
    let mut o = IndexOptimizer::new();
    let stats = |n: usize, mem: usize| IndexStats {
        vector_count: n,
        dimension: 8,
        index_type: "hnsw".to_string(),
        memory_usage: mem,
    };
    assert!(!o.should_optimize(&stats(9_999, 100 * 1024 * 1024 - 1)));
    assert!(o.should_optimize(&stats(10_000, 0)));
    assert!(o.should_optimize(&stats(0, 100 * 1024 * 1024)));
    o.add_strategy(OptimizationStrategy::VectorCountBased { threshold: 5 });
    assert!(o.should_optimize(&stats(5, 0)));
    o.add_strategy(OptimizationStrategy::PeriodicRebuild { interval_seconds: 1 });
    assert!(!o.should_optimize(&stats(1, 0)));
}

#[test]
fn cache_counters_wrap() {
    let mut c = CacheStats::new();
    c.record_hit();
    c.record_hit();
    c.record_miss();
    assert_eq!((c.hits, c.misses, c.total()), (2, 1, 3));
    c.hits = u64::MAX;
    c.record_hit();
    assert_eq!(c.hits, 0);
}

#[test]
fn qps_window_keeps_recent_queries() {
    let mut q = QpsCalculator::new(1_000);
    for t in [0u64, 100, 200, 900, 1_050, 1_150] {
        q.record_query(t);
    }
    assert_eq!(q.count(), 4);
    q.record_query(5_000);
    assert_eq!(q.count(), 1);
}

#[test]
fn readiness_of_each_state() {
    assert!(ensure_ready(DatabaseState::Ready).is_ok());
    assert!(ensure_ready(DatabaseState::Busy).is_ok());
    assert_eq!(ensure_ready(DatabaseState::Initializing).unwrap_err(), "Database is still initializing");
    assert_eq!(ensure_ready(DatabaseState::Shutting).unwrap_err(), "Database is shutting down");
    assert_eq!(ensure_ready(DatabaseState::Closed).unwrap_err(), "Database is closed");
}

#[test]
fn embedded_defaults() {
    let c = EmbeddedConfig::default();
    assert_eq!(c.data_dir, "./grape_vector_db");
    assert_eq!(c.max_memory_mb, Some(512));
    assert_eq!(c.startup_timeout_ms, 30_000);
    assert_eq!(c.vector_dimension, 384);
}

#[test]
fn health_checks_and_their_verdict() {
    let s = storage_check(12, Duration::from_millis(3));
    assert_eq!(s.message.as_deref(), Some("Storage healthy with 12 vectors"));
    assert_eq!(s.status, CheckStatus::Healthy);
    let d = disk_check(Err("no space".to_string()), Duration::from_millis(1));
    assert_eq!(d.status, CheckStatus::Critical);
    assert_eq!(d.message.as_deref(), Some("Disk check failed: no space"));
    let ok = disk_check(Ok(()), Duration::from_millis(1));
    assert_eq!(ok.message.as_deref(), Some("Disk space is adequate"));
    let h = health_from_checks(vec![("storage".to_string(), s), ("disk".to_string(), ok)]);
    assert!(h.is_healthy);
    let h = health_from_checks(vec![("disk".to_string(), d)]);
    assert!(!h.is_healthy);
    assert!(health_from_checks(vec![]).is_healthy);
}

#[test]
fn health_checks_are_spaced_and_shutdown_waits() {
    let c = HealthChecker::new(1_000, 5_000);
    assert!(!c.should_check(5_999));
    assert!(c.should_check(6_000));
    assert!(!c.should_check(10));
    assert!(has_active_operations(5, 2, 2, 0, 0));
    assert!(!has_active_operations(4, 2, 2, 0, 9));
    assert!(has_active_operations(0, 0, 0, 1, 0));
    assert!(has_active_operations(0, 0, 0, 0, 10));
    assert!(!shutdown_timed_out(100, 200, 100));
    assert!(shutdown_timed_out(100, 201, 100));
    assert!(!shutdown_timed_out(300, 200, 0));
}

#[test]
fn query_time_samples_keep_the_newest_up_to_capacity() {
    let mut s: QueryTimeStats<f64> = QueryTimeStats::new(3);
    for t in [1.0, 2.0, 3.0, 4.0, 5.0] {
        s.add_time(t);
    }
    assert_eq!(s.len(), 3);
    assert_eq!(s.times().iter().copied().collect::<Vec<f64>>(), vec![3.0, 4.0, 5.0]);
    s.clear();
    assert_eq!(s.len(), 0);
    let mut z: QueryTimeStats<u64> = QueryTimeStats::new(0);
    z.add_time(7);
    z.add_time(8);
    assert_eq!(z.times().iter().copied().collect::<Vec<u64>>(), vec![8]);
}

#[test]
fn a_routed_request_stops_at_the_first_answer() {
    let (mut run, first) = RoutingRun::start(&route("n1", &["n2", "n3"]), 3);
    assert_eq!(first, "n1");
    let (failed, next) = run.record_failure();
    assert_eq!(failed, "n1");
    assert_eq!(next.as_deref(), Some("n2"));
    assert!(run.failover_used());
    let done = run.record_success();
    assert_eq!(done.executed_node, "n2");
    assert_eq!(done.retry_count, 1);
    assert!(done.used_failover);
    let (mut run, _) = RoutingRun::start(&route("n1", &["n2"]), 3);
    let done = run.record_success();
    assert_eq!(done.executed_node, "n1");
    assert_eq!(done.retry_count, 0);
    assert!(!done.used_failover);
    assert!(!run.failover_used());
}

#[test]
fn a_routed_request_fails_once_the_plan_runs_out() {
    let (mut run, _) = RoutingRun::start(&route("n1", &["n2", "n3"]), 1);
    assert_eq!(run.record_failure(), ("n1".to_string(), Some("n2".to_string())));
    assert_eq!(run.record_failure(), ("n2".to_string(), None));
    let (mut run, _) = RoutingRun::start(&route("n1", &["n2"]), 5);
    assert_eq!(run.record_failure().1.as_deref(), Some("n2"));
    assert_eq!(run.record_failure(), ("n2".to_string(), None));
    assert_eq!(RoutingFailure::AllNodesFailed.message(), "所有节点都不可用");
    assert_eq!(RoutingFailure::NoHealthyNode.message(), "没有可用的健康节点");
}
