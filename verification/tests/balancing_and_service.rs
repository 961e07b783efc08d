use grape_vector_db::distributed::cluster::ClusterConfig;
use grape_vector_db::distributed::cluster_service::{
    get_api_usage_guide, is_cluster_healthy, is_valid_node_address, parse_u16, record_seed_probe, validate_config,
    validate_new_node, validate_node_removal, ClusterServiceConfig, ClusterServiceError, SeedVerdict,
    ServiceDiscoveryConfig,
};
use grape_vector_db::distributed::load_balancer::{
    build_route, record_route, select_least_connections, total_requests, validate_node, validate_request_type,
    LoadBalancerConfig, LoadBalancerError, LoadBalancingStrategy, NodeLocation, RoundRobin,
};
use grape_vector_db::types::NodeInfo;

fn names(v: &[&str]) -> Vec<String> {
    v.iter().map(|s| s.to_string()).collect()
}

#[test]
fn load_balancer_default_settings_are_valid() {
    let c = LoadBalancerConfig::default();
    assert_eq!(c.strategy, LoadBalancingStrategy::LoadBased);
    assert!(grape_vector_db::distributed::load_balancer::validate_config(&c).is_ok());
}

#[test]
fn load_balancer_settings_out_of_range_are_refused() {
    let mut c = LoadBalancerConfig::default();
    c.health_check_interval_secs = 0;
    match grape_vector_db::distributed::load_balancer::validate_config(&c) {
        Err(e) => assert_eq!(e.message(), "负载均衡器配置错误: 健康检查间隔不能为0"),
        Ok(_) => panic!(),
    }
    c.health_check_interval_secs = 30;
    c.max_retries = 11;
    match grape_vector_db::distributed::load_balancer::validate_config(&c) {
        Err(LoadBalancerError::ConfigurationError(m)) => assert_eq!(m, "最大重试次数不能超过10次"),
        _ => panic!(),
    }
    c.max_retries = 10;
    c.failover_timeout_ms = 30_001;
    assert!(grape_vector_db::distributed::load_balancer::validate_config(&c).is_err());
}

#[test]
fn nodes_and_locations_are_checked() {
    match validate_node("  ", &None) {
        Err(LoadBalancerError::InvalidParameter(m)) => assert_eq!(m, "节点ID不能为空"),
        _ => panic!(),
    }
    assert!(validate_node("node1", &None).is_ok());
    let loc = |region: &str, tier: u8| NodeLocation {
        datacenter: "dc1".to_string(),
        region: region.to_string(),
        availability_zone: "a".to_string(),
        latency_tier: tier,
    };
    match validate_node("node1", &Some(loc("east", 6))) {
        Err(LoadBalancerError::InvalidParameter(m)) => assert_eq!(m, "延迟等级必须在1-5范围内，当前值: 6"),
        _ => panic!(),
    }
    assert!(validate_node("node1", &Some(loc("east", 3))).is_ok());
    match validate_node("node1", &Some(loc("", 3))) {
        Err(LoadBalancerError::InvalidParameter(m)) => assert_eq!(m, "数据中心和区域名称不能为空"),
        _ => panic!(),
    }
    assert!(validate_request_type("search").is_ok());
    assert!(validate_request_type("").is_err());
}

#[test]
fn round_robin_visits_every_candidate_in_turn() {
    let mut rr = RoundRobin::new();
    let picks: Vec<usize> = (0..7).map(|_| rr.select(3)).collect();
    assert_eq!(picks, vec![0, 1, 2, 0, 1, 2, 0]);
    let picks: Vec<usize> = (0..4).map(|_| rr.select(2)).collect();
    assert_eq!(picks, vec![1, 0, 1, 0]);
}

#[test]
fn least_connections_picks_the_first_least_busy() {
    assert_eq!(select_least_connections(&vec![5, 2, 7, 2]), 1);
    assert_eq!(select_least_connections(&vec![0]), 0);
    assert_eq!(select_least_connections(&vec![3, 3, 3]), 0);
}

#[test]
fn routes_name_two_backups_and_the_strategy() {
    let r = build_route(LoadBalancingStrategy::RoundRobin, &names(&["node1", "node2", "node3", "node4"]), "node2".to_string());
    assert_eq!(r.target_node, "node2");
    assert_eq!(r.backup_nodes, names(&["node1", "node3"]));
    assert_eq!(r.routing_reason, "使用 RoundRobin 策略选择节点 node2");
    let r = build_route(LoadBalancingStrategy::LeastConnections, &names(&["node1"]), "node1".to_string());
    assert!(r.backup_nodes.is_empty());
}

#[test]
fn route_statistics_count_per_node() {
    let mut stats: Vec<(String, u64)> = Vec::new();
    for n in ["node1", "node2", "node1", "node1"] {
        record_route(&mut stats, &n.to_string());
    }
    assert_eq!(total_requests(&stats), 4);
    assert_eq!(stats.iter().find(|(n, _)| n == "node1").unwrap().1, 3);
    assert_eq!(stats.iter().find(|(n, _)| n == "node2").unwrap().1, 1);
    assert_eq!(LoadBalancingStrategy::WeightedRoundRobin.name(), "WeightedRoundRobin");
}

#[test]
fn ports_parse_as_u16_from_str() {
    for s in ["0", "8080", "+80", "65535", "007", "", "+", "65536", "-1", "80a", " 80", "99999999999"] {
        assert_eq!(parse_u16(s), s.parse::<u16>().ok(), "input {:?}", s);
    }
}

#[test]
fn node_addresses_need_a_host_and_a_port() {
    assert!(is_valid_node_address("10.0.0.1:7000"));
    assert!(is_valid_node_address("seed.example:+80"));
    assert!(is_valid_node_address("[::1]:9000"));
    assert!(!is_valid_node_address("10.0.0.1"));
    assert!(!is_valid_node_address(":7000"));
    assert!(!is_valid_node_address("host:0"));
    assert!(!is_valid_node_address("host:70000"));
    assert!(!is_valid_node_address("host:"));
}

#[test]
fn service_settings_are_checked_in_order() {
    let mut c = ClusterServiceConfig::default();
    assert!(validate_config(&c).is_ok());
    c.service_discovery_config.seed_nodes = vec!["10.0.0.2:7000".to_string(), "bad".to_string()];
    match validate_config(&c) {
        Err(e) => assert_eq!(e.message(), "配置错误: 无效的种子节点地址: bad"),
        Ok(_) => panic!(),
    }
    c.service_discovery_config.seed_nodes = vec![];
    c.service_discovery_config.discovery_interval_secs = 0;
    match validate_config(&c) {
        Err(ClusterServiceError::Configuration(m)) => assert_eq!(m, "发现间隔必须在1秒-1小时范围内"),
        _ => panic!(),
    }
    c.service_discovery_config.enable_auto_discovery = false;
    assert!(validate_config(&c).is_ok());
    c.local_node.port = 0;
    match validate_config(&c) {
        Err(ClusterServiceError::Configuration(m)) => assert_eq!(m, "本地节点端口无效: 0"),
        _ => panic!(),
    }
    c.local_node.address = " ".to_string();
    match validate_config(&c) {
        Err(ClusterServiceError::Configuration(m)) => assert_eq!(m, "本地节点地址不能为空"),
        _ => panic!(),
    }
    c.local_node.id = "".to_string();
    match validate_config(&c) {
        Err(ClusterServiceError::Configuration(m)) => assert_eq!(m, "本地节点ID不能为空"),
        _ => panic!(),
    }
}

#[test]
fn default_service_settings() {
    let c = ClusterServiceConfig::default();
    assert!(c.enable_builtin_load_balancer);
    assert_eq!(c.local_node.port, 8080);
    let d = ServiceDiscoveryConfig::default();
    assert_eq!(d.discovery_interval_secs, 60);
    let cc = ClusterConfig::default();
    assert_eq!(cc.cluster_name, "grape-cluster");
    let n = NodeInfo::default();
    assert_eq!(n.id, "local-node");
}

#[test]
fn nodes_to_add_and_remove_are_checked() {
    let mut n = NodeInfo::default();
    assert!(validate_new_node(&n).is_ok());
    n.port = 0;
    match validate_new_node(&n) {
        Err(ClusterServiceError::Configuration(m)) => assert_eq!(m, "节点端口无效: 0"),
        _ => panic!(),
    }
    n.id = "\t".to_string();
    match validate_new_node(&n) {
        Err(ClusterServiceError::Configuration(m)) => assert_eq!(m, "节点ID不能为空"),
        _ => panic!(),
    }
    assert!(validate_node_removal("node1").is_ok());
    assert!(validate_node_removal(" ").is_err());
}

#[test]
fn cluster_health_needs_half_the_nodes() {
    assert!(is_cluster_healthy(2, 4));
    assert!(!is_cluster_healthy(1, 3));
    assert!(is_cluster_healthy(3, 3));
    assert!(!is_cluster_healthy(0, 0));
}

#[test]
fn test_api_usage_guide_texts() {
    let g = get_api_usage_guide(true, "127.0.0.1", 8080);
    assert!(g.contains("内置负载均衡"));
    assert!(g.contains("127.0.0.1:8080"));
    assert!(g.contains("无需外部 nginx"));
    let g = get_api_usage_guide(false, "127.0.0.1", 8080);
    assert!(g.contains("nginx"));
    assert!(!g.contains("127.0.0.1"));
}

#[test]
fn unreachable_seeds_escalate_then_drop() {
    let mut f: Vec<(String, u32)> = Vec::new();
    let seed = "10.0.0.9:7000".to_string();
    let verdicts: Vec<SeedVerdict> = (0..7).map(|_| record_seed_probe(&mut f, &seed, false)).collect();
    assert_eq!(
        verdicts,
        vec![
            SeedVerdict::Unreachable,
            SeedVerdict::Unreachable,
            SeedVerdict::Unreachable,
            SeedVerdict::PersistentlyUnreachable,
            SeedVerdict::PersistentlyUnreachable,
            SeedVerdict::Drop,
            SeedVerdict::Drop,
        ]
    );
    assert_eq!(record_seed_probe(&mut f, &seed, true), SeedVerdict::Reachable);
    assert_eq!(record_seed_probe(&mut f, &seed, false), SeedVerdict::Unreachable);
    assert_eq!(f.len(), 1);
}

#[test]
fn service_error_texts() {
    assert_eq!(ClusterServiceError::ServiceNotStarted.message(), "服务未启动");
    assert_eq!(ClusterServiceError::Network("x".to_string()).message(), "网络错误: x");
    assert_eq!(
        ClusterServiceError::LoadBalancer(LoadBalancerError::NoHealthyNodes).message(),
        "负载均衡器错误: 没有可用的健康节点"
    );
}

#[test]
fn blank_means_only_unicode_white_space() {
    assert!(validate_request_type("\u{3000}\t\n").is_err());
    assert!(validate_request_type(" x ").is_ok());
    assert!(validate_node("\u{2003}", &None).is_err());
}
