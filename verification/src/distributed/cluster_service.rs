//! The cluster service's checks on its settings and on the nodes it is
//! asked to add or remove, the node address format, the cluster health
//! verdict, the usage guide, and the bookkeeping of unreachable seed nodes.

use crate::distributed::cluster::ClusterConfig;
use crate::distributed::load_balancer::{is_blank, blank, LoadBalancerConfig, LoadBalancerError, lb_error_text};
use crate::distributed::request_router::RoutingConfig;
use crate::text::{concat, decimal, push_decimal, str_equal, with_decimal};
use crate::types::{NodeCounters, NodeInfo, NodeRole, NodeState};
use vstd::prelude::*;

verus! {

/// Why the cluster service refused.
#[derive(Debug)]
pub enum ClusterServiceError {
    Configuration(String),
    LoadBalancer(LoadBalancerError),
    ClusterManagement(String),
    Network(String),
    Storage(String),
    ServiceNotStarted,
}

/// The text of a cluster service error.
pub open spec fn service_error_text(e: ClusterServiceError) -> Seq<char> {
    match e {
        ClusterServiceError::Configuration(m) => "配置错误: "@ + m@,
        ClusterServiceError::LoadBalancer(l) => "负载均衡器错误: "@ + lb_error_text(l),
        ClusterServiceError::ClusterManagement(m) => "集群管理错误: "@ + m@,
        ClusterServiceError::Network(m) => "网络错误: "@ + m@,
        ClusterServiceError::Storage(m) => "存储错误: "@ + m@,
        ClusterServiceError::ServiceNotStarted => "服务未启动"@,
    }
}

impl ClusterServiceError {
    /// The text of this error.
    pub fn message(&self) -> (s: String)
        ensures
            s@ == service_error_text(*self),
    {
        proof {
            reveal_strlit("配置错误: ");
            reveal_strlit("负载均衡器错误: ");
            reveal_strlit("集群管理错误: ");
            reveal_strlit("网络错误: ");
            reveal_strlit("存储错误: ");
            reveal_strlit("服务未启动");
        }
        match self {
            ClusterServiceError::Configuration(m) => concat("配置错误: ", m.as_str()),
            ClusterServiceError::LoadBalancer(l) => {
                let inner = l.message();
                concat("负载均衡器错误: ", inner.as_str())
            },
            ClusterServiceError::ClusterManagement(m) => concat("集群管理错误: ", m.as_str()),
            ClusterServiceError::Network(m) => concat("网络错误: ", m.as_str()),
            ClusterServiceError::Storage(m) => concat("存储错误: ", m.as_str()),
            ClusterServiceError::ServiceNotStarted => String::from_str("服务未启动"),
        }
    }
}

/// Settings of service discovery.
#[derive(Debug)]
pub struct ServiceDiscoveryConfig {
    pub enable_auto_discovery: bool,
    pub seed_nodes: Vec<String>,
    pub discovery_interval_secs: u64,
    pub health_check_interval_secs: u64,
}

impl Default for ServiceDiscoveryConfig {
    /// Automatic discovery every 60 s from no seed, health checks every 30 s.
    fn default() -> (c: Self)
        ensures
            c.enable_auto_discovery,
            c.seed_nodes@.len() == 0,
            c.discovery_interval_secs == 60,
            c.health_check_interval_secs == 30,
    {
        ServiceDiscoveryConfig {
            enable_auto_discovery: true,
            seed_nodes: Vec::new(),
            discovery_interval_secs: 60,
            health_check_interval_secs: 30,
        }
    }
}

/// Settings of the cluster service.
#[derive(Debug)]
pub struct ClusterServiceConfig {
    pub cluster_config: ClusterConfig,
    pub load_balancer_config: LoadBalancerConfig,
    pub routing_config: RoutingConfig,
    pub local_node: NodeInfo,
    pub enable_builtin_load_balancer: bool,
    pub service_discovery_config: ServiceDiscoveryConfig,
}

impl Default for ClusterConfig {
    /// A cluster "grape-cluster" of at most 100 nodes, heartbeats every 5 s,
    /// nodes timed out after 30 s, 3 replicas of 256 shards.
    fn default() -> (c: Self)
        ensures
            c.cluster_name@ == "grape-cluster"@,
            c.max_nodes == 100,
            c.heartbeat_interval_secs == 5,
            c.node_timeout_secs == 30,
            c.replication_factor == 3,
            c.shard_count == 256,
    {
        proof { reveal_strlit("grape-cluster"); }
        ClusterConfig {
            cluster_name: String::from_str("grape-cluster"),
            max_nodes: 100,
            heartbeat_interval_secs: 5,
            node_timeout_secs: 30,
            replication_factor: 3,
            shard_count: 256,
        }
    }
}

impl Default for NodeInfo {
    /// A healthy follower "local-node" at 127.0.0.1:8080 that has served
    /// nothing and was never heard from.
    fn default() -> (n: Self)
        ensures
            n.id@ == "local-node"@,
            n.address@ == "127.0.0.1"@,
            n.port == 8080,
            n.role == NodeRole::Follower,
            n.state == NodeState::Healthy,
            n.last_heartbeat == 0,
    {
        proof {
            reveal_strlit("local-node");
            reveal_strlit("127.0.0.1");
        }
        NodeInfo {
            id: String::from_str("local-node"),
            address: String::from_str("127.0.0.1"),
            port: 8080,
            role: NodeRole::Follower,
            state: NodeState::Healthy,
            counters: NodeCounters { request_count: 0, vector_count: 0 },
            last_heartbeat: 0,
        }
    }
}

impl Default for ClusterServiceConfig {
    /// The default settings of each part, with the built-in load balancer on.
    fn default() -> (c: Self)
        ensures
            c.enable_builtin_load_balancer,
            c.service_discovery_config.enable_auto_discovery,
            c.local_node.port == 8080,
    {
        ClusterServiceConfig {
            cluster_config: ClusterConfig::default(),
            load_balancer_config: LoadBalancerConfig::default(),
            routing_config: RoutingConfig::default(),
            local_node: NodeInfo::default(),
            enable_builtin_load_balancer: true,
            service_discovery_config: ServiceDiscoveryConfig::default(),
        }
    }
}

/// Whether `c` is a decimal digit.
pub open spec fn is_digit(c: char) -> bool {
    '0' <= c <= '9'
}

/// The value of the decimal digits `s`.
pub open spec fn digits_value(s: Seq<char>) -> nat
    decreases s.len(),
{
    if s.len() == 0 {
        0
    } else {
        digits_value(s.drop_last()) * 10 + ((s.last() as u32) - ('0' as u32)) as nat
    }
}

/// `s` without one leading `+`, if it has one.
pub open spec fn unsigned_part(s: Seq<char>) -> Seq<char> {
    if s.len() > 0 && s[0] == '+' {
        s.drop_first()
    } else {
        s
    }
}

/// The value of `d` if it is one or more decimal digits whose value fits
/// in 16 bits.
pub open spec fn digits_u16(d: Seq<char>) -> Option<u16> {
    if d.len() > 0 && (forall|i: int| 0 <= i < d.len() ==> is_digit(#[trigger] d[i])) && digits_value(d) <= u16::MAX {
        Some(digits_value(d) as u16)
    } else {
        None
    }
}

/// What `u16::from_str` makes of `s`: an optional `+` then one or more
/// decimal digits whose value fits in 16 bits.
pub open spec fn parse_u16_spec(s: Seq<char>) -> Option<u16> {
    digits_u16(unsigned_part(s))
}

proof fn lemma_digits_value_monotone(s: Seq<char>, i: int)
    requires
        0 <= i <= s.len(),
        forall|j: int| 0 <= j < s.len() ==> is_digit(#[trigger] s[j]),
    ensures
        digits_value(s.subrange(0, i)) <= digits_value(s),
    decreases s.len(),
{
    if i < s.len() {
        assert(s.drop_last().subrange(0, i) =~= s.subrange(0, i));
        assert forall|j: int| 0 <= j < s.drop_last().len() implies is_digit(#[trigger] s.drop_last()[j]) by {
            assert(s.drop_last()[j] == s[j]);
        }
        lemma_digits_value_monotone(s.drop_last(), i);
    } else {
        assert(s.subrange(0, i) =~= s);
    }
}

/// Parses a port number as `u16::from_str` does (see [`parse_u16_spec`]).
pub fn parse_u16(s: &str) -> (r: Option<u16>)
    ensures
        r == parse_u16_spec(s@),
{
    let n = s.unicode_len();
    let mut start: usize = 0;
    if n > 0 && s.get_char(0) == '+' {
        start = 1;
    }
    let ghost d = unsigned_part(s@);
    proof {
        assert(d =~= s@.subrange(start as int, n as int));
    }
    if start >= n {
        return None;
    }
    let mut value: u32 = 0;
    let mut i: usize = start;
    while i < n
        invariant
            start < n,
            start <= i <= n,
            n == s@.len(),
            d == s@.subrange(start as int, n as int),
            d == unsigned_part(s@),
            forall|j: int| 0 <= j < i - start ==> is_digit(#[trigger] d[j]),
            value == digits_value(d.subrange(0, i - start)),
            value <= u16::MAX,
        decreases n - i,
    {
        let c = s.get_char(i);
        proof {
            assert(d[i - start] == c);
            assert(d.subrange(0, i - start + 1).drop_last() =~= d.subrange(0, i - start));
        }
        if !('0' <= c && c <= '9') {
            proof {
                assert(!is_digit(d[i - start]));
            }
            return None;
        }
        let digit = (c as u32) - ('0' as u32);
        let next = value * 10 + digit;
        if next > 65535 {
            proof {
                assert(digits_value(d.subrange(0, i - start + 1)) == next);
                assert forall|j: int| 0 <= j < i - start + 1 implies is_digit(#[trigger] d[j]) by {
                    if j == i - start {
                        assert(d[j] == c);
                    }
                }
                if forall|j: int| 0 <= j < d.len() ==> is_digit(#[trigger] d[j]) {
                    lemma_digits_value_monotone(d, i - start + 1);
                }
            }
            return None;
        }
        value = next;
        i = i + 1;
    }
    proof {
        assert(d.subrange(0, n - start) =~= d);
    }
    Some(value as u16)
}

/// The position of the last ':' in `s`, if any.
pub open spec fn last_colon(s: Seq<char>) -> Option<int>
    decreases s.len(),
{
    if s.len() == 0 {
        None
    } else if s.last() == ':' {
        Some(s.len() - 1)
    } else {
        last_colon(s.drop_last())
    }
}

/// Whether `address` reads "host:port": the part after its last ':' is a
/// port from 1 to 65535 and the part before it is not empty.
pub open spec fn valid_node_address(address: Seq<char>) -> bool {
    match last_colon(address) {
        None => false,
        Some(k) => k > 0 && match parse_u16_spec(address.subrange(k + 1, address.len() as int)) {
            Some(p) => p > 0,
            None => false,
        },
    }
}

/// Whether `address` reads "host:port" (see [`valid_node_address`]).
pub fn is_valid_node_address(address: &str) -> (r: bool)
    ensures
        r == valid_node_address(address@),
{
    let n = address.unicode_len();
    let mut k: usize = n;
    let ghost s = address@;
    assert(s.subrange(0, n as int) =~= s);
    while k > 0
        invariant
            k <= n,
            n == s.len(),
            s == address@,
            last_colon(s) == last_colon(s.subrange(0, k as int)),
        decreases k,
    {
        proof {
            assert(s.subrange(0, k as int).drop_last() =~= s.subrange(0, k - 1));
        }
        if address.get_char(k - 1) == ':' {
            if k - 1 == 0 {
                return false;
            }
            let port_str = address.substring_char(k, n);
            match parse_u16(port_str) {
                Some(p) => {
                    return p > 0;
                },
                None => {
                    return false;
                },
            }
        }
        k = k - 1;
    }
    proof {
        assert(s.subrange(0, 0).len() == 0);
    }
    false
}

/// The first seed that does not read "host:port", if any.
fn first_invalid_seed(seeds: &Vec<String>) -> (r: Option<usize>)
    ensures
        match r {
            Some(k) => k < seeds@.len() && !valid_node_address(seeds@[k as int]@) && forall|j: int|
                0 <= j < k ==> valid_node_address(#[trigger] seeds@[j]@),
            None => forall|j: int| 0 <= j < seeds@.len() ==> valid_node_address(#[trigger] seeds@[j]@),
        },
{
    let mut i: usize = 0;
    while i < seeds.len()
        invariant
            i <= seeds@.len(),
            forall|j: int| 0 <= j < i ==> valid_node_address(#[trigger] seeds@[j]@),
        decreases seeds.len() - i,
    {
        if !is_valid_node_address(seeds[i].as_str()) {
            return Some(i);
        }
        i = i + 1;
    }
    None
}

/// Whether the local node of `config` has an id, an address and a port.
pub open spec fn local_node_named(config: ClusterServiceConfig) -> bool {
    !blank(config.local_node.id@) && !blank(config.local_node.address@) && config.local_node.port != 0
}

/// Whether every seed of `config` reads "host:port".
pub open spec fn seeds_valid(config: ClusterServiceConfig) -> bool {
    forall|i: int|
        0 <= i < config.service_discovery_config.seed_nodes@.len() ==> valid_node_address(
            #[trigger] config.service_discovery_config.seed_nodes@[i]@,
        )
}

/// The first problem with the service settings, as the error it gives:
/// the local node needs an id and an address that are not blank and a
/// port that is not 0; with automatic discovery, every seed must read
/// "host:port" and the interval must lie between 1 s and 1 h.
pub fn validate_config(config: &ClusterServiceConfig) -> (r: Result<(), ClusterServiceError>)
    ensures
        r is Ok <==> (local_node_named(*config) && (config.service_discovery_config.enable_auto_discovery ==> (
        seeds_valid(*config) && 1 <= config.service_discovery_config.discovery_interval_secs <= 3600))),
        blank(config.local_node.id@) ==> (r matches Err(ClusterServiceError::Configuration(m)) && m@
            == "本地节点ID不能为空"@),
        !blank(config.local_node.id@) && blank(config.local_node.address@) ==> (r matches Err(
            ClusterServiceError::Configuration(m),
        ) && m@ == "本地节点地址不能为空"@),
        !blank(config.local_node.id@) && !blank(config.local_node.address@) && config.local_node.port == 0 ==> (
        r matches Err(ClusterServiceError::Configuration(m)) && m@ == "本地节点端口无效: "@ + decimal(0)),
        forall|k: int|
            local_node_named(*config) && config.service_discovery_config.enable_auto_discovery && 0 <= k
                < config.service_discovery_config.seed_nodes@.len() && !valid_node_address(
                #[trigger] config.service_discovery_config.seed_nodes@[k]@,
            ) && (forall|j: int|
                0 <= j < k ==> valid_node_address(config.service_discovery_config.seed_nodes@[j]@)) ==> (
            r matches Err(ClusterServiceError::Configuration(m)) && m@ == "无效的种子节点地址: "@
                + config.service_discovery_config.seed_nodes@[k]@),
        local_node_named(*config) && config.service_discovery_config.enable_auto_discovery && seeds_valid(*config)
            && !(1 <= config.service_discovery_config.discovery_interval_secs <= 3600) ==> (r matches Err(
            ClusterServiceError::Configuration(m),
        ) && m@ == "发现间隔必须在1秒-1小时范围内"@),
{
    proof {
        reveal_strlit("本地节点ID不能为空");
        reveal_strlit("本地节点地址不能为空");
    }
    if is_blank(config.local_node.id.as_str()) {
        return Err(ClusterServiceError::Configuration(String::from_str("本地节点ID不能为空")));
    }
    if is_blank(config.local_node.address.as_str()) {
        return Err(ClusterServiceError::Configuration(String::from_str("本地节点地址不能为空")));
    }
    if config.local_node.port == 0 {
        let m = with_decimal("本地节点端口无效: ", config.local_node.port as u64);
        return Err(ClusterServiceError::Configuration(m));
    }
    if config.service_discovery_config.enable_auto_discovery {
        let seeds = &config.service_discovery_config.seed_nodes;
        match first_invalid_seed(seeds) {
            Some(k) => {
                let m = concat("无效的种子节点地址: ", seeds[k].as_str());
                proof {
                    assert forall|k2: int|
                        0 <= k2 < seeds@.len() && !valid_node_address(#[trigger] seeds@[k2]@) && (forall|j: int|
                            0 <= j < k2 ==> valid_node_address(seeds@[j]@)) implies k2 == k by {
                        if k2 < k {
                            assert(valid_node_address(seeds@[k2]@));
                        }
                        if k2 > k {
                            assert(valid_node_address(seeds@[k as int]@));
                        }
                    }
                }
                return Err(ClusterServiceError::Configuration(m));
            },
            None => {},
        }
        let interval = config.service_discovery_config.discovery_interval_secs;
        if interval == 0 || interval > 3600 {
            return Err(ClusterServiceError::Configuration(String::from_str("发现间隔必须在1秒-1小时范围内")));
        }
    }
    Ok(())
}

/// Checks a node before it is added: an id and an address that are not
/// blank, and a port that is not 0.
pub fn validate_new_node(node: &NodeInfo) -> (r: Result<(), ClusterServiceError>)
    ensures
        r is Ok <==> (!blank(node.id@) && !blank(node.address@) && node.port != 0),
        blank(node.id@) ==> (r matches Err(ClusterServiceError::Configuration(m)) && m@ == "节点ID不能为空"@),
        !blank(node.id@) && blank(node.address@) ==> (r matches Err(ClusterServiceError::Configuration(m)) && m@
            == "节点地址不能为空"@),
        !blank(node.id@) && !blank(node.address@) && node.port == 0 ==> (r matches Err(
            ClusterServiceError::Configuration(m),
        ) && m@ == "节点端口无效: "@ + decimal(0)),
{
    proof {
        reveal_strlit("节点ID不能为空");
        reveal_strlit("节点地址不能为空");
    }
    if is_blank(node.id.as_str()) {
        return Err(ClusterServiceError::Configuration(String::from_str("节点ID不能为空")));
    }
    if is_blank(node.address.as_str()) {
        return Err(ClusterServiceError::Configuration(String::from_str("节点地址不能为空")));
    }
    if node.port == 0 {
        let m = with_decimal("节点端口无效: ", node.port as u64);
        return Err(ClusterServiceError::Configuration(m));
    }
    Ok(())
}

/// Checks the id of a node before it is removed: it must not be blank.
pub fn validate_node_removal(node_id: &str) -> (r: Result<(), ClusterServiceError>)
    ensures
        r is Ok <==> !blank(node_id@),
        blank(node_id@) ==> (r matches Err(ClusterServiceError::Configuration(m)) && m@ == "节点ID不能为空"@),
{
    proof { reveal_strlit("节点ID不能为空"); }
    if is_blank(node_id) {
        return Err(ClusterServiceError::Configuration(String::from_str("节点ID不能为空")));
    }
    Ok(())
}

/// Whether the cluster is healthy: at least half of its nodes are (a
/// cluster with no node is not).
pub fn is_cluster_healthy(healthy_nodes: usize, total_nodes: usize) -> (r: bool)
    ensures
        r == (total_nodes > 0 && 2 * healthy_nodes >= total_nodes),
{
    total_nodes > 0 && healthy_nodes as u128 * 2 >= total_nodes as u128
}

/// The advice on how clients should reach the cluster.
pub fn get_api_usage_guide(enable_builtin_load_balancer: bool, address: &str, port: u16) -> (g: String)
    ensures
        enable_builtin_load_balancer ==> g@ == "集群服务已启用内置负载均衡。\n客户端可以连接到任何节点: \n- 本地节点: "@
            + address@ + ":"@ + decimal(port as nat)
            + "\n- 所有请求将被智能路由到最佳节点\n- 支持自动故障转移和负载均衡\n- 无需外部 nginx 或 HAProxy"@,
        !enable_builtin_load_balancer ==> g@ == "集群服务未启用内置负载均衡，建议使用外部负载均衡器 (如 nginx)"@,
{
    if enable_builtin_load_balancer {
        let mut g = String::from_str("集群服务已启用内置负载均衡。\n客户端可以连接到任何节点: \n- 本地节点: ");
        g.append(address);
        g.append(":");
        push_decimal(&mut g, port as u64);
        g.append("\n- 所有请求将被智能路由到最佳节点\n- 支持自动故障转移和负载均衡\n- 无需外部 nginx 或 HAProxy");
        g
    } else {
        String::from_str("集群服务未启用内置负载均衡，建议使用外部负载均衡器 (如 nginx)")
    }
}

/// What discovery does with a seed after probing it.
#[derive(Clone, Copy, Debug, PartialEq, Eq, Structural)]
pub enum SeedVerdict {
    /// It answered: add it to the balancer and join through it.
    Reachable,
    /// It did not answer; still worth a warning.
    Unreachable,
    /// It did not answer a fourth or fifth time in a row.
    PersistentlyUnreachable,
    /// It did not answer more than five times in a row: drop it from the balancer.
    Drop,
}

/// The consecutive failures recorded for `seed`, per the first entry.
pub open spec fn failures_of(fs: Seq<(String, u32)>, seed: Seq<char>) -> nat
    decreases fs.len(),
{
    if fs.len() == 0 {
        0
    } else if fs[0].0@ == seed {
        fs[0].1 as nat
    } else {
        failures_of(fs.drop_first(), seed)
    }
}

/// The first entry of `failures` that records `seed`, if any.
fn find_seed(failures: &Vec<(String, u32)>, seed: &str) -> (r: Option<usize>)
    ensures
        match r {
            Some(k) => k < failures@.len() && failures@[k as int].0@ == seed@ && forall|j: int|
                0 <= j < k ==> (#[trigger] failures@[j]).0@ != seed@,
            None => forall|j: int| 0 <= j < failures@.len() ==> (#[trigger] failures@[j]).0@ != seed@,
        },
{
    let mut i: usize = 0;
    while i < failures.len()
        invariant
            i <= failures@.len(),
            forall|j: int| 0 <= j < i ==> (#[trigger] failures@[j]).0@ != seed@,
        decreases failures.len() - i,
    {
        if str_equal(failures[i].0.as_str(), seed) {
            return Some(i);
        }
        i = i + 1;
    }
    None
}

/// Records the probe of `seed`: an answer resets its failures; silence adds
/// one. Returns what discovery does next (see [`SeedVerdict`]).
pub fn record_seed_probe(failures: &mut Vec<(String, u32)>, seed: &String, reachable: bool) -> (v: SeedVerdict)
    requires
        failures_of(old(failures)@, seed@) < u32::MAX,
    ensures
        reachable ==> v == SeedVerdict::Reachable && failures_of(final(failures)@, seed@) == 0,
        !reachable ==> failures_of(final(failures)@, seed@) == failures_of(old(failures)@, seed@) + 1 && v == (
        if failures_of(old(failures)@, seed@) + 1 <= 3 {
            SeedVerdict::Unreachable
        } else if failures_of(old(failures)@, seed@) + 1 <= 5 {
            SeedVerdict::PersistentlyUnreachable
        } else {
            SeedVerdict::Drop
        }),
{
    let ghost f0 = failures@;
    let found = find_seed(failures, seed.as_str());
    let count: u32 = match found {
        Some(k) => {
            proof {
                lemma_failures_found(f0, k as int, seed@);
            }
            failures[k].1
        },
        None => {
            proof {
                lemma_failures_absent(f0, seed@);
            }
            0
        },
    };
    let new_count: u32 = if reachable { 0 } else { count + 1 };
    match found {
        Some(k) => {
            let name = failures[k].0.clone();
            failures.set(k, (name, new_count));
            proof {
                assert forall|j: int| 0 <= j < k implies (#[trigger] failures@[j]).0@ != seed@ by {
                    assert(failures@[j] == f0[j]);
                }
                lemma_failures_found(failures@, k as int, seed@);
            }
        },
        None => {
            failures.push((seed.clone(), new_count));
            proof {
                assert forall|j: int| 0 <= j < f0.len() implies (#[trigger] failures@[j]).0@ != seed@ by {
                    assert(failures@[j] == f0[j]);
                }
                lemma_failures_found(failures@, f0.len() as int, seed@);
            }
        },
    }
    if reachable {
        SeedVerdict::Reachable
    } else if new_count <= 3 {
        SeedVerdict::Unreachable
    } else if new_count <= 5 {
        SeedVerdict::PersistentlyUnreachable
    } else {
        SeedVerdict::Drop
    }
}

proof fn lemma_failures_found(fs: Seq<(String, u32)>, k: int, seed: Seq<char>)
    requires
        0 <= k < fs.len(),
        fs[k].0@ == seed,
        forall|j: int| 0 <= j < k ==> (#[trigger] fs[j]).0@ != seed,
    ensures
        failures_of(fs, seed) == fs[k].1,
    decreases fs.len(),
{
    if k > 0 {
        assert forall|j: int| 0 <= j < k - 1 implies (#[trigger] fs.drop_first()[j]).0@ != seed by {
            assert(fs.drop_first()[j] == fs[j + 1]);
        }
        lemma_failures_found(fs.drop_first(), k - 1, seed);
    }
}

proof fn lemma_failures_absent(fs: Seq<(String, u32)>, seed: Seq<char>)
    requires
        forall|j: int| 0 <= j < fs.len() ==> (#[trigger] fs[j]).0@ != seed,
    ensures
        failures_of(fs, seed) == 0,
    decreases fs.len(),
{
    if fs.len() > 0 {
        assert(fs[0].0@ != seed);
        assert forall|j: int| 0 <= j < fs.drop_first().len() implies (#[trigger] fs.drop_first()[j]).0@ != seed by {
            assert(fs.drop_first()[j] == fs[j + 1]);
        }
        lemma_failures_absent(fs.drop_first(), seed);
    }
}

} // verus!
