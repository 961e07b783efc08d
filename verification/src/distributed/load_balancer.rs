//! Load balancing: the checks on settings, nodes and requests, the round
//! robin and least-connections choices, the backups offered with a route,
//! and the count of routes per node. The weights and scores, which are
//! fractional, are kept by the caller.

use crate::filter_index::{is_whitespace_char, white_space};
use crate::text::{concat, decimal, push_decimal, str_equal};
use crate::types::NodeId;
use vstd::prelude::*;

verus! {

/// Why the load balancer refused.
#[derive(Debug)]
pub enum LoadBalancerError {
    InvalidParameter(String),
    NodeAlreadyExists(NodeId),
    NodeNotFound(NodeId),
    NoHealthyNodes,
    ConfigurationError(String),
    InternalError(String),
}

/// The text of a load balancer error.
pub open spec fn lb_error_text(e: LoadBalancerError) -> Seq<char> {
    match e {
        LoadBalancerError::InvalidParameter(m) => "无效参数: "@ + m@,
        LoadBalancerError::NodeAlreadyExists(n) => "节点已存在: "@ + n@,
        LoadBalancerError::NodeNotFound(n) => "节点不存在: "@ + n@,
        LoadBalancerError::NoHealthyNodes => "没有可用的健康节点"@,
        LoadBalancerError::ConfigurationError(m) => "负载均衡器配置错误: "@ + m@,
        LoadBalancerError::InternalError(m) => "内部错误: "@ + m@,
    }
}

impl LoadBalancerError {
    /// The text of this error.
    pub fn message(&self) -> (s: String)
        ensures
            s@ == lb_error_text(*self),
    {
        proof {
            reveal_strlit("无效参数: ");
            reveal_strlit("节点已存在: ");
            reveal_strlit("节点不存在: ");
            reveal_strlit("没有可用的健康节点");
            reveal_strlit("负载均衡器配置错误: ");
            reveal_strlit("内部错误: ");
        }
        match self {
            LoadBalancerError::InvalidParameter(m) => concat("无效参数: ", m.as_str()),
            LoadBalancerError::NodeAlreadyExists(n) => concat("节点已存在: ", n.as_str()),
            LoadBalancerError::NodeNotFound(n) => concat("节点不存在: ", n.as_str()),
            LoadBalancerError::NoHealthyNodes => String::from_str("没有可用的健康节点"),
            LoadBalancerError::ConfigurationError(m) => concat("负载均衡器配置错误: ", m.as_str()),
            LoadBalancerError::InternalError(m) => concat("内部错误: ", m.as_str()),
        }
    }
}

/// How a target node is chosen.
#[derive(Clone, Copy, Debug, PartialEq, Eq, Structural)]
pub enum LoadBalancingStrategy {
    RoundRobin,
    WeightedRoundRobin,
    LeastConnections,
    LoadBased,
    LocationAware,
}

/// The name of a strategy, as it is printed.
pub open spec fn strategy_name(s: LoadBalancingStrategy) -> Seq<char> {
    match s {
        LoadBalancingStrategy::RoundRobin => "RoundRobin"@,
        LoadBalancingStrategy::WeightedRoundRobin => "WeightedRoundRobin"@,
        LoadBalancingStrategy::LeastConnections => "LeastConnections"@,
        LoadBalancingStrategy::LoadBased => "LoadBased"@,
        LoadBalancingStrategy::LocationAware => "LocationAware"@,
    }
}

impl LoadBalancingStrategy {
    /// The name of this strategy.
    pub fn name(&self) -> (s: &'static str)
        ensures
            s@ == strategy_name(*self),
    {
        proof {
            reveal_strlit("RoundRobin");
            reveal_strlit("WeightedRoundRobin");
            reveal_strlit("LeastConnections");
            reveal_strlit("LoadBased");
            reveal_strlit("LocationAware");
        }
        match self {
            LoadBalancingStrategy::RoundRobin => "RoundRobin",
            LoadBalancingStrategy::WeightedRoundRobin => "WeightedRoundRobin",
            LoadBalancingStrategy::LeastConnections => "LeastConnections",
            LoadBalancingStrategy::LoadBased => "LoadBased",
            LoadBalancingStrategy::LocationAware => "LocationAware",
        }
    }
}

/// Where a node stands.
#[derive(Debug)]
pub struct NodeLocation {
    pub datacenter: String,
    pub region: String,
    pub availability_zone: String,
    /// From 1 (best) to 5.
    pub latency_tier: u8,
}

/// Settings of the load balancer.
#[derive(Clone, Copy, Debug)]
pub struct LoadBalancerConfig {
    pub strategy: LoadBalancingStrategy,
    pub health_check_interval_secs: u64,
    pub unhealthy_threshold_ms: u64,
    pub weight_update_interval_secs: u64,
    pub max_retries: u32,
    pub failover_timeout_ms: u64,
}

impl Default for LoadBalancerConfig {
    /// Load-based choice, health checks every 30 s, nodes unhealthy after
    /// 5 s, weights updated every 60 s, 3 retries, failover within 1 s.
    fn default() -> (c: Self)
        ensures
            c.strategy == LoadBalancingStrategy::LoadBased,
            c.health_check_interval_secs == 30,
            c.unhealthy_threshold_ms == 5000,
            c.weight_update_interval_secs == 60,
            c.max_retries == 3,
            c.failover_timeout_ms == 1000,
    {
        LoadBalancerConfig {
            strategy: LoadBalancingStrategy::LoadBased,
            health_check_interval_secs: 30,
            unhealthy_threshold_ms: 5000,
            weight_update_interval_secs: 60,
            max_retries: 3,
            failover_timeout_ms: 1000,
        }
    }
}

/// A route: the target, up to two backups and why the target was chosen.
#[derive(Debug)]
pub struct RouteResult {
    pub target_node: NodeId,
    pub backup_nodes: Vec<NodeId>,
    pub routing_reason: String,
}

/// The first setting of `c` that is out of range, as the error the load
/// balancer gives for it, checked in order: the health check interval (1 s
/// to 1 h), the unhealthy threshold (at most 60 s), the retries (at most
/// 10) and the failover timeout (at most 30 s).
pub open spec fn config_problem(c: LoadBalancerConfig) -> Option<Seq<char>> {
    if c.health_check_interval_secs == 0 {
        Some("健康检查间隔不能为0"@)
    } else if c.health_check_interval_secs > 3600 {
        Some("健康检查间隔不能超过1小时"@)
    } else if c.unhealthy_threshold_ms > 60_000 {
        Some("不健康阈值不能超过60秒"@)
    } else if c.max_retries > 10 {
        Some("最大重试次数不能超过10次"@)
    } else if c.failover_timeout_ms > 30_000 {
        Some("故障转移超时不能超过30秒"@)
    } else {
        None
    }
}

/// Checks the settings (see [`config_problem`]).
pub fn validate_config(config: &LoadBalancerConfig) -> (r: Result<(), LoadBalancerError>)
    ensures
        match config_problem(*config) {
            None => r is Ok,
            Some(m) => r matches Err(LoadBalancerError::ConfigurationError(e)) && e@ == m,
        },
{
    proof {
        reveal_strlit("健康检查间隔不能为0");
        reveal_strlit("健康检查间隔不能超过1小时");
        reveal_strlit("不健康阈值不能超过60秒");
        reveal_strlit("最大重试次数不能超过10次");
        reveal_strlit("故障转移超时不能超过30秒");
    }
    if config.health_check_interval_secs == 0 {
        return Err(LoadBalancerError::ConfigurationError(String::from_str("健康检查间隔不能为0")));
    }
    if config.health_check_interval_secs > 3600 {
        return Err(LoadBalancerError::ConfigurationError(String::from_str("健康检查间隔不能超过1小时")));
    }
    if config.unhealthy_threshold_ms > 60_000 {
        return Err(LoadBalancerError::ConfigurationError(String::from_str("不健康阈值不能超过60秒")));
    }
    if config.max_retries > 10 {
        return Err(LoadBalancerError::ConfigurationError(String::from_str("最大重试次数不能超过10次")));
    }
    if config.failover_timeout_ms > 30_000 {
        return Err(LoadBalancerError::ConfigurationError(String::from_str("故障转移超时不能超过30秒")));
    }
    Ok(())
}

/// Whether `s` holds only white space (characters with the Unicode
/// White_Space property), the test of `str::trim` leaving nothing.
pub open spec fn blank(s: Seq<char>) -> bool {
    forall|i: int| 0 <= i < s.len() ==> #[trigger] white_space(s[i])
}

/// Whether `s` holds only white space: what trimming it down to nothing
/// means.
pub(crate) fn is_blank(s: &str) -> (r: bool)
    ensures
        r == blank(s@),
{
    let n = s.unicode_len();
    let mut i: usize = 0;
    while i < n
        invariant
            i <= n,
            n == s@.len(),
            forall|j: int| 0 <= j < i ==> #[trigger] white_space(s@[j]),
        decreases n - i,
    {
        if !is_whitespace_char(s.get_char(i)) {
            return false;
        }
        i = i + 1;
    }
    true
}

/// Checks a node's id and location: the id must not be blank; a location
/// needs a datacenter and a region that are not blank, and a latency tier
/// from 1 to 5.
pub fn validate_node(node_id: &str, location: &Option<NodeLocation>) -> (r: Result<(), LoadBalancerError>)
    ensures
        blank(node_id@) ==> (r matches Err(LoadBalancerError::InvalidParameter(m)) && m@ == "节点ID不能为空"@),
        !blank(node_id@) ==> match location {
            None => r is Ok,
            Some(l) => if blank(l.datacenter@) || blank(l.region@) {
                (r matches Err(LoadBalancerError::InvalidParameter(m)) && m@ == "数据中心和区域名称不能为空"@)
            } else if !(1 <= l.latency_tier <= 5) {
                (r matches Err(LoadBalancerError::InvalidParameter(m)) && m@ == "延迟等级必须在1-5范围内，当前值: "@
                    + decimal(l.latency_tier as nat))
            } else {
                r is Ok
            },
        },
{
    proof {
        reveal_strlit("节点ID不能为空");
        reveal_strlit("数据中心和区域名称不能为空");
        reveal_strlit("延迟等级必须在1-5范围内，当前值: ");
    }
    if is_blank(node_id) {
        return Err(LoadBalancerError::InvalidParameter(String::from_str("节点ID不能为空")));
    }
    match location {
        Some(loc) => {
            if is_blank(loc.datacenter.as_str()) || is_blank(loc.region.as_str()) {
                return Err(LoadBalancerError::InvalidParameter(String::from_str("数据中心和区域名称不能为空")));
            }
            if !(1 <= loc.latency_tier && loc.latency_tier <= 5) {
                let mut m = String::from_str("延迟等级必须在1-5范围内，当前值: ");
                push_decimal(&mut m, loc.latency_tier as u64);
                return Err(LoadBalancerError::InvalidParameter(m));
            }
            Ok(())
        },
        None => Ok(()),
    }
}

/// Checks the kind of a request: it must not be blank.
pub fn validate_request_type(request_type: &str) -> (r: Result<(), LoadBalancerError>)
    ensures
        r is Ok == !blank(request_type@),
        r matches Err(LoadBalancerError::InvalidParameter(m)) ==> m@ == "请求类型不能为空"@,
        r is Err ==> r matches Err(LoadBalancerError::InvalidParameter(_)),
{
    if is_blank(request_type) {
        proof { reveal_strlit("请求类型不能为空"); }
        return Err(LoadBalancerError::InvalidParameter(String::from_str("请求类型不能为空")));
    }
    Ok(())
}

/// The round-robin position, kept below the number of candidates it was
/// last used with.
#[derive(Clone, Copy, Debug)]
pub struct RoundRobin {
    pub counter: usize,
}

/// The position the round robin picks among `n` candidates with `counter`.
pub open spec fn rr_pick(counter: nat, n: nat) -> nat {
    counter % n
}

/// The counter after a pick among `n` candidates.
pub open spec fn rr_next(counter: nat, n: nat) -> nat {
    (counter + 1) % n
}

impl RoundRobin {
    /// A round robin starting with the first candidate.
    pub fn new() -> (r: RoundRobin)
        ensures
            r.counter == 0,
    {
        RoundRobin { counter: 0 }
    }

    /// Picks among `n` candidates: the position `counter mod n`, after which
    /// the counter moves to the next position (mod `n`).
    pub fn select(&mut self, n: usize) -> (i: usize)
        requires
            n > 0,
        ensures
            i == rr_pick(old(self).counter as nat, n as nat),
            final(self).counter == rr_next(old(self).counter as nat, n as nat),
            i < n,
    {
        let index = self.counter % n;
        self.counter = (self.counter % n + 1) % n;
        proof {
            lemma_mod_succ(old(self).counter as nat, n as nat);
        }
        index
    }
}

proof fn lemma_mod_succ(c: nat, n: nat)
    requires
        n > 0,
    ensures
        (c % n + 1) % n == (c + 1) % n,
{
    assert((c % n + 1) % n == (c + 1) % n) by (nonlinear_arith)
        requires
            n > 0,
    ;
}

/// The picks of `k` successive round-robin choices among `n` candidates from `counter`.
pub open spec fn rr_picks(counter: nat, n: nat, k: nat) -> Seq<nat>
    decreases k,
{
    if k == 0 {
        Seq::empty()
    } else {
        seq![rr_pick(counter, n)] + rr_picks(rr_next(counter, n), n, (k - 1) as nat)
    }
}

/// The number of times `x` occurs in `s`.
pub open spec fn occurrences(s: Seq<nat>, x: nat) -> nat
    decreases s.len(),
{
    if s.len() == 0 {
        0
    } else {
        occurrences(s.drop_first(), x) + if s[0] == x { 1nat } else { 0nat }
    }
}

proof fn lemma_occurrences_concat(a: Seq<nat>, b: Seq<nat>, x: nat)
    ensures
        occurrences(a + b, x) == occurrences(a, x) + occurrences(b, x),
    decreases a.len(),
{
    if a.len() > 0 {
        assert((a + b).drop_first() =~= a.drop_first() + b);
        lemma_occurrences_concat(a.drop_first(), b, x);
    } else {
        assert(a + b =~= b);
    }
}

proof fn lemma_one_round(counter: nat, n: nat, x: nat)
    requires
        n > 0,
        counter < n,
        x < n,
    ensures
        occurrences(rr_picks(counter, n, n), x) == 1,
        rr_next_k(counter, n, n) == counter,
{
    lemma_round_segment(counter, n, n, x);
    vstd::arithmetic::div_mod::lemma_mod_add_multiples_vanish(counter as int, n as int);
    vstd::arithmetic::div_mod::lemma_small_mod(counter, n);
    assert(counter + n == n + counter);
}

/// The counter after `k` picks.
pub open spec fn rr_next_k(counter: nat, n: nat, k: nat) -> nat
    decreases k,
{
    if k == 0 {
        counter
    } else {
        rr_next_k(rr_next(counter, n), n, (k - 1) as nat)
    }
}

proof fn lemma_round_segment(counter: nat, n: nat, k: nat, x: nat)
    requires
        n > 0,
        counter < n,
        x < n,
        k <= n,
    ensures
        occurrences(rr_picks(counter, n, k), x) == (if (x + n - counter) % (n as int) < k { 1nat } else { 0nat }),
        rr_next_k(counter, n, k) == (counter + k) % n,
    decreases k,
{
    if k > 0 {
        let c1 = rr_next(counter, n);
        assert(c1 < n) by (nonlinear_arith)
            requires
                c1 == (counter + 1) % n,
                n > 0,
        ;
        lemma_round_segment(c1, n, (k - 1) as nat, x);
        assert(rr_pick(counter, n) == counter) by (nonlinear_arith)
            requires
                counter < n,
                rr_pick(counter, n) == counter % n,
        ;
        let ps = rr_picks(counter, n, k);
        assert(ps.drop_first() =~= rr_picks(c1, n, (k - 1) as nat));
        if counter + 1 < n {
            assert(c1 == counter + 1) by (nonlinear_arith)
                requires
                    c1 == (counter + 1) % n,
                    counter + 1 < n,
            ;
        } else {
            assert(c1 == 0) by (nonlinear_arith)
                requires
                    c1 == (counter + 1) % n,
                    counter + 1 == n,
            ;
        }
        let d0 = (x + n - counter) % (n as int);
        let d1 = (x + n - c1) % (n as int);
        assert(d0 == 0 <==> x == counter) by (nonlinear_arith)
            requires
                d0 == (x + n - counter) % (n as int),
                x < n,
                counter < n,
        ;
        assert(x != counter ==> d1 == d0 - 1) by (nonlinear_arith)
            requires
                d0 == (x + n - counter) % (n as int),
                d1 == (x + n - c1) % (n as int),
                x < n,
                counter < n,
                c1 == (if counter + 1 < n { counter + 1 } else { 0 }),
        ;
        assert(x == counter ==> d1 == n - 1) by (nonlinear_arith)
            requires
                d1 == (x + n - c1) % (n as int),
                x < n,
                counter < n,
                c1 == (if counter + 1 < n { counter + 1 } else { 0 }),
        ;
        if counter + 1 < n {
            assert(c1 + (k - 1) == counter + k);
        } else {
            vstd::arithmetic::div_mod::lemma_mod_add_multiples_vanish((k - 1) as int, n as int);
            assert(counter + k == n + (k - 1));
            assert(c1 + (k - 1) == k - 1);
        }
    } else {
        assert(counter % n == counter) by (nonlinear_arith)
            requires
                counter < n,
        ;
    }
}

/// The round robin spreads requests evenly: over `k` full rounds of `n`
/// picks among the same `n` candidates, from any position, each candidate is
/// picked exactly `k` times, and the counter comes back where it started.
pub proof fn lemma_round_robin_is_even(counter: nat, n: nat, k: nat, x: nat)
    requires
        n > 0,
        counter < n,
        x < n,
    ensures
        occurrences(rr_picks(counter, n, k * n), x) == k,
        rr_next_k(counter, n, k * n) == counter,
    decreases k,
{
    if k > 0 {
        lemma_one_round(counter, n, x);
        lemma_round_robin_is_even(counter, n, (k - 1) as nat, x);
        assert(k * n == n + (k - 1) * n) by (nonlinear_arith);
        lemma_picks_split(counter, n, n, ((k - 1) * n) as nat);
        lemma_occurrences_concat(rr_picks(counter, n, n), rr_picks(rr_next_k(counter, n, n), n, ((k - 1) * n) as nat), x);
        lemma_next_split(counter, n, n, ((k - 1) * n) as nat);
    } else {
        assert(k * n == 0) by (nonlinear_arith)
            requires
                k == 0,
        ;
    }
}

proof fn lemma_picks_split(counter: nat, n: nat, a: nat, b: nat)
    ensures
        rr_picks(counter, n, a + b) == rr_picks(counter, n, a) + rr_picks(rr_next_k(counter, n, a), n, b),
    decreases a,
{
    if a == 0 {
        assert(rr_picks(counter, n, 0) + rr_picks(counter, n, b) =~= rr_picks(counter, n, b));
    } else {
        lemma_picks_split(rr_next(counter, n), n, (a - 1) as nat, b);
        assert(rr_picks(counter, n, a + b) =~= rr_picks(counter, n, a) + rr_picks(rr_next_k(counter, n, a), n, b));
    }
}

proof fn lemma_next_split(counter: nat, n: nat, a: nat, b: nat)
    ensures
        rr_next_k(counter, n, a + b) == rr_next_k(rr_next_k(counter, n, a), n, b),
    decreases a,
{
    if a > 0 {
        lemma_next_split(rr_next(counter, n), n, (a - 1) as nat, b);
    }
}

/// The position of the first candidate with the fewest connections.
pub open spec fn least_connections(conns: Seq<u32>) -> int
    decreases conns.len(),
{
    if conns.len() <= 1 {
        0
    } else {
        let prev = least_connections(conns.drop_last());
        if conns.last() < conns[prev] {
            conns.len() - 1
        } else {
            prev
        }
    }
}

proof fn lemma_least_connections(conns: Seq<u32>)
    requires
        conns.len() > 0,
    ensures
        0 <= least_connections(conns) < conns.len(),
        forall|j: int| 0 <= j < conns.len() ==> conns[least_connections(conns)] <= #[trigger] conns[j],
        forall|j: int| 0 <= j < least_connections(conns) ==> conns[least_connections(conns)] < #[trigger] conns[j],
    decreases conns.len(),
{
    if conns.len() > 1 {
        lemma_least_connections(conns.drop_last());
        let p = least_connections(conns.drop_last());
        assert(conns.drop_last()[p] == conns[p]);
        assert forall|j: int| 0 <= j < conns.len() - 1 implies conns[p] <= #[trigger] conns[j] by {
            assert(conns.drop_last()[j] == conns[j]);
        }
        assert forall|j: int| 0 <= j < p implies conns[p] < #[trigger] conns[j] by {
            assert(conns.drop_last()[j] == conns[j]);
        }
    }
}

/// The position of the first candidate with the fewest connections: it has
/// no more than any, and fewer than every one before it.
pub fn select_least_connections(conns: &Vec<u32>) -> (i: usize)
    requires
        conns@.len() > 0,
    ensures
        i == least_connections(conns@),
        i < conns@.len(),
        forall|j: int| 0 <= j < conns@.len() ==> conns@[i as int] <= #[trigger] conns@[j],
{
    let mut best: usize = 0;
    let mut i: usize = 1;
    while i < conns.len()
        invariant
            1 <= i <= conns@.len(),
            best == least_connections(conns@.subrange(0, i as int)),
            best < i,
        decreases conns.len() - i,
    {
        proof {
            assert(conns@.subrange(0, i + 1).drop_last() =~= conns@.subrange(0, i as int));
            lemma_least_connections(conns@.subrange(0, i as int));
        }
        if conns[i] < conns[best] {
            best = i;
        }
        i = i + 1;
    }
    proof {
        assert(conns@.subrange(0, conns@.len() as int) =~= conns@);
        lemma_least_connections(conns@);
    }
    best
}

/// The backups of a route: the first two candidates other than the target.
pub open spec fn backups(candidates: Seq<Seq<char>>, target: Seq<char>) -> Seq<Seq<char>>
    decreases candidates.len(),
{
    if candidates.len() == 0 {
        Seq::empty()
    } else {
        let rest = backups(candidates.drop_last(), target);
        if candidates.last() != target && rest.len() < 2 {
            rest.push(candidates.last())
        } else {
            rest
        }
    }
}

/// The route to `target` among the healthy `candidates` under `strategy`:
/// up to two other candidates as backups, and the reason
/// "使用 <strategy> 策略选择节点 <target>".
pub fn build_route(strategy: LoadBalancingStrategy, candidates: &Vec<NodeId>, target: NodeId) -> (r: RouteResult)
    ensures
        r.target_node == target,
        crate::distributed::shard::node_names(r.backup_nodes@) == backups(
            crate::distributed::shard::node_names(candidates@),
            target@,
        ),
        r.routing_reason@ == "使用 "@ + strategy_name(strategy) + " 策略选择节点 "@ + target@,
{
    let ghost names = crate::distributed::shard::node_names(candidates@);
    let mut b: Vec<NodeId> = Vec::new();
    let mut i: usize = 0;
    while i < candidates.len()
        invariant
            i <= candidates@.len(),
            names == crate::distributed::shard::node_names(candidates@),
            crate::distributed::shard::node_names(b@) == backups(names.subrange(0, i as int), target@),
        decreases candidates.len() - i,
    {
        proof {
            assert(names.subrange(0, i + 1).drop_last() =~= names.subrange(0, i as int));
        }
        if !str_equal(candidates[i].as_str(), target.as_str()) && b.len() < 2 {
            b.push(candidates[i].clone());
        }
        proof {
            assert(crate::distributed::shard::node_names(b@) =~= backups(names.subrange(0, i + 1), target@));
        }
        i = i + 1;
    }
    proof {
        assert(names.subrange(0, candidates@.len() as int) =~= names);
        reveal_strlit("使用 ");
        reveal_strlit(" 策略选择节点 ");
    }
    let mut reason = concat("使用 ", strategy.name());
    reason.append(" 策略选择节点 ");
    reason.append(target.as_str());
    RouteResult { target_node: target, backup_nodes: b, routing_reason: reason }
}

/// The number of routes sent to `node`, per the first entry for it.
pub open spec fn routes_to(stats: Seq<(NodeId, u64)>, node: Seq<char>) -> nat
    decreases stats.len(),
{
    if stats.len() == 0 {
        0
    } else if stats[0].0@ == node {
        stats[0].1 as nat
    } else {
        routes_to(stats.drop_first(), node)
    }
}

/// Counts one more route to `target`.
pub fn record_route(stats: &mut Vec<(NodeId, u64)>, target: &NodeId)
    requires
        routes_to(old(stats)@, target@) < u64::MAX,
    ensures
        routes_to(final(stats)@, target@) == routes_to(old(stats)@, target@) + 1,
        forall|n: Seq<char>| n != target@ ==> #[trigger] routes_to(final(stats)@, n) == routes_to(old(stats)@, n),
{
    let ghost s0 = stats@;
    let mut i: usize = 0;
    assert(s0.subrange(0, s0.len() as int) =~= s0);
    while i < stats.len()
        invariant
            stats@ == s0,
            s0 == old(stats)@,
            routes_to(s0, target@) < u64::MAX,
            i <= s0.len(),
            routes_to(s0, target@) == routes_to(s0.subrange(i as int, s0.len() as int), target@),
            forall|j: int| 0 <= j < i ==> (#[trigger] s0[j]).0@ != target@,
        decreases s0.len() - i,
    {
        proof {
            assert(s0.subrange(i as int, s0.len() as int).drop_first() =~= s0.subrange(i + 1, s0.len() as int));
        }
        if str_equal(stats[i].0.as_str(), target.as_str()) {
            proof {
                assert(s0.subrange(i as int, s0.len() as int)[0] == s0[i as int]);
            }
            let name = stats[i].0.clone();
            let count = stats[i].1;
            stats.set(i, (name, count + 1));
            proof {
                lemma_routes_replaced(s0, stats@, i as int, target@);
            }
            return;
        }
        i = i + 1;
    }
    stats.push((target.clone(), 1));
    proof {
        lemma_routes_appended(s0, stats@.last(), target@);
        assert(stats@ =~= s0.push(stats@.last()));
    }
}

proof fn lemma_routes_replaced(before: Seq<(NodeId, u64)>, after: Seq<(NodeId, u64)>, k: int, node: Seq<char>)
    requires
        0 <= k < before.len(),
        after.len() == before.len(),
        before[k].0@ == node,
        after[k].0@ == node,
        forall|j: int| 0 <= j < k ==> (#[trigger] before[j]).0@ != node,
        forall|j: int| 0 <= j < before.len() && j != k ==> after[j] == before[j],
    ensures
        routes_to(after, node) == after[k].1,
        forall|n: Seq<char>| n != node ==> #[trigger] routes_to(after, n) == routes_to(before, n),
    decreases before.len(),
{
    if k > 0 {
        lemma_routes_replaced(before.drop_first(), after.drop_first(), k - 1, node);
        assert forall|n: Seq<char>| n != node implies #[trigger] routes_to(after, n) == routes_to(before, n) by {
            assert(after[0] == before[0]);
            assert(routes_to(after.drop_first(), n) == routes_to(before.drop_first(), n));
        }
    } else {
        assert(after.drop_first() =~= before.drop_first());
    }
}

proof fn lemma_routes_appended(before: Seq<(NodeId, u64)>, e: (NodeId, u64), node: Seq<char>)
    requires
        forall|j: int| 0 <= j < before.len() ==> (#[trigger] before[j]).0@ != node,
        e.0@ == node,
    ensures
        routes_to(before.push(e), node) == e.1,
        routes_to(before, node) == 0,
        forall|n: Seq<char>| n != node ==> #[trigger] routes_to(before.push(e), n) == routes_to(before, n),
    decreases before.len(),
{
    if before.len() > 0 {
        assert(before.push(e).drop_first() =~= before.drop_first().push(e));
        lemma_routes_appended(before.drop_first(), e, node);
        assert forall|n: Seq<char>| n != node implies #[trigger] routes_to(before.push(e), n) == routes_to(before, n) by {
            assert(before.push(e)[0] == before[0]);
            assert(routes_to(before.drop_first().push(e), n) == routes_to(before.drop_first(), n));
        }
    } else {
        assert(before.push(e).drop_first() =~= Seq::<(NodeId, u64)>::empty());
        assert forall|n: Seq<char>| n != node implies #[trigger] routes_to(before.push(e), n) == routes_to(before, n) by {
            assert(before.push(e)[0] == e);
            assert(routes_to(before.push(e), n) == routes_to(before.push(e).drop_first(), n));
        }
    }
}

/// The total of the routes counted.
pub open spec fn total_routes(stats: Seq<(NodeId, u64)>) -> nat
    decreases stats.len(),
{
    if stats.len() == 0 {
        0
    } else {
        total_routes(stats.drop_last()) + stats.last().1 as nat
    }
}

/// The total of the routes counted, for the balance report.
pub fn total_requests(stats: &Vec<(NodeId, u64)>) -> (t: u64)
    requires
        total_routes(stats@) <= u64::MAX,
    ensures
        t == total_routes(stats@),
{
    let mut t: u64 = 0;
    let mut i: usize = 0;
    while i < stats.len()
        invariant
            i <= stats@.len(),
            total_routes(stats@) <= u64::MAX,
            t == total_routes(stats@.subrange(0, i as int)),
        decreases stats.len() - i,
    {
        proof {
            assert(stats@.subrange(0, i + 1).drop_last() =~= stats@.subrange(0, i as int));
            lemma_total_prefix(stats@, i as int + 1);
        }
        t = t + stats[i].1;
        i = i + 1;
    }
    proof {
        assert(stats@.subrange(0, stats@.len() as int) =~= stats@);
    }
    t
}

proof fn lemma_total_prefix(stats: Seq<(NodeId, u64)>, k: int)
    requires
        0 <= k <= stats.len(),
    ensures
        total_routes(stats.subrange(0, k)) <= total_routes(stats),
    decreases stats.len(),
{
    if k < stats.len() {
        assert(stats.drop_last().subrange(0, k) =~= stats.subrange(0, k));
        lemma_total_prefix(stats.drop_last(), k);
    } else {
        assert(stats.subrange(0, k) =~= stats);
    }
}

} // verus!
