//! Request routing: the order in which a request is tried on its target and
//! backups and when the retries stop, the connection pools and the response
//! cache with their expiry, and the routing counters. Times are milliseconds.

use crate::distributed::load_balancer::RouteResult;
use crate::distributed::shard::node_names;
use crate::text::str_equal;
use crate::types::NodeId;
use std::time::Duration;
use vstd::prelude::*;

verus! {

/// The kind of a routed request.
#[derive(Clone, Copy, Debug, PartialEq, Eq, Structural)]
pub enum RequestType {
    VectorSearch,
    DocumentInsert,
    DocumentDelete,
    BatchOperation,
    HealthCheck,
    ClusterInfo,
}

/// The name of a request kind, as it is printed.
pub open spec fn request_type_name(t: RequestType) -> Seq<char> {
    match t {
        RequestType::VectorSearch => "VectorSearch"@,
        RequestType::DocumentInsert => "DocumentInsert"@,
        RequestType::DocumentDelete => "DocumentDelete"@,
        RequestType::BatchOperation => "BatchOperation"@,
        RequestType::HealthCheck => "HealthCheck"@,
        RequestType::ClusterInfo => "ClusterInfo"@,
    }
}

impl RequestType {
    /// The name of this kind, which the load balancer is given.
    pub fn name(&self) -> (s: &'static str)
        ensures
            s@ == request_type_name(*self),
    {
        proof {
            reveal_strlit("VectorSearch");
            reveal_strlit("DocumentInsert");
            reveal_strlit("DocumentDelete");
            reveal_strlit("BatchOperation");
            reveal_strlit("HealthCheck");
            reveal_strlit("ClusterInfo");
        }
        match self {
            RequestType::VectorSearch => "VectorSearch",
            RequestType::DocumentInsert => "DocumentInsert",
            RequestType::DocumentDelete => "DocumentDelete",
            RequestType::BatchOperation => "BatchOperation",
            RequestType::HealthCheck => "HealthCheck",
            RequestType::ClusterInfo => "ClusterInfo",
        }
    }
}

/// What the router knows of a request.
#[derive(Debug)]
pub struct RequestRouteInfo {
    pub request_id: String,
    pub request_type: RequestType,
    pub request_size_bytes: u64,
    /// From 1 to 10, 10 the highest.
    pub priority: u8,
    pub timeout: Duration,
    pub requires_consistency: bool,
}

/// Settings of the router.
#[derive(Clone, Copy, Debug)]
pub struct RoutingConfig {
    pub enable_failover: bool,
    pub max_retries: u32,
    pub request_timeout_ms: u64,
    pub connection_pool_size: u32,
    pub enable_request_cache: bool,
    pub cache_ttl_secs: u64,
}

impl Default for RoutingConfig {
    /// Failover on, 3 retries, 5 s per request, 10 connections per node, a
    /// response cache kept 300 s.
    fn default() -> (c: Self)
        ensures
            c.enable_failover,
            c.max_retries == 3,
            c.request_timeout_ms == 5000,
            c.connection_pool_size == 10,
            c.enable_request_cache,
            c.cache_ttl_secs == 300,
    {
        RoutingConfig {
            enable_failover: true,
            max_retries: 3,
            request_timeout_ms: 5000,
            connection_pool_size: 10,
            enable_request_cache: true,
            cache_ttl_secs: 300,
        }
    }
}

/// The outcome of a routed request.
#[derive(Debug)]
pub struct RouteExecutionResult<T> {
    pub response: T,
    pub executed_node: NodeId,
    pub execution_time_ms: u64,
    pub used_failover: bool,
    pub retry_count: u32,
}

/// The connections kept to a node.
#[derive(Debug)]
pub struct ConnectionPool {
    pub node_id: NodeId,
    pub active_connections: u32,
    pub max_connections: u32,
    pub last_used: u64,
}

/// A cached response.
#[derive(Debug)]
pub struct CachedResponse {
    pub data: Vec<u8>,
    pub cached_at: u64,
    pub ttl_ms: u64,
}

/// The routing counters.
#[derive(Debug)]
pub struct RoutingMetrics {
    pub total_requests: u64,
    pub successful_requests: u64,
    pub failed_requests: u64,
    pub failover_count: u64,
    pub cache_hits: u64,
    pub cache_misses: u64,
    pub requests_per_node: Vec<(NodeId, u64)>,
}

/// The tries of one request: the target first, then the backups in order.
/// Each try after the first is a failover and a retry; after a failed try the
/// next one is made only while the retries are below the limit.
#[derive(Debug)]
pub struct RetryPlan {
    targets: Vec<NodeId>,
    next: usize,
    retry_count: u32,
    used_failover: bool,
    max_retries: u32,
}

/// The number of tries a request gets on `n` nodes with at most
/// `max_retries` retries, when every try fails.
pub open spec fn tries_allowed(n: nat, max_retries: nat) -> nat {
    if n <= max_retries + 1 {
        n
    } else {
        max_retries + 1
    }
}

impl RetryPlan {
    /// The nodes to try, in order.
    pub closed spec fn targets(&self) -> Seq<Seq<char>> {
        node_names(self.targets@)
    }

    /// The tries made so far.
    pub closed spec fn tried(&self) -> nat {
        self.next as nat
    }

    /// The retries made so far.
    pub closed spec fn retries(&self) -> nat {
        self.retry_count as nat
    }

    /// Whether a failover happened.
    pub closed spec fn failed_over(&self) -> bool {
        self.used_failover
    }

    /// The retries allowed.
    pub closed spec fn limit(&self) -> nat {
        self.max_retries as nat
    }

    /// The plan's counters agree: every try after the first was a retry, and
    /// no more tries were made than the retries allow.
    pub closed spec fn wf(&self) -> bool {
        &&& self.next <= self.targets@.len()
        &&& self.retry_count as nat == if self.next == 0 { 0 } else { (self.next - 1) as nat }
        &&& self.used_failover == (self.next > 1)
        &&& self.next <= self.max_retries + 1
    }

    /// The plan for `route` with at most `max_retries` retries: its target,
    /// then its backups.
    pub fn new(route: &RouteResult, max_retries: u32) -> (p: RetryPlan)
        ensures
            p.wf(),
            p.targets() == seq![route.target_node@] + node_names(route.backup_nodes@),
            p.tried() == 0,
            p.limit() == max_retries,
    {
        let mut targets: Vec<NodeId> = Vec::new();
        targets.push(route.target_node.clone());
        let mut i: usize = 0;
        while i < route.backup_nodes.len()
            invariant
                i <= route.backup_nodes@.len(),
                node_names(targets@) == seq![route.target_node@] + node_names(route.backup_nodes@).subrange(0, i as int),
            decreases route.backup_nodes.len() - i,
        {
            let ghost before = targets@;
            targets.push(route.backup_nodes[i].clone());
            proof {
                assert(targets@ == before.push(route.backup_nodes@[i as int]));
                assert(node_names(targets@) =~= node_names(before).push(route.backup_nodes@[i as int]@));
                assert(node_names(route.backup_nodes@).subrange(0, i + 1) =~= node_names(route.backup_nodes@).subrange(
                    0,
                    i as int,
                ).push(route.backup_nodes@[i as int]@));
                assert(node_names(targets@) =~= seq![route.target_node@] + node_names(route.backup_nodes@).subrange(
                    0,
                    i + 1,
                ));
            }
            i = i + 1;
        }
        proof {
            assert(node_names(route.backup_nodes@).subrange(0, route.backup_nodes@.len() as int) =~= node_names(
                route.backup_nodes@,
            ));
        }
        RetryPlan { targets, next: 0, retry_count: 0, used_failover: false, max_retries }
    }

    /// The next node to try after the last try failed (or the first one):
    /// none once the nodes run out or, after a try, once the retries have
    /// reached the limit; otherwise the next in order, which counts a retry
    /// and a failover unless it is the first.
    pub fn next_target(&mut self) -> (t: Option<NodeId>)
        requires
            old(self).wf(),
        ensures
            final(self).wf(),
            final(self).targets() == old(self).targets(),
            final(self).limit() == old(self).limit(),
            (old(self).tried() == old(self).targets().len() || (old(self).tried() > 0 && old(self).retries()
                >= old(self).limit())) ==> t is None && final(self).tried() == old(self).tried()
                && final(self).retries() == old(self).retries() && final(self).failed_over() == old(self).failed_over(),
            !(old(self).tried() == old(self).targets().len() || (old(self).tried() > 0 && old(self).retries()
                >= old(self).limit())) ==> (t matches Some(n) && n@ == old(self).targets()[old(self).tried() as int])
                && final(self).tried() == old(self).tried() + 1 && final(self).retries() == (if old(self).tried() == 0 {
                0
            } else {
                old(self).retries() + 1
            }) && final(self).failed_over() == (old(self).tried() >= 1),
    {
        if self.next >= self.targets.len() || (self.next > 0 && self.retry_count >= self.max_retries) {
            return None;
        }
        let node = self.targets[self.next].clone();
        if self.next > 0 {
            self.used_failover = true;
            self.retry_count = self.retry_count + 1;
        }
        self.next = self.next + 1;
        Some(node)
    }

    /// The retries made and whether a failover happened.
    pub fn counters(&self) -> (r: (u32, bool))
        ensures
            r.0 == self.retries(),
            r.1 == self.failed_over(),
    {
        (self.retry_count, self.used_failover)
    }
}

/// Where a routed request was answered: the node, the retries made before
/// it and whether a failover happened.
#[derive(Debug)]
pub struct RouteSuccess {
    pub executed_node: NodeId,
    pub retry_count: u32,
    pub used_failover: bool,
}

/// Why a routed request failed: the load balancer found no route, or every
/// node tried failed.
#[derive(Clone, Copy, Debug, PartialEq, Eq, Structural)]
pub enum RoutingFailure {
    NoHealthyNode,
    AllNodesFailed,
}

impl RoutingFailure {
    /// The message of the network error the request ends with.
    pub fn message(&self) -> (s: &'static str)
        ensures
            *self == RoutingFailure::NoHealthyNode ==> s@ == "没有可用的健康节点"@,
            *self == RoutingFailure::AllNodesFailed ==> s@ == "所有节点都不可用"@,
    {
        proof {
            reveal_strlit("没有可用的健康节点");
            reveal_strlit("所有节点都不可用");
        }
        match self {
            RoutingFailure::NoHealthyNode => "没有可用的健康节点",
            RoutingFailure::AllNodesFailed => "所有节点都不可用",
        }
    }
}

/// One routed request in progress: the caller tries the node it is given
/// and reports the answer. A success ends the request on that node; a
/// failure is reported to the load balancer by the caller, and the next node
/// of the plan is tried while the plan allows. Every node tried before the
/// current one failed.
#[derive(Debug)]
pub struct RoutingRun {
    plan: RetryPlan,
    failed: Vec<NodeId>,
    finished: bool,
}

impl RoutingRun {
    /// The nodes to try, in order.
    pub closed spec fn targets(&self) -> Seq<Seq<char>> {
        self.plan.targets()
    }

    /// The tries made so far.
    pub closed spec fn tried(&self) -> nat {
        self.plan.tried()
    }

    /// The retries allowed.
    pub closed spec fn limit(&self) -> nat {
        self.plan.limit()
    }

    /// The nodes whose try failed, in order.
    pub closed spec fn failed(&self) -> Seq<Seq<char>> {
        node_names(self.failed@)
    }

    /// Whether the request ended, answered or not.
    pub closed spec fn finished(&self) -> bool {
        self.finished
    }

    /// A request in progress has made a try, and all tries but the last failed.
    pub closed spec fn wf(&self) -> bool {
        &&& self.plan.wf()
        &&& self.plan.tried() >= 1
        &&& node_names(self.failed@) == self.plan.targets().subrange(0, self.plan.tried() - 1)
    }

    /// Starts routing a request along `route` with at most `max_retries`
    /// retries, and gives the first node to try: the route's target.
    pub fn start(route: &RouteResult, max_retries: u32) -> (r: (RoutingRun, NodeId))
        ensures
            r.0.wf(),
            !r.0.finished(),
            r.0.targets() == seq![route.target_node@] + node_names(route.backup_nodes@),
            r.0.limit() == max_retries,
            r.0.tried() == 1,
            r.0.failed().len() == 0,
            r.1@ == route.target_node@,
    {
        let mut plan = RetryPlan::new(route, max_retries);
        let first = plan.next_target();
        let node = first.unwrap();
        let failed: Vec<NodeId> = Vec::new();
        let run = RoutingRun { plan, failed, finished: false };
        proof {
            assert(node_names(run.failed@) =~= run.plan.targets().subrange(0, 0));
        }
        (run, node)
    }

    /// Whether a node after the first was tried.
    pub fn failover_used(&self) -> (b: bool)
        ensures
            b == (self.tried() > 1),
    {
        self.plan.next > 1
    }

    /// The current node answered: the request ends there, after the retries
    /// that the earlier, failed nodes took.
    pub fn record_success(&mut self) -> (s: RouteSuccess)
        requires
            old(self).wf(),
            !old(self).finished(),
        ensures
            final(self).finished(),
            final(self).targets() == old(self).targets(),
            final(self).tried() == old(self).tried(),
            final(self).failed() == old(self).failed(),
            old(self).failed() == old(self).targets().subrange(0, old(self).tried() - 1),
            s.executed_node@ == old(self).targets()[old(self).tried() - 1],
            s.retry_count == old(self).tried() - 1,
            s.used_failover == (old(self).tried() > 1),
    {
        let (retry_count, used_failover) = self.plan.counters();
        let k = self.plan.next - 1;
        let executed_node = self.plan.targets[k].clone();
        self.finished = true;
        RouteSuccess { executed_node, retry_count, used_failover }
    }

    /// The current node failed: it is returned, for the caller to report it
    /// unhealthy, with the next node to try. There is none once every node was
    /// tried or the retries reached the limit; then the request has failed on
    /// every node tried, as many as the plan allows.
    pub fn record_failure(&mut self) -> (r: (NodeId, Option<NodeId>))
        requires
            old(self).wf(),
            !old(self).finished(),
        ensures
            old(self).failed() == old(self).targets().subrange(0, old(self).tried() - 1),
            r.0@ == old(self).targets()[old(self).tried() - 1],
            final(self).failed() == old(self).failed().push(r.0@),
            final(self).targets() == old(self).targets(),
            final(self).limit() == old(self).limit(),
            (old(self).tried() == old(self).targets().len() || old(self).tried() - 1 >= old(self).limit()) ==> {
                &&& r.1 is None
                &&& final(self).finished()
                &&& final(self).tried() == old(self).tried()
                &&& final(self).tried() == tries_allowed(old(self).targets().len(), old(self).limit())
                &&& final(self).failed() == old(self).targets().subrange(0, old(self).tried() as int)
            },
            !(old(self).tried() == old(self).targets().len() || old(self).tried() - 1 >= old(self).limit()) ==> {
                &&& r.1 matches Some(n) && n@ == old(self).targets()[old(self).tried() as int]
                &&& !final(self).finished()
                &&& final(self).wf()
                &&& final(self).tried() == old(self).tried() + 1
            },
    {
        let k = self.plan.next - 1;
        let node = self.plan.targets[k].clone();
        let ghost f0 = self.failed@;
        let ghost t = self.plan.targets();
        self.failed.push(node.clone());
        proof {
            assert(node_names(self.failed@) =~= node_names(f0).push(node@));
            assert(t.subrange(0, k + 1) =~= t.subrange(0, k as int).push(t[k as int]));
            lemma_tries_bounded(self.plan);
        }
        let next = self.plan.next_target();
        if next.is_none() {
            self.finished = true;
        }
        (node, next)
    }
}

/// A request is tried on at most `max_retries + 1` nodes, in order: however
/// the tries fail, no more are made than the retries allow, nor more than
/// there are nodes.
pub proof fn lemma_tries_bounded(p: RetryPlan)
    requires
        p.wf(),
    ensures
        p.tried() <= tries_allowed(p.targets().len(), p.limit()),
{
}

/// The pool of `node` among `pools`, the first kept.
pub open spec fn pool_of(pools: Seq<ConnectionPool>, node: Seq<char>) -> Option<ConnectionPool>
    decreases pools.len(),
{
    if pools.len() == 0 {
        None
    } else if pools[0].node_id@ == node {
        Some(pools[0])
    } else {
        pool_of(pools.drop_first(), node)
    }
}

/// The cached response of `id`, the first kept.
pub open spec fn cached_of(cache: Seq<(String, CachedResponse)>, id: Seq<char>) -> Option<CachedResponse>
    decreases cache.len(),
{
    if cache.len() == 0 {
        None
    } else if cache[0].0@ == id {
        Some(cache[0].1)
    } else {
        cached_of(cache.drop_first(), id)
    }
}

/// The time from `then` to `now`, 0 when `now` comes first.
pub open spec fn elapsed(then: u64, now: u64) -> nat {
    if now > then {
        (now - then) as nat
    } else {
        0
    }
}

/// Whether a cached response is still fresh at `now`.
pub open spec fn fresh(c: CachedResponse, now: u64) -> bool {
    elapsed(c.cached_at, now) < c.ttl_ms
}

/// The router's pools, cache and counters.
#[derive(Debug)]
pub struct ClusterAwareRequestRouter {
    pub config: RoutingConfig,
    pub connection_pools: Vec<ConnectionPool>,
    pub request_cache: Vec<(String, CachedResponse)>,
    pub routing_metrics: RoutingMetrics,
}

impl ClusterAwareRequestRouter {
    /// A router with no pools, an empty cache and zero counters.
    pub fn new(config: RoutingConfig) -> (r: ClusterAwareRequestRouter)
        ensures
            r.config == config,
            r.connection_pools@.len() == 0,
            r.request_cache@.len() == 0,
            r.routing_metrics.total_requests == 0,
            r.routing_metrics.successful_requests == 0,
            r.routing_metrics.failed_requests == 0,
            r.routing_metrics.failover_count == 0,
            r.routing_metrics.cache_hits == 0,
            r.routing_metrics.cache_misses == 0,
            r.routing_metrics.requests_per_node@.len() == 0,
    {
        ClusterAwareRequestRouter {
            config,
            connection_pools: Vec::new(),
            request_cache: Vec::new(),
            routing_metrics: RoutingMetrics {
                total_requests: 0,
                successful_requests: 0,
                failed_requests: 0,
                failover_count: 0,
                cache_hits: 0,
                cache_misses: 0,
                requests_per_node: Vec::new(),
            },
        }
    }

    /// Gives `node_id` a pool at `now` unless it has one: no active
    /// connections and the configured size.
    pub fn ensure_connection_pool(&mut self, node_id: &NodeId, now: u64)
        ensures
            pool_of(old(self).connection_pools@, node_id@) is Some ==> final(self).connection_pools@
                == old(self).connection_pools@,
            pool_of(old(self).connection_pools@, node_id@) is None ==> final(self).connection_pools@.len()
                == old(self).connection_pools@.len() + 1 && final(self).connection_pools@.subrange(
                0,
                old(self).connection_pools@.len() as int,
            ) == old(self).connection_pools@ && ({
                let p = final(self).connection_pools@.last();
                p.node_id@ == node_id@ && p.active_connections == 0 && p.max_connections
                    == old(self).config.connection_pool_size && p.last_used == now
            }),
            final(self).config == old(self).config,
    {
        let ghost ps = self.connection_pools@;
        let mut i: usize = 0;
        assert(ps.subrange(0, ps.len() as int) =~= ps);
        while i < self.connection_pools.len()
            invariant
                ps == self.connection_pools@,
                i <= ps.len(),
                pool_of(ps, node_id@) == pool_of(ps.subrange(i as int, ps.len() as int), node_id@),
            decreases ps.len() - i,
        {
            proof {
                assert(ps.subrange(i as int, ps.len() as int).drop_first() =~= ps.subrange(i + 1, ps.len() as int));
            }
            if str_equal(self.connection_pools[i].node_id.as_str(), node_id.as_str()) {
                return;
            }
            i = i + 1;
        }
        self.connection_pools.push(
            ConnectionPool {
                node_id: node_id.clone(),
                active_connections: 0,
                max_connections: self.config.connection_pool_size,
                last_used: now,
            },
        );
        proof {
            assert(self.connection_pools@.subrange(0, ps.len() as int) =~= ps);
        }
    }

    /// The cached response of `request_id` if it is fresh at `now`.
    pub fn check_cache(&self, request_id: &str, now: u64) -> (r: Option<&CachedResponse>)
        ensures
            match cached_of(self.request_cache@, request_id@) {
                Some(c) => if fresh(c, now) {
                    r == Some(&c)
                } else {
                    r is None
                },
                None => r is None,
            },
    {
        let ghost cs = self.request_cache@;
        let mut i: usize = 0;
        assert(cs.subrange(0, cs.len() as int) =~= cs);
        while i < self.request_cache.len()
            invariant
                cs == self.request_cache@,
                i <= cs.len(),
                cached_of(cs, request_id@) == cached_of(cs.subrange(i as int, cs.len() as int), request_id@),
            decreases cs.len() - i,
        {
            proof {
                assert(cs.subrange(i as int, cs.len() as int).drop_first() =~= cs.subrange(i + 1, cs.len() as int));
            }
            if str_equal(self.request_cache[i].0.as_str(), request_id) {
                let c = &self.request_cache[i].1;
                proof {
                    assert(cs.subrange(i as int, cs.len() as int)[0] == cs[i as int]);
                }
                if now.saturating_sub(c.cached_at) >= c.ttl_ms {
                    return None;
                }
                return Some(c);
            }
            i = i + 1;
        }
        None
    }

    /// Counts a cache hit or a miss.
    pub fn update_cache_metrics(&mut self, cache_hit: bool)
        requires
            old(self).routing_metrics.cache_hits < u64::MAX,
            old(self).routing_metrics.cache_misses < u64::MAX,
        ensures
            final(self).routing_metrics.cache_hits == old(self).routing_metrics.cache_hits + (if cache_hit {
                1int
            } else {
                0int
            }),
            final(self).routing_metrics.cache_misses == old(self).routing_metrics.cache_misses + (if cache_hit {
                0int
            } else {
                1int
            }),
            final(self).routing_metrics.total_requests == old(self).routing_metrics.total_requests,
            final(self).config == old(self).config,
    {
        if cache_hit {
            self.routing_metrics.cache_hits = self.routing_metrics.cache_hits + 1;
        } else {
            self.routing_metrics.cache_misses = self.routing_metrics.cache_misses + 1;
        }
    }

    /// Counts a routed request that ended on `node_id`: one more request,
    /// success or failure, failover if one happened, and one more for the node.
    pub fn update_routing_metrics(&mut self, node_id: &NodeId, success: bool, used_failover: bool)
        requires
            old(self).routing_metrics.total_requests < u64::MAX,
            old(self).routing_metrics.successful_requests < u64::MAX,
            old(self).routing_metrics.failed_requests < u64::MAX,
            old(self).routing_metrics.failover_count < u64::MAX,
            crate::distributed::load_balancer::routes_to(old(self).routing_metrics.requests_per_node@, node_id@) < u64::MAX,
        ensures
            final(self).routing_metrics.total_requests == old(self).routing_metrics.total_requests + 1,
            final(self).routing_metrics.successful_requests == old(self).routing_metrics.successful_requests + (
            if success {
                1int
            } else {
                0int
            }),
            final(self).routing_metrics.failed_requests == old(self).routing_metrics.failed_requests + (if success {
                0int
            } else {
                1int
            }),
            final(self).routing_metrics.failover_count == old(self).routing_metrics.failover_count + (
            if used_failover {
                1int
            } else {
                0int
            }),
            crate::distributed::load_balancer::routes_to(final(self).routing_metrics.requests_per_node@, node_id@)
                == crate::distributed::load_balancer::routes_to(
                old(self).routing_metrics.requests_per_node@,
                node_id@,
            ) + 1,
            final(self).routing_metrics.cache_hits == old(self).routing_metrics.cache_hits,
            final(self).routing_metrics.cache_misses == old(self).routing_metrics.cache_misses,
    {
        self.routing_metrics.total_requests = self.routing_metrics.total_requests + 1;
        if success {
            self.routing_metrics.successful_requests = self.routing_metrics.successful_requests + 1;
        } else {
            self.routing_metrics.failed_requests = self.routing_metrics.failed_requests + 1;
        }
        if used_failover {
            self.routing_metrics.failover_count = self.routing_metrics.failover_count + 1;
        }
        crate::distributed::load_balancer::record_route(&mut self.routing_metrics.requests_per_node, node_id);
    }

    /// Drops the pools unused for more than ten minutes at `now`, keeping
    /// the others in order.
    pub fn cleanup_connection_pools(&mut self, now: u64)
        ensures
            final(self).connection_pools@ == recent_pools(old(self).connection_pools@, now),
            final(self).config == old(self).config,
            final(self).request_cache@ == old(self).request_cache@,
            final(self).routing_metrics == old(self).routing_metrics,
    {
        let mut kept: Vec<ConnectionPool> = Vec::new();
        let mut rest = Vec::new();
        std::mem::swap(&mut rest, &mut self.connection_pools);
        let ghost s0 = rest@;
        let ghost n0 = rest@.len();
        assert(s0.subrange(0, 0) =~= Seq::<ConnectionPool>::empty());
        assert(s0.subrange(0, n0 as int) =~= s0);
        while rest.len() > 0
            invariant
                rest@.len() <= n0,
                n0 == s0.len(),
                rest@ == s0.subrange(n0 - rest@.len(), n0 as int),
                kept@ == recent_pools(s0.subrange(0, n0 - rest@.len()), now),
            decreases rest.len(),
        {
            let ghost k = n0 - rest@.len();
            let ghost r0 = rest@;
            let p = rest.remove(0);
            assert(s0.subrange(0, k + 1).drop_last() =~= s0.subrange(0, k));
            assert(s0.subrange(0, k + 1).last() == p);
            assert(rest@ =~= s0.subrange(k + 1, n0 as int));
            if now.saturating_sub(p.last_used) <= 600_000 {
                kept.push(p);
            }
        }
        self.connection_pools = kept;
    }

    /// Drops the cached responses that are stale at `now`, keeping the
    /// others in order.
    pub fn cleanup_cache(&mut self, now: u64)
        ensures
            final(self).request_cache@ == fresh_entries(old(self).request_cache@, now),
            final(self).config == old(self).config,
            final(self).connection_pools@ == old(self).connection_pools@,
            final(self).routing_metrics == old(self).routing_metrics,
    {
        let mut kept: Vec<(String, CachedResponse)> = Vec::new();
        let mut rest = Vec::new();
        std::mem::swap(&mut rest, &mut self.request_cache);
        let ghost s0 = rest@;
        let ghost n0 = rest@.len();
        assert(s0.subrange(0, 0) =~= Seq::<(String, CachedResponse)>::empty());
        assert(s0.subrange(0, n0 as int) =~= s0);
        while rest.len() > 0
            invariant
                rest@.len() <= n0,
                n0 == s0.len(),
                rest@ == s0.subrange(n0 - rest@.len(), n0 as int),
                kept@ == fresh_entries(s0.subrange(0, n0 - rest@.len()), now),
            decreases rest.len(),
        {
            let ghost k = n0 - rest@.len();
            let e = rest.remove(0);
            assert(s0.subrange(0, k + 1).drop_last() =~= s0.subrange(0, k));
            assert(s0.subrange(0, k + 1).last() == e);
            assert(rest@ =~= s0.subrange(k + 1, n0 as int));
            if now.saturating_sub(e.1.cached_at) < e.1.ttl_ms {
                kept.push(e);
            }
        }
        self.request_cache = kept;
    }
}

/// The pools of `s` used within ten minutes of `now`, in order.
pub open spec fn recent_pools(s: Seq<ConnectionPool>, now: u64) -> Seq<ConnectionPool>
    decreases s.len(),
{
    if s.len() == 0 {
        s
    } else if elapsed(s.last().last_used, now) <= 600_000 {
        recent_pools(s.drop_last(), now).push(s.last())
    } else {
        recent_pools(s.drop_last(), now)
    }
}

/// The cached responses of `s` still fresh at `now`, in order.
pub open spec fn fresh_entries(s: Seq<(String, CachedResponse)>, now: u64) -> Seq<(String, CachedResponse)>
    decreases s.len(),
{
    if s.len() == 0 {
        s
    } else if fresh(s.last().1, now) {
        fresh_entries(s.drop_last(), now).push(s.last())
    } else {
        fresh_entries(s.drop_last(), now)
    }
}

} // verus!
