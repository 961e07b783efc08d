//! The network layer's messages and its table of connections to other
//! nodes: where a node is reached, what a reply of the HTTP API amounts to,
//! and how connections change state as they are checked, dropped and shut.

use crate::distributed::cluster::ClusterInfo;
use crate::filtering::views;
use crate::text::{concat, decimal, push_decimal};
use crate::types::{NodeCounters, NodeId, NodeInfo};
use vstd::prelude::*;

verus! {

/// The state of a connection to another node.
#[derive(Debug, Clone, Copy, PartialEq, Eq, Structural)]
pub enum ConnectionStatus {
    Connecting,
    Connected,
    Disconnected,
    Failed,
}

/// A connection to another node.
#[derive(Debug)]
pub struct NodeConnection {
    pub node_info: NodeInfo,
    /// "http://address:port".
    pub base_url: String,
    pub status: ConnectionStatus,
    /// When the node last answered, in milliseconds of a monotonic clock.
    pub last_active: u64,
}

/// A reply of the HTTP API.
#[derive(Debug)]
pub struct ApiResponse<T> {
    pub success: bool,
    pub data: Option<T>,
    pub error: Option<String>,
}

/// A request to join the cluster.
#[derive(Debug)]
pub struct JoinClusterRequest {
    pub node_info: NodeInfo,
    pub cluster_token: String,
}

/// The answer to a join request.
#[derive(Debug)]
pub struct JoinClusterResponse {
    pub cluster_info: ClusterInfo,
}

/// A heartbeat sent to another node.
#[derive(Debug)]
pub struct HeartbeatRequest {
    pub node_id: NodeId,
    pub load: NodeCounters,
    /// Seconds since the Unix epoch.
    pub timestamp: i64,
}

/// The answer to a heartbeat.
#[derive(Debug)]
pub struct HeartbeatResponse {
    pub cluster_info: Option<ClusterInfo>,
}

/// The base URL of `node`: "http://", its address, ':' and its port.
pub open spec fn base_url_of(address: Seq<char>, port: u16) -> Seq<char> {
    "http://"@ + address + ":"@ + decimal(port as nat)
}

/// The base URL at which `node` is reached.
pub fn node_base_url(node: &NodeInfo) -> (u: String)
    ensures
        u@ == base_url_of(node.address@, node.port),
{
    let mut u = concat("http://", node.address.as_str());
    u.append(":");
    push_decimal(&mut u, node.port as u64);
    u
}

/// The URL of the API route `route` (such as "/raft/vote") under `base`.
pub fn api_url(base: &str, route: &str) -> (u: String)
    ensures
        u@ == base@ + route@,
{
    concat(base, route)
}

/// What a reply of the API amounts to: its data when it succeeded and
/// carries some; else its error text, or `fallback` when it has none.
pub fn api_result<T>(response: ApiResponse<T>, fallback: &str) -> (r: Result<T, String>)
    ensures
        response.success && response.data is Some ==> r == Ok::<T, String>(response.data->0),
        !(response.success && response.data is Some) ==> (r matches Err(m) && m@ == match response.error {
            Some(e) => e@,
            None => fallback@,
        }),
{
    if response.success {
        match response.data {
            Some(d) => {
                return Ok(d);
            },
            None => {},
        }
    }
    match response.error {
        Some(e) => Err(e),
        None => Err(String::from_str(fallback)),
    }
}

/// The error when no connection to `node_id` is known.
pub fn missing_connection_error(node_id: &str) -> (m: String)
    ensures
        m@ == "未找到节点连接: "@ + node_id@,
{
    concat("未找到节点连接: ", node_id)
}

/// A new live connection to `node`, active at `now`.
pub fn connected(node: NodeInfo, now: u64) -> (c: NodeConnection)
    ensures
        c.base_url@ == base_url_of(node.address@, node.port),
        c.node_info == node,
        c.status == ConnectionStatus::Connected,
        c.last_active == now,
{
    let base_url = node_base_url(&node);
    NodeConnection { node_info: node, base_url, status: ConnectionStatus::Connected, last_active: now }
}

/// Applies a health check of `conn` made at `now`: a live connection that
/// answered is active at `now`, one that did not has failed; a connection
/// that is not live is left as it is.
pub fn apply_health_check(conn: &mut NodeConnection, answered: bool, now: u64)
    ensures
        old(conn).status == ConnectionStatus::Connected && answered ==> *final(conn) == (NodeConnection {
            last_active: now,
            ..*old(conn)
        }),
        old(conn).status == ConnectionStatus::Connected && !answered ==> *final(conn) == (NodeConnection {
            status: ConnectionStatus::Failed,
            ..*old(conn)
        }),
        old(conn).status != ConnectionStatus::Connected ==> *final(conn) == *old(conn),
{
    if conn.status == ConnectionStatus::Connected {
        if answered {
            conn.last_active = now;
        } else {
            conn.status = ConnectionStatus::Failed;
        }
    }
}

/// The ids of the live connections of `conns`, in order.
pub open spec fn live_ids(conns: Seq<NodeConnection>) -> Seq<Seq<char>>
    decreases conns.len(),
{
    if conns.len() == 0 {
        Seq::empty()
    } else if conns.last().status == ConnectionStatus::Connected {
        live_ids(conns.drop_last()).push(conns.last().node_info.id@)
    } else {
        live_ids(conns.drop_last())
    }
}

/// Whether every id of `conns` occurs once.
pub open spec fn ids_unique(conns: Seq<NodeConnection>) -> bool {
    forall|i: int, j: int|
        0 <= i < j < conns.len() ==> (#[trigger] conns[i]).node_info.id@ != (#[trigger] conns[j]).node_info.id@
}

/// The connections to other nodes, at most one per node.
#[derive(Debug)]
pub struct ConnectionTable {
    connections: Vec<NodeConnection>,
}

impl ConnectionTable {
    /// The connections, in the order they were first made.
    pub closed spec fn entries(self) -> Seq<NodeConnection> {
        self.connections@
    }

    /// Whether no node has two connections.
    pub closed spec fn wf(self) -> bool {
        ids_unique(self.connections@)
    }

    /// No connection.
    pub fn new() -> (t: Self)
        ensures
            t.wf(),
            t.entries().len() == 0,
    {
        ConnectionTable { connections: Vec::new() }
    }

    /// The position of the connection to `id`, if there is one.
    fn position(&self, id: &str) -> (r: Option<usize>)
        ensures
            match r {
                Some(k) => k < self.entries().len() && self.entries()[k as int].node_info.id@ == id@,
                None => forall|k: int|
                    0 <= k < self.entries().len() ==> (#[trigger] self.entries()[k]).node_info.id@ != id@,
            },
    {
        let mut i: usize = 0;
        while i < self.connections.len()
            invariant
                i <= self.connections@.len(),
                forall|k: int| 0 <= k < i ==> (#[trigger] self.connections@[k]).node_info.id@ != id@,
            decreases self.connections.len() - i,
        {
            if crate::text::str_equal(self.connections[i].node_info.id.as_str(), id) {
                return Some(i);
            }
            i = i + 1;
        }
        None
    }

    /// Keeps `conn` as the connection to its node, in place of the one
    /// there was.
    pub fn insert(&mut self, conn: NodeConnection)
        requires
            old(self).wf(),
        ensures
            final(self).wf(),
            final(self).entries().contains(conn),
            forall|j: int|
                0 <= j < old(self).entries().len() && (#[trigger] old(self).entries()[j]).node_info.id@
                    != conn.node_info.id@ ==> final(self).entries().contains(old(self).entries()[j]),
            forall|c: NodeConnection|
                #[trigger] final(self).entries().contains(c) ==> c == conn || old(self).entries().contains(c),
    {
        let ghost before = self.connections@;
        let ghost c0 = conn;
        match self.position(conn.node_info.id.as_str()) {
            Some(k) => {
                self.connections.set(k, conn);
                proof {
                    let after = self.connections@;
                    assert(after[k as int] == c0);
                    assert forall|i: int, j: int|
                        0 <= i < j < after.len() implies (#[trigger] after[i]).node_info.id@
                        != (#[trigger] after[j]).node_info.id@ by {
                        assert(after[i].node_info.id@ == before[i].node_info.id@);
                        assert(after[j].node_info.id@ == before[j].node_info.id@);
                    }
                    assert forall|j: int|
                        0 <= j < before.len() && (#[trigger] before[j]).node_info.id@ != c0.node_info.id@ implies after.contains(before[j]) by {
                        assert(j != k);
                        assert(after[j] == before[j]);
                    }
                    assert forall|c: NodeConnection| #[trigger] after.contains(c) implies c == c0 || before.contains(c) by {
                        let m = choose|m: int| 0 <= m < after.len() && after[m] == c;
                        if m != k {
                            assert(before[m] == c);
                        }
                    }
                }
            },
            None => {
                self.connections.push(conn);
                proof {
                    let after = self.connections@;
                    let k = before.len() as int;
                    assert(after[k] == c0);
                    assert forall|i: int, j: int|
                        0 <= i < j < after.len() implies (#[trigger] after[i]).node_info.id@
                        != (#[trigger] after[j]).node_info.id@ by {
                        assert(after[i] == before[i]);
                        if j < k {
                            assert(after[j] == before[j]);
                        }
                    }
                    assert forall|j: int|
                        0 <= j < before.len() && (#[trigger] before[j]).node_info.id@ != c0.node_info.id@ implies after.contains(before[j]) by {
                        assert(after[j] == before[j]);
                    }
                    assert forall|c: NodeConnection| #[trigger] after.contains(c) implies c == c0 || before.contains(c) by {
                        let m = choose|m: int| 0 <= m < after.len() && after[m] == c;
                        if m != k {
                            assert(before[m] == c);
                        }
                    }
                }
            },
        }
    }

    /// The state of the connection to `id`, if there is one.
    pub fn status_of(&self, id: &str) -> (r: Option<ConnectionStatus>)
        requires
            self.wf(),
        ensures
            match r {
                Some(s) => exists|k: int|
                    0 <= k < self.entries().len() && (#[trigger] self.entries()[k]).node_info.id@ == id@
                        && self.entries()[k].status == s,
                None => forall|k: int|
                    0 <= k < self.entries().len() ==> (#[trigger] self.entries()[k]).node_info.id@ != id@,
            },
    {
        match self.position(id) {
            Some(k) => Some(self.connections[k].status),
            None => None,
        }
    }

    /// Every node and the state of its connection, in table order.
    pub fn all_statuses(&self) -> (r: Vec<(String, ConnectionStatus)>)
        ensures
            r@.len() == self.entries().len(),
            forall|k: int|
                0 <= k < r@.len() ==> (#[trigger] r@[k]).0@ == self.entries()[k].node_info.id@ && r@[k].1
                    == self.entries()[k].status,
    {
        let mut r: Vec<(String, ConnectionStatus)> = Vec::new();
        let mut i: usize = 0;
        while i < self.connections.len()
            invariant
                i <= self.connections@.len(),
                r@.len() == i,
                forall|k: int|
                    0 <= k < i ==> (#[trigger] r@[k]).0@ == self.connections@[k].node_info.id@ && r@[k].1
                        == self.connections@[k].status,
            decreases self.connections.len() - i,
        {
            let c = &self.connections[i];
            r.push((c.node_info.id.clone(), c.status));
            i = i + 1;
        }
        r
    }

    /// Marks the connection to `id` as dropped; the others are unchanged.
    pub fn disconnect(&mut self, id: &str)
        requires
            old(self).wf(),
        ensures
            final(self).wf(),
            final(self).entries().len() == old(self).entries().len(),
            forall|k: int|
                0 <= k < old(self).entries().len() ==> #[trigger] final(self).entries()[k] == if old(
                    self,
                ).entries()[k].node_info.id@ == id@ {
                    NodeConnection { status: ConnectionStatus::Disconnected, ..old(self).entries()[k] }
                } else {
                    old(self).entries()[k]
                },
    {
        match self.position(id) {
            Some(k) => {
                let ghost before = self.connections@;
                let mut conns = Vec::new();
                std::mem::swap(&mut conns, &mut self.connections);
                let mut c = conns.remove(k);
                c.status = ConnectionStatus::Disconnected;
                conns.insert(k, c);
                self.connections = conns;
                proof {
                    assert forall|j: int| 0 <= j < before.len() && j != k implies before[j].node_info.id@ != id@ by {
                        if j < k {
                            assert(before[j].node_info.id@ != before[k as int].node_info.id@);
                        } else {
                            assert(before[k as int].node_info.id@ != before[j].node_info.id@);
                        }
                    }
                    assert forall|j: int| 0 <= j < before.len() && j != k implies self.connections@[j] == before[j] by {}
                    assert forall|i: int, j: int|
                        0 <= i < j < self.connections@.len() implies (#[trigger] self.connections@[i]).node_info.id@
                        != (#[trigger] self.connections@[j]).node_info.id@ by {
                        assert(self.connections@[i].node_info == before[i].node_info);
                        assert(self.connections@[j].node_info == before[j].node_info);
                    }
                }
            },
            None => {},
        }
    }

    /// Marks every connection as dropped.
    pub fn shutdown(&mut self)
        requires
            old(self).wf(),
        ensures
            final(self).wf(),
            final(self).entries().len() == old(self).entries().len(),
            forall|k: int|
                0 <= k < old(self).entries().len() ==> #[trigger] final(self).entries()[k] == (NodeConnection {
                    status: ConnectionStatus::Disconnected,
                    ..old(self).entries()[k]
                }),
    {
        let ghost before = self.connections@;
        let mut conns = Vec::new();
        std::mem::swap(&mut conns, &mut self.connections);
        let mut out: Vec<NodeConnection> = Vec::new();
        let mut rest = conns;
        let ghost n = before.len();
        while rest.len() > 0
            invariant
                out@.len() + rest@.len() == n,
                n == before.len(),
                forall|k: int| 0 <= k < rest@.len() ==> rest@[k] == before[out@.len() + k],
                forall|k: int|
                    0 <= k < out@.len() ==> #[trigger] out@[k] == (NodeConnection {
                        status: ConnectionStatus::Disconnected,
                        ..before[k]
                    }),
            decreases rest.len(),
        {
            let ghost r0 = rest@;
            let mut c = rest.remove(0);
            c.status = ConnectionStatus::Disconnected;
            out.push(c);
            assert forall|k: int| 0 <= k < rest@.len() implies rest@[k] == before[out@.len() + k] by {
                assert(rest@[k] == r0[k + 1]);
            }
        }
        self.connections = out;
        proof {
            assert forall|i: int, j: int|
                0 <= i < j < self.connections@.len() implies (#[trigger] self.connections@[i]).node_info.id@
                != (#[trigger] self.connections@[j]).node_info.id@ by {
                assert(self.connections@[i].node_info == before[i].node_info);
                assert(self.connections@[j].node_info == before[j].node_info);
            }
        }
    }

    /// The nodes whose connections are live, in table order: the ones a
    /// health check probes.
    pub fn live_nodes(&self) -> (r: Vec<String>)
        ensures
            views(r@) == live_ids(self.entries()),
    {
        let mut r: Vec<String> = Vec::new();
        let mut i: usize = 0;
        while i < self.connections.len()
            invariant
                i <= self.connections@.len(),
                views(r@) == live_ids(self.connections@.subrange(0, i as int)),
            decreases self.connections.len() - i,
        {
            let ghost pre = self.connections@.subrange(0, i as int);
            assert(self.connections@.subrange(0, i + 1).drop_last() =~= pre);
            let c = &self.connections[i];
            if c.status == ConnectionStatus::Connected {
                let ghost r0 = r@;
                r.push(c.node_info.id.clone());
                assert(views(r@) =~= views(r0).push(c.node_info.id@));
            }
            i = i + 1;
        }
        assert(self.connections@.subrange(0, self.connections@.len() as int) =~= self.connections@);
        r
    }

    /// Applies the health check of the connection to `id`, made at `now`
    /// (see [`apply_health_check`]); the others are unchanged.
    pub fn record_health_check(&mut self, id: &str, answered: bool, now: u64)
        requires
            old(self).wf(),
        ensures
            final(self).wf(),
            final(self).entries().len() == old(self).entries().len(),
            forall|k: int|
                0 <= k < old(self).entries().len() && (#[trigger] old(self).entries()[k]).node_info.id@ != id@
                    ==> final(self).entries()[k] == old(self).entries()[k],
            forall|k: int|
                0 <= k < old(self).entries().len() && (#[trigger] old(self).entries()[k]).node_info.id@ == id@
                    ==> final(self).entries()[k] == if old(self).entries()[k].status != ConnectionStatus::Connected {
                    old(self).entries()[k]
                } else if answered {
                    NodeConnection { last_active: now, ..old(self).entries()[k] }
                } else {
                    NodeConnection { status: ConnectionStatus::Failed, ..old(self).entries()[k] }
                },
    {
        match self.position(id) {
            Some(k) => {
                let ghost before = self.connections@;
                let mut conns = Vec::new();
                std::mem::swap(&mut conns, &mut self.connections);
                let mut c = conns.remove(k);
                apply_health_check(&mut c, answered, now);
                conns.insert(k, c);
                self.connections = conns;
                proof {
                    assert forall|j: int| 0 <= j < before.len() && j != k implies before[j].node_info.id@ != id@ by {
                        if j < k {
                            assert(before[j].node_info.id@ != before[k as int].node_info.id@);
                        } else {
                            assert(before[k as int].node_info.id@ != before[j].node_info.id@);
                        }
                    }
                    assert forall|j: int| 0 <= j < before.len() && j != k implies self.connections@[j] == before[j] by {}
                    assert forall|i: int, j: int|
                        0 <= i < j < self.connections@.len() implies (#[trigger] self.connections@[i]).node_info.id@
                        != (#[trigger] self.connections@[j]).node_info.id@ by {
                        assert(self.connections@[i].node_info == before[i].node_info);
                        assert(self.connections@[j].node_info == before[j].node_info);
                    }
                }
            },
            None => {},
        }
    }
}

} // verus!
