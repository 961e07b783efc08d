//! The cluster's records and what the cluster manager does to them: joining
//! and leaving nodes, heartbeat timeouts, the repair of shards after a node
//! fails or leaves, and the cluster's counters.

use crate::clock::chrono_timestamp_now;
use crate::distributed::shard::node_names;
use crate::text::str_equal;
use crate::types::{NodeId, NodeInfo, NodeState, ShardInfo};
use vstd::prelude::*;

verus! {

/// Settings of the cluster.
#[derive(Debug)]
pub struct ClusterConfig {
    pub cluster_name: String,
    pub max_nodes: usize,
    pub heartbeat_interval_secs: u64,
    pub node_timeout_secs: u64,
    pub replication_factor: usize,
    pub shard_count: u32,
}

/// The counters of the cluster.
#[derive(Clone, Copy, Debug)]
pub struct ClusterCounts {
    pub total_nodes: u32,
    pub active_nodes: u32,
    pub total_shards: u32,
    pub total_vectors: u64,
    /// Mean over the healthy nodes; 0 when there is none.
    pub avg_request_count: u64,
    /// Mean over the healthy nodes; 0 when there is none.
    pub avg_vector_count: u64,
}

/// What the cluster knows of itself: its nodes (each id once), its shards
/// (each id once), its counters and a version that every change raises.
#[derive(Debug)]
pub struct ClusterInfo {
    pub nodes: Vec<NodeInfo>,
    pub leader_id: Option<NodeId>,
    pub shards: Vec<ShardInfo>,
    pub shard_map_version: u64,
    pub stats: ClusterCounts,
    pub version: u64,
}

/// `s` without the occurrences of `x`.
pub open spec fn without(s: Seq<Seq<char>>, x: Seq<char>) -> Seq<Seq<char>>
    decreases s.len(),
{
    if s.len() == 0 {
        s
    } else {
        let rest = without(s.drop_last(), x);
        if s.last() == x {
            rest
        } else {
            rest.push(s.last())
        }
    }
}

/// The ids of the healthy nodes other than `node`, in order.
pub open spec fn healthy_others(nodes: Seq<NodeInfo>, node: Seq<char>) -> Seq<Seq<char>>
    decreases nodes.len(),
{
    if nodes.len() == 0 {
        Seq::empty()
    } else {
        let rest = healthy_others(nodes.drop_last(), node);
        let n = nodes.last();
        if n.id@ != node && n.state == NodeState::Healthy {
            rest.push(n.id@)
        } else {
            rest
        }
    }
}

/// The first of `candidates` that is neither `primary` nor among `replicas`.
pub open spec fn first_candidate(
    candidates: Seq<Seq<char>>,
    primary: Seq<char>,
    replicas: Seq<Seq<char>>,
) -> Option<Seq<char>>
    decreases candidates.len(),
{
    if candidates.len() == 0 {
        None
    } else if candidates[0] != primary && !replicas.contains(candidates[0]) {
        Some(candidates[0])
    } else {
        first_candidate(candidates.drop_first(), primary, replicas)
    }
}

/// Whether a shard placed on `primary` and `replicas` involves `node`.
pub open spec fn involves(primary: Seq<char>, replicas: Seq<Seq<char>>, node: Seq<char>) -> bool {
    primary == node || replicas.contains(node)
}

/// The placement of a shard after `node` failed, with `healthy` the healthy
/// other nodes: a failed primary is replaced by the first replica (or, with
/// none, by the first healthy node); the failed node leaves the replicas;
/// and a shard left with fewer than two replicas, and fewer than there are
/// healthy nodes, gains the first healthy node it lacks.
pub open spec fn repaired(
    primary: Seq<char>,
    replicas: Seq<Seq<char>>,
    node: Seq<char>,
    healthy: Seq<Seq<char>>,
) -> (Seq<char>, Seq<Seq<char>>) {
    let (p1, r1) = if primary == node {
        if replicas.len() > 0 {
            (replicas[0], without(replicas, replicas[0]))
        } else {
            (healthy[0], replicas)
        }
    } else {
        (primary, replicas)
    };
    let r2 = without(r1, node);
    let r3 = if r2.len() < 2 && r2.len() < healthy.len() {
        match first_candidate(healthy, p1, r2) {
            Some(c) => r2.push(c),
            None => r2,
        }
    } else {
        r2
    };
    (p1, r3)
}

/// The placement of a shard: its primary and its replicas.
pub open spec fn placement(s: ShardInfo) -> (Seq<char>, Seq<Seq<char>>) {
    (s.primary_node@, node_names(s.replica_nodes@))
}

/// The ids of the nodes.
pub open spec fn node_ids(nodes: Seq<NodeInfo>) -> Seq<Seq<char>> {
    nodes.map_values(|n: NodeInfo| n.id@)
}

proof fn lemma_without_excludes(s: Seq<Seq<char>>, x: Seq<char>)
    ensures
        !without(s, x).contains(x),
        forall|y: Seq<char>| #[trigger] without(s, x).contains(y) ==> s.contains(y),
        forall|y: Seq<char>| y != x && s.contains(y) ==> #[trigger] without(s, x).contains(y),
        without(s, x).len() <= s.len(),
    decreases s.len(),
{
    if s.len() > 0 {
        lemma_without_excludes(s.drop_last(), x);
        let rest = without(s.drop_last(), x);
        assert forall|y: Seq<char>| #[trigger] without(s, x).contains(y) implies s.contains(y) by {
            if rest.contains(y) {
                let k = choose|k: int| 0 <= k < s.drop_last().len() && s.drop_last()[k] == y;
                assert(s[k] == y);
            } else {
                assert(y == s.last());
                assert(s[s.len() - 1] == y);
            }
        }
        assert forall|y: Seq<char>| y != x && s.contains(y) implies #[trigger] without(s, x).contains(y) by {
            let k = choose|k: int| 0 <= k < s.len() && s[k] == y;
            if k < s.len() - 1 {
                assert(s.drop_last()[k] == y);
                assert(rest.contains(y));
                if s.last() != x {
                    let j = choose|j: int| 0 <= j < rest.len() && rest[j] == y;
                    assert(rest.push(s.last())[j] == y);
                }
            } else {
                assert(rest.push(s.last())[rest.len() as int] == y);
            }
        }
        if s.last() != x {
            assert forall|k: int| 0 <= k < rest.push(s.last()).len() implies rest.push(s.last())[k] != x by {
                if k < rest.len() {
                    assert(rest.contains(rest[k]));
                }
            }
        }
    }
}

proof fn lemma_healthy_others_exclude(nodes: Seq<NodeInfo>, node: Seq<char>)
    ensures
        forall|k: int| 0 <= k < healthy_others(nodes, node).len() ==> #[trigger] healthy_others(nodes, node)[k] != node,
    decreases nodes.len(),
{
    if nodes.len() > 0 {
        lemma_healthy_others_exclude(nodes.drop_last(), node);
        let rest = healthy_others(nodes.drop_last(), node);
        assert forall|k: int| 0 <= k < healthy_others(nodes, node).len() implies #[trigger] healthy_others(
            nodes,
            node,
        )[k] != node by {
            if k < rest.len() {
                assert(rest[k] != node);
            }
        }
    }
}

proof fn lemma_first_candidate_is_fresh(candidates: Seq<Seq<char>>, primary: Seq<char>, replicas: Seq<Seq<char>>)
    ensures
        first_candidate(candidates, primary, replicas) matches Some(c) ==> c != primary && !replicas.contains(c)
            && candidates.contains(c),
    decreases candidates.len(),
{
    if candidates.len() > 0 {
        lemma_first_candidate_is_fresh(candidates.drop_first(), primary, replicas);
        match first_candidate(candidates, primary, replicas) {
            Some(c) => {
                if !(candidates[0] != primary && !replicas.contains(candidates[0])) {
                    let k = choose|k: int| 0 <= k < candidates.drop_first().len() && candidates.drop_first()[k] == c;
                    assert(candidates[k + 1] == c);
                } else {
                    assert(candidates[0] == c);
                }
            },
            None => {},
        }
    }
}

/// A failed node is left holding nothing: when no shard lists its primary
/// among its replicas, the repaired placement names the failed node neither
/// as primary nor as replica, and still keeps its primary out of its replicas.
pub proof fn lemma_repair_releases_failed_node(
    primary: Seq<char>,
    replicas: Seq<Seq<char>>,
    node: Seq<char>,
    nodes: Seq<NodeInfo>,
)
    requires
        !replicas.contains(primary),
        healthy_others(nodes, node).len() > 0,
    ensures
        ({
            let (p, r) = repaired(primary, replicas, node, healthy_others(nodes, node));
            p != node && !r.contains(node) && !r.contains(p)
        }),
{
    let hs = healthy_others(nodes, node);
    lemma_healthy_others_exclude(nodes, node);
    let (p1, r1) = if primary == node {
        if replicas.len() > 0 {
            (replicas[0], without(replicas, replicas[0]))
        } else {
            (hs[0], replicas)
        }
    } else {
        (primary, replicas)
    };
    if primary == node && replicas.len() > 0 {
        assert(replicas.contains(replicas[0]));
        lemma_without_excludes(replicas, replicas[0]);
    }
    assert(p1 != node);
    assert(!r1.contains(p1));
    let r2 = without(r1, node);
    lemma_without_excludes(r1, node);
    assert(!r2.contains(p1));
    lemma_first_candidate_is_fresh(hs, p1, r2);
    if r2.len() < 2 && r2.len() < hs.len() {
        match first_candidate(hs, p1, r2) {
            Some(c) => {
                let k = choose|k: int| 0 <= k < hs.len() && hs[k] == c;
                assert(hs[k] != node);
                assert forall|y: Seq<char>| #[trigger] r2.push(c).contains(y) implies r2.contains(y) || y == c by {
                    let j = choose|j: int| 0 <= j < r2.push(c).len() && r2.push(c)[j] == y;
                    if j < r2.len() {
                        assert(r2[j] == y);
                    }
                }
            },
            None => {},
        }
    }
}


/// Whether `x` is among the names in `v`.
pub fn contains_name(v: &Vec<NodeId>, x: &str) -> (b: bool)
    ensures
        b == node_names(v@).contains(x@),
{
    let ghost names = node_names(v@);
    let mut i: usize = 0;
    while i < v.len()
        invariant
            i <= v@.len(),
            names == node_names(v@),
            forall|j: int| 0 <= j < i ==> names[j] != x@,
        decreases v.len() - i,
    {
        if str_equal(v[i].as_str(), x) {
            assert(names[i as int] == x@);
            return true;
        }
        i = i + 1;
    }
    false
}

/// The names in `v` other than `x`, in order.
pub fn without_name(v: &Vec<NodeId>, x: &str) -> (r: Vec<NodeId>)
    ensures
        node_names(r@) == without(node_names(v@), x@),
{
    let ghost names = node_names(v@);
    let mut r: Vec<NodeId> = Vec::new();
    let mut i: usize = 0;
    while i < v.len()
        invariant
            i <= v@.len(),
            names == node_names(v@),
            node_names(r@) == without(names.subrange(0, i as int), x@),
        decreases v.len() - i,
    {
        proof {
            assert(names.subrange(0, i + 1).drop_last() =~= names.subrange(0, i as int));
        }
        if !str_equal(v[i].as_str(), x) {
            r.push(v[i].clone());
        }
        proof {
            assert(node_names(r@) =~= without(names.subrange(0, i + 1), x@));
        }
        i = i + 1;
    }
    proof {
        assert(names.subrange(0, v@.len() as int) =~= names);
    }
    r
}

/// The ids of the healthy nodes other than `node`, in order.
pub fn healthy_other_ids(nodes: &Vec<NodeInfo>, node: &str) -> (r: Vec<NodeId>)
    ensures
        node_names(r@) == healthy_others(nodes@, node@),
{
    let mut r: Vec<NodeId> = Vec::new();
    let mut i: usize = 0;
    while i < nodes.len()
        invariant
            i <= nodes@.len(),
            node_names(r@) == healthy_others(nodes@.subrange(0, i as int), node@),
        decreases nodes.len() - i,
    {
        proof {
            assert(nodes@.subrange(0, i + 1).drop_last() =~= nodes@.subrange(0, i as int));
        }
        if !str_equal(nodes[i].id.as_str(), node) && nodes[i].state == NodeState::Healthy {
            r.push(nodes[i].id.clone());
        }
        proof {
            assert(node_names(r@) =~= healthy_others(nodes@.subrange(0, i + 1), node@));
        }
        i = i + 1;
    }
    proof {
        assert(nodes@.subrange(0, nodes@.len() as int) =~= nodes@);
    }
    r
}

/// The position in `candidates` of the first one that is neither `primary`
/// nor among `replicas`.
fn first_candidate_index(candidates: &Vec<NodeId>, primary: &str, replicas: &Vec<NodeId>) -> (r: Option<usize>)
    ensures
        match r {
            Some(k) => k < candidates@.len() && first_candidate(
                node_names(candidates@),
                primary@,
                node_names(replicas@),
            ) == Some(node_names(candidates@)[k as int]),
            None => first_candidate(node_names(candidates@), primary@, node_names(replicas@)).is_none(),
        },
{
    let ghost names = node_names(candidates@);
    let ghost reps = node_names(replicas@);
    let mut i: usize = 0;
    assert(names.subrange(0, names.len() as int) =~= names);
    while i < candidates.len()
        invariant
            i <= candidates@.len(),
            names == node_names(candidates@),
            reps == node_names(replicas@),
            first_candidate(names, primary@, reps) == first_candidate(
                names.subrange(i as int, names.len() as int),
                primary@,
                reps,
            ),
        decreases candidates.len() - i,
    {
        let ghost rest = names.subrange(i as int, names.len() as int);
        proof {
            assert(rest.drop_first() =~= names.subrange(i + 1, names.len() as int));
            assert(rest[0] == names[i as int]);
        }
        if !str_equal(candidates[i].as_str(), primary) && !contains_name(replicas, candidates[i].as_str()) {
            return Some(i);
        }
        i = i + 1;
    }
    None
}

impl ClusterInfo {
    /// Repairs the shards after `node_id` failed: every shard that involves
    /// it gets the placement [`repaired`] describes, the healthy other nodes
    /// taken in their order; then the version rises. Without a healthy other
    /// node nothing changes and the repair fails.
    pub fn handle_node_failure(&mut self, node_id: &str) -> (r: Result<(), String>)
        requires
            old(self).version < u64::MAX,
        ensures
            r.is_err() == (healthy_others(old(self).nodes@, node_id@).len() == 0),
            r matches Err(e) ==> e@ == "没有健康的节点可用于重新分配分片"@,
            r.is_err() ==> final(self).shards@ == old(self).shards@ && final(self).version == old(self).version,
            r.is_ok() ==> final(self).version == old(self).version + 1,
            final(self).shards@.len() == old(self).shards@.len(),
            forall|i: int|
                0 <= i < final(self).shards@.len() ==> {
                    let a = old(self).shards@[i];
                    let b = #[trigger] final(self).shards@[i];
                    &&& b.id == a.id
                    &&& b.state == a.state
                    &&& b.range == a.range
                    &&& placement(b) == if r.is_ok() && involves(placement(a).0, placement(a).1, node_id@) {
                        repaired(placement(a).0, placement(a).1, node_id@, healthy_others(old(self).nodes@, node_id@))
                    } else {
                        placement(a)
                    }
                },
            final(self).nodes == old(self).nodes,
            final(self).leader_id == old(self).leader_id,
            final(self).shard_map_version == old(self).shard_map_version,
            final(self).stats == old(self).stats,
    {
        let healthy = healthy_other_ids(&self.nodes, node_id);
        if healthy.len() == 0 {
            proof { reveal_strlit("没有健康的节点可用于重新分配分片"); }
            return Err(String::from_str("没有健康的节点可用于重新分配分片"));
        }
        let ghost hs = node_names(healthy@);
        let ghost old_shards = self.shards@;
        let mut i: usize = 0;
        while i < self.shards.len()
            invariant
                i <= self.shards@.len(),
                self.shards@.len() == old_shards.len(),
                hs == node_names(healthy@),
                hs == healthy_others(old(self).nodes@, node_id@),
                hs.len() > 0,
                self.nodes == old(self).nodes,
                self.leader_id == old(self).leader_id,
                self.stats == old(self).stats,
                self.shard_map_version == old(self).shard_map_version,
                self.version == old(self).version,
                old_shards == old(self).shards@,
                forall|j: int|
                    0 <= j < self.shards@.len() ==> {
                        let a = old_shards[j];
                        let b = #[trigger] self.shards@[j];
                        &&& b.id == a.id
                        &&& b.state == a.state
                        &&& b.range == a.range
                        &&& placement(b) == if j < i && involves(placement(a).0, placement(a).1, node_id@) {
                            repaired(placement(a).0, placement(a).1, node_id@, hs)
                        } else {
                            placement(a)
                        }
                    },
            decreases self.shards.len() - i,
        {
            let is_primary = str_equal(self.shards[i].primary_node.as_str(), node_id);
            let in_replicas = contains_name(&self.shards[i].replica_nodes, node_id);
            if is_primary || in_replicas {
                let ghost p0 = self.shards@[i as int].primary_node@;
                let ghost r0 = node_names(self.shards@[i as int].replica_nodes@);
                let p1: NodeId;
                let mut r2: Vec<NodeId>;
                if is_primary && self.shards[i].replica_nodes.len() > 0 {
                    let first = self.shards[i].replica_nodes[0].clone();
                    let rest = without_name(&self.shards[i].replica_nodes, first.as_str());
                    r2 = without_name(&rest, node_id);
                    p1 = first;
                } else {
                    if is_primary {
                        p1 = healthy[0].clone();
                    } else {
                        p1 = self.shards[i].primary_node.clone();
                    }
                    r2 = without_name(&self.shards[i].replica_nodes, node_id);
                }
                if r2.len() < 2 && r2.len() < healthy.len() {
                    match first_candidate_index(&healthy, p1.as_str(), &r2) {
                        Some(k) => {
                            r2.push(healthy[k].clone());
                        },
                        None => {},
                    }
                }
                let id = self.shards[i].id;
                let state = self.shards[i].state;
                let range = self.shards[i].range;
                let ghost before = self.shards@;
                self.shards.set(i, ShardInfo { id, primary_node: p1, replica_nodes: r2, state, range });
                proof {
                    let (ep, er) = repaired(p0, r0, node_id@, hs);
                    assert(placement(self.shards@[i as int]).0 == ep);
                    assert(node_names(self.shards@[i as int].replica_nodes@) =~= er);
                }
            }
            i = i + 1;
        }
        self.version = self.version + 1;
        Ok(())
    }
}


/// The number of healthy nodes.
pub open spec fn healthy_count(nodes: Seq<NodeInfo>) -> nat
    decreases nodes.len(),
{
    if nodes.len() == 0 {
        0
    } else {
        healthy_count(nodes.drop_last()) + if nodes.last().state == NodeState::Healthy { 1nat } else { 0nat }
    }
}

/// The vectors held by all nodes.
pub open spec fn total_vectors(nodes: Seq<NodeInfo>) -> nat
    decreases nodes.len(),
{
    if nodes.len() == 0 {
        0
    } else {
        total_vectors(nodes.drop_last()) + nodes.last().counters.vector_count as nat
    }
}

/// The requests served by the healthy nodes.
pub open spec fn healthy_requests(nodes: Seq<NodeInfo>) -> nat
    decreases nodes.len(),
{
    if nodes.len() == 0 {
        0
    } else {
        healthy_requests(nodes.drop_last()) + if nodes.last().state == NodeState::Healthy {
            nodes.last().counters.request_count as nat
        } else {
            0nat
        }
    }
}

/// The counters of a cluster with `nodes` and `shard_count` shards: sizes
/// narrowed to 32 bits as they are stored, and means taken over the healthy
/// nodes.
pub open spec fn counts_of(nodes: Seq<NodeInfo>, shard_count: nat) -> ClusterCounts {
    let active = healthy_count(nodes) as u32;
    ClusterCounts {
        total_nodes: nodes.len() as u32,
        active_nodes: active,
        total_shards: shard_count as u32,
        total_vectors: total_vectors(nodes) as u64,
        avg_request_count: if active > 0 { (healthy_requests(nodes) / (active as nat)) as u64 } else { 0 },
        avg_vector_count: if active > 0 { (total_vectors(nodes) / (active as nat)) as u64 } else { 0 },
    }
}

impl ClusterInfo {
    /// Recomputes the counters from the nodes and shards.
    pub fn update_cluster_stats(&mut self)
        requires
            total_vectors(old(self).nodes@) <= u64::MAX,
            healthy_requests(old(self).nodes@) <= u64::MAX,
        ensures
            final(self).stats == counts_of(old(self).nodes@, old(self).shards@.len()),
            final(self).nodes == old(self).nodes,
            final(self).shards == old(self).shards,
            final(self).version == old(self).version,
            final(self).leader_id == old(self).leader_id,
    {
        let mut active: usize = 0;
        let mut vectors: u64 = 0;
        let mut requests: u64 = 0;
        let mut i: usize = 0;
        while i < self.nodes.len()
            invariant
                i <= self.nodes@.len(),
                total_vectors(self.nodes@) <= u64::MAX,
                healthy_requests(self.nodes@) <= u64::MAX,
                active == healthy_count(self.nodes@.subrange(0, i as int)),
                vectors == total_vectors(self.nodes@.subrange(0, i as int)),
                requests == healthy_requests(self.nodes@.subrange(0, i as int)),
                active <= i,
            decreases self.nodes.len() - i,
        {
            proof {
                assert(self.nodes@.subrange(0, i + 1).drop_last() =~= self.nodes@.subrange(0, i as int));
                lemma_prefix_sums_bounded(self.nodes@, i as int + 1);
            }
            vectors = vectors + self.nodes[i].counters.vector_count;
            if self.nodes[i].state == NodeState::Healthy {
                active = active + 1;
                requests = requests + self.nodes[i].counters.request_count;
            }
            i = i + 1;
        }
        proof {
            assert(self.nodes@.subrange(0, self.nodes@.len() as int) =~= self.nodes@);
        }
        let len = self.nodes.len();
        let shard_len = self.shards.len();
        #[verifier::truncate]
        let total_nodes = len as u32;
        #[verifier::truncate]
        let active_nodes = active as u32;
        #[verifier::truncate]
        let total_shards = shard_len as u32;
        let avg_request_count = if active_nodes > 0 { requests / (active_nodes as u64) } else { 0 };
        let avg_vector_count = if active_nodes > 0 { vectors / (active_nodes as u64) } else { 0 };
        self.stats = ClusterCounts {
            total_nodes,
            active_nodes,
            total_shards,
            total_vectors: vectors,
            avg_request_count,
            avg_vector_count,
        };
    }
}

proof fn lemma_prefix_sums_bounded(nodes: Seq<NodeInfo>, k: int)
    requires
        0 <= k <= nodes.len(),
    ensures
        total_vectors(nodes.subrange(0, k)) <= total_vectors(nodes),
        healthy_requests(nodes.subrange(0, k)) <= healthy_requests(nodes),
    decreases nodes.len(),
{
    if k < nodes.len() {
        assert(nodes.drop_last().subrange(0, k) =~= nodes.subrange(0, k));
        lemma_prefix_sums_bounded(nodes.drop_last(), k);
    } else {
        assert(nodes.subrange(0, k) =~= nodes);
    }
}


proof fn lemma_sums_after_update(nodes: Seq<NodeInfo>, k: int, x: NodeInfo)
    requires
        0 <= k < nodes.len(),
    ensures
        total_vectors(nodes.update(k, x)) + nodes[k].counters.vector_count == total_vectors(nodes)
            + x.counters.vector_count,
        healthy_requests(nodes.update(k, x)) <= healthy_requests(nodes) + x.counters.request_count,
    decreases nodes.len(),
{
    let u = nodes.update(k, x);
    if k < nodes.len() - 1 {
        assert(u.drop_last() =~= nodes.drop_last().update(k, x));
        lemma_sums_after_update(nodes.drop_last(), k, x);
    } else {
        assert(u.drop_last() =~= nodes.drop_last());
    }
}

proof fn lemma_sums_after_remove(nodes: Seq<NodeInfo>, k: int)
    requires
        0 <= k < nodes.len(),
    ensures
        total_vectors(nodes.remove(k)) <= total_vectors(nodes),
        healthy_requests(nodes.remove(k)) <= healthy_requests(nodes),
    decreases nodes.len(),
{
    if k < nodes.len() - 1 {
        assert(nodes.remove(k).drop_last() =~= nodes.drop_last().remove(k));
        lemma_sums_after_remove(nodes.drop_last(), k);
    } else {
        assert(nodes.remove(k) =~= nodes.drop_last());
    }
}

/// The test of [`timed_out`] at `now` with `timeout`.
pub open spec fn timed_out_at(now: i64, timeout: i64) -> spec_fn(NodeInfo) -> bool {
    |n: NodeInfo| timed_out(n, now, timeout)
}

/// Whether a node has missed its heartbeats at `now` (seconds): healthy, and
/// heard from longer than `timeout` ago.
pub open spec fn timed_out(n: NodeInfo, now: i64, timeout: i64) -> bool {
    n.state == NodeState::Healthy && now - (n.last_heartbeat as i64) > timeout
}

impl ClusterInfo {
    /// The position of the first node with id `node_id`.
    pub fn find_node(&self, node_id: &str) -> (r: Option<usize>)
        ensures
            r.is_none() ==> forall|j: int| 0 <= j < self.nodes@.len() ==> (#[trigger] self.nodes@[j]).id@ != node_id@,
            r matches Some(k) ==> k < self.nodes@.len() && self.nodes@[k as int].id@ == node_id@ && forall|j: int|
                0 <= j < k ==> (#[trigger] self.nodes@[j]).id@ != node_id@,
    {
        let mut i: usize = 0;
        while i < self.nodes.len()
            invariant
                i <= self.nodes@.len(),
                forall|j: int| 0 <= j < i ==> (#[trigger] self.nodes@[j]).id@ != node_id@,
            decreases self.nodes.len() - i,
        {
            if str_equal(self.nodes[i].id.as_str(), node_id) {
                return Some(i);
            }
            i = i + 1;
        }
        None
    }

    /// Adds `node` (replacing the node of the same id) unless the cluster
    /// already holds `max_nodes`; the version rises and the counters are
    /// recomputed.
    pub fn add_node(&mut self, node: NodeInfo, max_nodes: usize) -> (r: Result<(), String>)
        requires
            old(self).version < u64::MAX,
            total_vectors(old(self).nodes@) + node.counters.vector_count <= u64::MAX,
            healthy_requests(old(self).nodes@) + node.counters.request_count <= u64::MAX,
        ensures
            r.is_err() == (old(self).nodes@.len() >= max_nodes),
            r matches Err(e) ==> e@ == "集群已达到最大节点数量"@,
            r.is_err() ==> final(self).nodes == old(self).nodes && final(self).version == old(self).version
                && final(self).stats == old(self).stats,
            r.is_ok() ==> {
                ||| exists|k: int|
                    0 <= k < old(self).nodes@.len() && (#[trigger] old(self).nodes@[k]).id@ == node.id@ && (forall|j: int|
                        0 <= j < k ==> (#[trigger] old(self).nodes@[j]).id@ != node.id@) && final(self).nodes@
                        == old(self).nodes@.update(k, node)
                ||| (forall|j: int| 0 <= j < old(self).nodes@.len() ==> (#[trigger] old(self).nodes@[j]).id@ != node.id@)
                    && final(self).nodes@ == old(self).nodes@.push(node)
            },
            r.is_ok() ==> final(self).version == old(self).version + 1 && final(self).stats == counts_of(
                final(self).nodes@,
                final(self).shards@.len(),
            ),
            final(self).shards == old(self).shards,
            final(self).leader_id == old(self).leader_id,
    {
        if self.nodes.len() >= max_nodes {
            proof { reveal_strlit("集群已达到最大节点数量"); }
            return Err(String::from_str("集群已达到最大节点数量"));
        }
        let ghost before = self.nodes@;
        match self.find_node(node.id.as_str()) {
            Some(k) => {
                proof { lemma_sums_after_update(before, k as int, node); }
                self.nodes.set(k, node);
            },
            None => {
                self.nodes.push(node);
                proof {
                    assert(self.nodes@.drop_last() =~= before);
                }
            },
        }
        self.version = self.version + 1;
        self.update_cluster_stats();
        Ok(())
    }

    /// Sets the state of the node `node_id` and its last heartbeat to `now`
    /// (seconds, as stored); the version rises. An unknown node changes nothing.
    pub fn update_node_state_at(&mut self, node_id: &str, state: NodeState, now: i64)
        requires
            old(self).version < u64::MAX,
        ensures
            (forall|j: int| 0 <= j < old(self).nodes@.len() ==> (#[trigger] old(self).nodes@[j]).id@ != node_id@)
                ==> *final(self) == *old(self),
            final(self).nodes@.len() == old(self).nodes@.len(),
            forall|k: int|
                0 <= k < old(self).nodes@.len() && (#[trigger] old(self).nodes@[k]).id@ == node_id@ && (forall|j: int|
                    0 <= j < k ==> (#[trigger] old(self).nodes@[j]).id@ != node_id@) ==> {
                    &&& final(self).nodes@.len() == old(self).nodes@.len()
                    &&& forall|j: int| 0 <= j < old(self).nodes@.len() && j != k ==> final(self).nodes@[j]
                        == old(self).nodes@[j]
                    &&& final(self).nodes@[k].state == state
                    &&& final(self).nodes@[k].last_heartbeat == #[verifier::truncate] (now as u64)
                    &&& final(self).nodes@[k].id == old(self).nodes@[k].id
                    &&& final(self).nodes@[k].address == old(self).nodes@[k].address
                    &&& final(self).nodes@[k] == (NodeInfo {
                        state,
                        last_heartbeat: final(self).nodes@[k].last_heartbeat,
                        ..old(self).nodes@[k]
                    })
                    &&& final(self).version == old(self).version + 1
                },
            final(self).shards == old(self).shards,
            final(self).leader_id == old(self).leader_id,
            final(self).shard_map_version == old(self).shard_map_version,
            final(self).stats == old(self).stats,
    {
        match self.find_node(node_id) {
            Some(k) => {
                let mut n = self.nodes.remove(k);
                n.state = state;
                #[verifier::truncate]
                let stamp = now as u64;
                n.last_heartbeat = stamp;
                self.nodes.insert(k, n);
                self.version = self.version + 1;
            },
            None => {},
        }
    }

    /// Sets the state of the node `node_id` and its last heartbeat to now.
    pub fn update_node_state(&mut self, node_id: &str, state: NodeState)
        requires
            old(self).version < u64::MAX,
        ensures
            (forall|j: int| 0 <= j < old(self).nodes@.len() ==> (#[trigger] old(self).nodes@[j]).id@ != node_id@)
                ==> *final(self) == *old(self),
            final(self).nodes@.len() == old(self).nodes@.len(),
            forall|k: int|
                0 <= k < old(self).nodes@.len() && (#[trigger] old(self).nodes@[k]).id@ == node_id@ && (forall|j: int|
                    0 <= j < k ==> (#[trigger] old(self).nodes@[j]).id@ != node_id@) ==> {
                    &&& forall|j: int| 0 <= j < old(self).nodes@.len() && j != k ==> final(self).nodes@[j]
                        == old(self).nodes@[j]
                    &&& final(self).nodes@[k] == (NodeInfo {
                        state,
                        last_heartbeat: final(self).nodes@[k].last_heartbeat,
                        ..old(self).nodes@[k]
                    })
                    &&& final(self).version == old(self).version + 1
                },
            final(self).shards == old(self).shards,
            final(self).leader_id == old(self).leader_id,
            final(self).shard_map_version == old(self).shard_map_version,
            final(self).stats == old(self).stats,
    {
        let now = chrono_timestamp_now();
        self.update_node_state_at(node_id, state, now);
    }

    /// Marks as unhealthy the healthy nodes that missed their heartbeats at
    /// `now` (seconds) with a timeout of `timeout_secs`, and returns their ids.
    pub fn mark_timed_out_nodes(&mut self, now: i64, timeout_secs: u64) -> (failed: Vec<NodeId>)
        requires
            forall|k: int| 0 <= k < old(self).nodes@.len() ==> i64::MIN <= now - ((#[trigger] old(self).nodes@[k]).last_heartbeat as i64) <= i64::MAX,
        ensures
            final(self).nodes@.len() == old(self).nodes@.len(),
            forall|k: int|
                0 <= k < old(self).nodes@.len() ==> {
                    let a = old(self).nodes@[k];
                    let b = #[trigger] final(self).nodes@[k];
                    &&& b.state == (if timed_out(a, now, timeout_secs as i64) { NodeState::Unhealthy } else { a.state })
                    &&& b.id == a.id
                    &&& b.address == a.address
                    &&& b.last_heartbeat == a.last_heartbeat
                    &&& b.counters == a.counters
                },
            node_names(failed@) == node_ids(old(self).nodes@.filter(timed_out_at(now, timeout_secs as i64))),
            final(self).shards == old(self).shards,
            final(self).version == old(self).version,
            final(self).stats == old(self).stats,
    {
        #[verifier::truncate]
        let timeout = timeout_secs as i64;
        let ghost pred = timed_out_at(now, timeout_secs as i64);
        let ghost orig = self.nodes@;
        let mut failed: Vec<NodeId> = Vec::new();
        let mut i: usize = 0;
        while i < self.nodes.len()
            invariant
                i <= self.nodes@.len(),
                orig == old(self).nodes@,
                pred == timed_out_at(now, timeout_secs as i64),
                self.nodes@.len() == orig.len(),
                timeout == timeout_secs as i64,
                forall|k: int| 0 <= k < orig.len() ==> i64::MIN <= now - ((#[trigger] orig[k]).last_heartbeat as i64) <= i64::MAX,
                forall|k: int|
                    0 <= k < orig.len() ==> {
                        let a = orig[k];
                        let b = #[trigger] self.nodes@[k];
                        &&& b.state == (if k < i && timed_out(a, now, timeout_secs as i64) {
                            NodeState::Unhealthy
                        } else {
                            a.state
                        })
                        &&& b.id == a.id
                        &&& b.address == a.address
                        &&& b.last_heartbeat == a.last_heartbeat
                        &&& b.counters == a.counters
                    },
                node_names(failed@) == node_ids(orig.subrange(0, i as int).filter(pred)),
                self.shards == old(self).shards,
                self.version == old(self).version,
                self.stats == old(self).stats,
            decreases self.nodes.len() - i,
        {
            let ghost f0 = orig.subrange(0, i as int).filter(pred);
            let ghost names0 = node_names(failed@);
            proof {
                assert(orig.subrange(0, i + 1) =~= orig.subrange(0, i as int).push(orig[i as int]));
                orig.subrange(0, i as int).lemma_filter_push(orig[i as int], pred);
            }
            let hb = self.nodes[i].last_heartbeat;
            #[verifier::truncate]
            let hb_signed = hb as i64;
            let late = self.nodes[i].state == NodeState::Healthy && now - hb_signed > timeout;
            proof {
                assert(self.nodes@[i as int].state == orig[i as int].state);
                assert(hb == orig[i as int].last_heartbeat);
                assert(late == pred(orig[i as int]));
            }
            if late {
                let mut n = self.nodes.remove(i);
                n.state = NodeState::Unhealthy;
                failed.push(n.id.clone());
                self.nodes.insert(i, n);
                proof {
                    assert(node_names(failed@) =~= names0.push(orig[i as int].id@));
                    assert(node_ids(f0.push(orig[i as int])) =~= node_ids(f0).push(orig[i as int].id@));
                }
            }
            i = i + 1;
        }
        proof {
            assert(orig.subrange(0, orig.len() as int) =~= orig);
        }
        failed
    }

    /// The monitoring round at `now` (seconds): nodes that missed their
    /// heartbeats become unhealthy, the shards of each are repaired in turn
    /// (the first repair that finds no healthy node ends the round with its
    /// error), and the counters are recomputed.
    pub fn monitor_cluster_health_at(&mut self, now: i64, timeout_secs: u64) -> (r: Result<(), String>)
        requires
            forall|k: int| 0 <= k < old(self).nodes@.len() ==> i64::MIN <= now - ((#[trigger] old(self).nodes@[k]).last_heartbeat as i64) <= i64::MAX,
            old(self).version + old(self).nodes@.len() < u64::MAX,
            total_vectors(old(self).nodes@) <= u64::MAX,
            healthy_requests(old(self).nodes@) <= u64::MAX,
        ensures
            final(self).nodes@.len() == old(self).nodes@.len(),
            forall|k: int|
                0 <= k < old(self).nodes@.len() ==> (#[trigger] final(self).nodes@[k]).state == (if timed_out(
                    old(self).nodes@[k],
                    now,
                    timeout_secs as i64,
                ) {
                    NodeState::Unhealthy
                } else {
                    old(self).nodes@[k].state
                }),
            r.is_ok() ==> final(self).stats == counts_of(final(self).nodes@, final(self).shards@.len()),
            ({
                let round = repair_round(
                    placements(old(self).shards@),
                    node_ids(old(self).nodes@.filter(timed_out_at(now, timeout_secs as i64))),
                    final(self).nodes@,
                );
                &&& placements(final(self).shards@) == round.0
                &&& r.is_ok() == round.1
            }),
            r matches Err(e) ==> e@ == "没有健康的节点可用于重新分配分片"@,
    {
        let failed = self.mark_timed_out_nodes(now, timeout_secs);
        proof {
            old(self).nodes@.lemma_filter_len(timed_out_at(now, timeout_secs as i64));
            assert(node_names(failed@).len() == failed@.len());
            lemma_marking_keeps_sums(old(self).nodes@, self.nodes@);
        }
        let ghost marked = self.nodes;
        assert(node_names(failed@).subrange(0, failed@.len() as int) =~= node_names(failed@));
        let mut i: usize = 0;
        while i < failed.len()
            invariant
                i <= failed@.len(),
                failed@.len() <= old(self).nodes@.len(),
                self.nodes == marked,
                marked@.len() == old(self).nodes@.len(),
                forall|k: int|
                    0 <= k < old(self).nodes@.len() ==> (#[trigger] marked@[k]).state == (if timed_out(
                        old(self).nodes@[k],
                        now,
                        timeout_secs as i64,
                    ) {
                        NodeState::Unhealthy
                    } else {
                        old(self).nodes@[k].state
                    }),
                total_vectors(marked@) <= u64::MAX,
                healthy_requests(marked@) <= u64::MAX,
                self.version <= old(self).version + i,
                old(self).version + old(self).nodes@.len() < u64::MAX,
                repair_round(placements(self.shards@), node_names(failed@).subrange(i as int, failed@.len() as int), marked@)
                    == repair_round(placements(old(self).shards@), node_names(failed@), marked@),
                node_names(failed@) == node_ids(old(self).nodes@.filter(timed_out_at(now, timeout_secs as i64))),
            decreases failed.len() - i,
        {
            let ghost names = node_names(failed@);
            let ghost p0 = placements(self.shards@);
            let ghost rest = names.subrange(i as int, names.len() as int);
            assert(rest.drop_first() =~= names.subrange(i + 1, names.len() as int));
            assert(rest[0] == failed@[i as int]@);
            match self.handle_node_failure(failed[i].as_str()) {
                Ok(()) => {
                    proof {
                        let h = healthy_others(marked@, failed@[i as int]@);
                        assert(placements(self.shards@) =~= repair_step(p0, failed@[i as int]@, h)) by {
                            assert forall|k: int| 0 <= k < placements(self.shards@).len() implies #[trigger] placements(self.shards@)[k]
                                == repair_step(p0, failed@[i as int]@, h)[k] by {
                                assert(placements(self.shards@)[k] == placement(self.shards@[k]));
                            }
                        }
                    }
                },
                Err(e) => {
                    proof {
                        assert(healthy_others(marked@, rest[0]).len() == 0);
                        assert(repair_round(placements(self.shards@), rest, marked@) == (placements(self.shards@), false));
                    }
                    return Err(e);
                },
            }
            i = i + 1;
        }
        assert(node_names(failed@).subrange(i as int, failed@.len() as int) =~= Seq::<Seq<char>>::empty());
        self.update_cluster_stats();
        Ok(())
    }
}

/// The placements after `node` failed, with `healthy` the healthy other
/// nodes: the shards that involve it are repaired (see [`repaired`]).
pub open spec fn repair_step(
    ps: Seq<(Seq<char>, Seq<Seq<char>>)>,
    node: Seq<char>,
    healthy: Seq<Seq<char>>,
) -> Seq<(Seq<char>, Seq<Seq<char>>)> {
    ps.map_values(
        |p: (Seq<char>, Seq<Seq<char>>)|
            if involves(p.0, p.1, node) {
                repaired(p.0, p.1, node, healthy)
            } else {
                p
            },
    )
}

/// The placements after the nodes `failed` failed one after the other
/// among `nodes`, and whether every repair found a healthy node: the round
/// stops at the first failed node with no healthy other node.
pub open spec fn repair_round(
    ps: Seq<(Seq<char>, Seq<Seq<char>>)>,
    failed: Seq<Seq<char>>,
    nodes: Seq<NodeInfo>,
) -> (Seq<(Seq<char>, Seq<Seq<char>>)>, bool)
    decreases failed.len(),
{
    if failed.len() == 0 {
        (ps, true)
    } else if healthy_others(nodes, failed[0]).len() == 0 {
        (ps, false)
    } else {
        repair_round(repair_step(ps, failed[0], healthy_others(nodes, failed[0])), failed.drop_first(), nodes)
    }
}

proof fn lemma_marking_keeps_sums(a: Seq<NodeInfo>, b: Seq<NodeInfo>)
    requires
        a.len() == b.len(),
        forall|k: int| 0 <= k < a.len() ==> (#[trigger] b[k]).counters == a[k].counters,
        forall|k: int| 0 <= k < a.len() ==> (#[trigger] b[k]).state == NodeState::Healthy ==> a[k].state == NodeState::Healthy,
    ensures
        total_vectors(b) == total_vectors(a),
        healthy_requests(b) <= healthy_requests(a),
    decreases a.len(),
{
    if a.len() > 0 {
        lemma_marking_keeps_sums(a.drop_last(), b.drop_last());
    }
}


/// The replicas of a shard after topping them up to `target` from `healthy`
/// in turn from position `idx` (round robin), with the position reached: each
/// turn takes the node at `idx` if it is neither the primary nor a replica,
/// and the filling stops once the position passes twice the healthy count.
pub open spec fn refill(
    primary: Seq<char>,
    replicas: Seq<Seq<char>>,
    healthy: Seq<Seq<char>>,
    idx: nat,
    target: nat,
) -> (Seq<Seq<char>>, nat)
    decreases target - replicas.len(), 2 * healthy.len() + 1 - idx,
{
    if replicas.len() >= target || healthy.len() == 0 {
        (replicas, idx)
    } else {
        let c = healthy[(idx % healthy.len()) as int];
        let r = if c != primary && !replicas.contains(c) { replicas.push(c) } else { replicas };
        let next = idx + 1;
        if next > 2 * healthy.len() {
            (r, next)
        } else {
            refill(primary, r, healthy, next, target)
        }
    }
}

/// The replicas a shard should keep with `n` healthy nodes: two, or one fewer
/// than there are healthy nodes.
pub open spec fn replica_target(n: nat) -> nat {
    if n == 0 {
        0
    } else if n - 1 < 2 {
        (n - 1) as nat
    } else {
        2
    }
}

/// The placement of a shard after `node` left, assigning round robin from
/// position `idx` over the healthy nodes: a departed primary is replaced by
/// the node at the position, the departed node leaves the replicas, and the
/// replicas are topped up; with the position reached.
pub open spec fn rebalanced(
    primary: Seq<char>,
    replicas: Seq<Seq<char>>,
    node: Seq<char>,
    healthy: Seq<Seq<char>>,
    idx: nat,
) -> (Seq<char>, Seq<Seq<char>>, nat) {
    let (p1, idx1) = if primary == node {
        (healthy[(idx % healthy.len()) as int], idx + 1)
    } else {
        (primary, idx)
    };
    let r1 = without(replicas, node);
    let (r2, idx2) = refill(p1, r1, healthy, idx1, replica_target(healthy.len()));
    (p1, r2, idx2)
}

/// The placements of the shards after `node` left, in order, the round-robin
/// position carried from one shard to the next.
pub open spec fn rebalance_all(
    ps: Seq<(Seq<char>, Seq<Seq<char>>)>,
    node: Seq<char>,
    healthy: Seq<Seq<char>>,
    idx: nat,
) -> Seq<(Seq<char>, Seq<Seq<char>>)>
    decreases ps.len(),
{
    if ps.len() == 0 {
        Seq::empty()
    } else {
        let (p, r) = ps[0];
        if involves(p, r, node) {
            let (p1, r1, idx1) = rebalanced(p, r, node, healthy, idx);
            seq![(p1, r1)] + rebalance_all(ps.drop_first(), node, healthy, idx1)
        } else {
            seq![(p, r)] + rebalance_all(ps.drop_first(), node, healthy, idx)
        }
    }
}

/// The placements of the shards.
pub open spec fn placements(shards: Seq<ShardInfo>) -> Seq<(Seq<char>, Seq<Seq<char>>)> {
    shards.map_values(|s: ShardInfo| placement(s))
}

/// Whether some shard involves `node`.
pub open spec fn any_involves(shards: Seq<ShardInfo>, node: Seq<char>) -> bool {
    exists|i: int| 0 <= i < shards.len() && involves(placement(#[trigger] shards[i]).0, placement(shards[i]).1, node)
}

proof fn lemma_refill_bounds(primary: Seq<char>, replicas: Seq<Seq<char>>, healthy: Seq<Seq<char>>, idx: nat, target: nat)
    ensures
        refill(primary, replicas, healthy, idx, target).1 <= if idx > 2 * healthy.len() {
            idx + 1
        } else {
            2 * healthy.len() + 1
        },
        refill(primary, replicas, healthy, idx, target).1 >= idx,
    decreases target - replicas.len(), 2 * healthy.len() + 1 - idx,
{
    if replicas.len() >= target || healthy.len() == 0 {
    } else {
        let c = healthy[(idx % healthy.len()) as int];
        let r = if c != primary && !replicas.contains(c) { replicas.push(c) } else { replicas };
        let next = idx + 1;
        if next <= 2 * healthy.len() {
            lemma_refill_bounds(primary, r, healthy, next, target);
        }
    }
}

/// Tops up `replicas` as [`refill`] describes and returns the position reached.
fn refill_replicas(
    primary: &str,
    replicas: &mut Vec<NodeId>,
    healthy: &Vec<NodeId>,
    idx: usize,
    target: usize,
) -> (next: usize)
    requires
        healthy@.len() > 0,
        2 * healthy@.len() + 2 <= usize::MAX,
        idx < usize::MAX,
    ensures
        (node_names(final(replicas)@), next as nat) == refill(
            primary@,
            node_names(old(replicas)@),
            node_names(healthy@),
            idx as nat,
            target as nat,
        ),
    decreases target - old(replicas)@.len(), 2 * healthy@.len() + 1 - idx,
{
    if replicas.len() >= target {
        return idx;
    }
    let n = healthy.len();
    let c = &healthy[idx % n];
    proof {
        assert(node_names(healthy@)[(idx % n) as int] == c@);
    }
    if !str_equal(c.as_str(), primary) && !contains_name(replicas, c.as_str()) {
        replicas.push(c.clone());
        proof {
            assert(node_names(replicas@) =~= node_names(old(replicas)@).push(c@));
        }
    }
    let next = idx + 1;
    if next > 2 * n {
        next
    } else {
        refill_replicas(primary, replicas, healthy, next, target)
    }
}

impl ClusterInfo {
    /// Reassigns the shards of `node_id` after it left: each shard that
    /// involves it gets the placement [`rebalance_all`] describes, round robin
    /// over the healthy other nodes from the first. With no shard involving it
    /// nothing is done; with shards to reassign and no healthy node it fails.
    pub fn rebalance_shards_after_node_removal(&mut self, node_id: &str) -> (r: Result<(), String>)
        requires
            old(self).nodes@.len() <= usize::MAX / 8,
            old(self).shards@.len() <= usize::MAX / 8,
        ensures
            r.is_err() == (any_involves(old(self).shards@, node_id@) && healthy_others(old(self).nodes@, node_id@).len()
                == 0),
            r matches Err(e) ==> e@ == "没有健康的节点可用于重新平衡分片"@,
            r.is_err() ==> final(self).shards@ == old(self).shards@,
            r.is_ok() ==> placements(final(self).shards@) == rebalance_all(
                placements(old(self).shards@),
                node_id@,
                healthy_others(old(self).nodes@, node_id@),
                0,
            ),
            final(self).shards@.len() == old(self).shards@.len(),
            forall|i: int|
                0 <= i < final(self).shards@.len() ==> (#[trigger] final(self).shards@[i]).id == old(self).shards@[i].id
                    && final(self).shards@[i].state == old(self).shards@[i].state && final(self).shards@[i].range
                    == old(self).shards@[i].range,
            final(self).nodes == old(self).nodes,
            final(self).version == old(self).version,
            final(self).stats == old(self).stats,
    {
        let mut any = false;
        let mut k: usize = 0;
        while k < self.shards.len()
            invariant
                k <= self.shards@.len(),
                any == exists|i: int| 0 <= i < k && involves(
                    placement(#[trigger] self.shards@[i]).0,
                    placement(self.shards@[i]).1,
                    node_id@,
                ),
            decreases self.shards.len() - k,
        {
            if str_equal(self.shards[k].primary_node.as_str(), node_id) || contains_name(&self.shards[k].replica_nodes, node_id) {
                any = true;
            }
            k = k + 1;
        }
        let ghost ps = placements(self.shards@);
        if !any {
            proof {
                assert(ps == rebalance_all(ps, node_id@, healthy_others(self.nodes@, node_id@), 0)) by {
                    lemma_rebalance_untouched(ps, node_id@, healthy_others(self.nodes@, node_id@), 0);
                }
            }
            return Ok(());
        }
        let healthy = healthy_other_ids(&self.nodes, node_id);
        if healthy.len() == 0 {
            proof { reveal_strlit("没有健康的节点可用于重新平衡分片"); }
            return Err(String::from_str("没有健康的节点可用于重新平衡分片"));
        }
        let ghost hs = node_names(healthy@);
        proof {
            lemma_healthy_len(self.nodes@, node_id@);
        }
        let n = healthy.len();
        let target: usize = if n - 1 < 2 { n - 1 } else { 2 };
        let mut node_index: usize = 0;
        let mut i: usize = 0;
        assert(ps.subrange(0, ps.len() as int) =~= ps);
        assert(placements(self.shards@).subrange(0, 0) =~= Seq::<(Seq<char>, Seq<Seq<char>>)>::empty());
        while i < self.shards.len()
            invariant
                i <= self.shards@.len(),
                self.shards@.len() == ps.len(),
                ps == placements(old(self).shards@),
                hs == node_names(healthy@),
                hs == healthy_others(old(self).nodes@, node_id@),
                n == hs.len(),
                0 < n <= usize::MAX / 8,
                old(self).shards@.len() <= usize::MAX / 8,
                target == replica_target(n as nat),
                node_index <= 2 * n + 2 + 2 * i,
                rebalance_all(ps, node_id@, hs, 0) == placements(self.shards@).subrange(0, i as int) + rebalance_all(
                    ps.subrange(i as int, ps.len() as int),
                    node_id@,
                    hs,
                    node_index as nat,
                ),
                forall|j: int| i <= j < self.shards@.len() ==> #[trigger] self.shards@[j] == old(self).shards@[j],
                forall|j: int|
                    0 <= j < self.shards@.len() ==> (#[trigger] self.shards@[j]).id == old(self).shards@[j].id
                        && self.shards@[j].state == old(self).shards@[j].state && self.shards@[j].range
                        == old(self).shards@[j].range,
                self.nodes == old(self).nodes,
                self.version == old(self).version,
                self.stats == old(self).stats,
            decreases self.shards.len() - i,
        {
            let ghost rest = ps.subrange(i as int, ps.len() as int);
            let ghost done = placements(self.shards@).subrange(0, i as int);
            proof {
                assert(rest.drop_first() =~= ps.subrange(i + 1, ps.len() as int));
                assert(rest[0] == placement(self.shards@[i as int]));
            }
            let is_primary = str_equal(self.shards[i].primary_node.as_str(), node_id);
            if is_primary || contains_name(&self.shards[i].replica_nodes, node_id) {
                let p1: NodeId;
                let idx1: usize;
                if is_primary {
                    p1 = healthy[node_index % n].clone();
                    idx1 = node_index + 1;
                    proof {
                        assert(hs[(node_index % n) as int] == p1@);
                    }
                } else {
                    p1 = self.shards[i].primary_node.clone();
                    idx1 = node_index;
                }
                let mut reps = without_name(&self.shards[i].replica_nodes, node_id);
                let idx2 = refill_replicas(p1.as_str(), &mut reps, &healthy, idx1, target);
                proof {
                    lemma_refill_bounds(p1@, without(placement(self.shards@[i as int]).1, node_id@), hs, idx1 as nat, target as nat);
                }
                let id = self.shards[i].id;
                let state = self.shards[i].state;
                let range = self.shards[i].range;
                self.shards.set(i, ShardInfo { id, primary_node: p1, replica_nodes: reps, state, range });
                node_index = idx2;
                proof {
                    assert(placements(self.shards@).subrange(0, i + 1) =~= done.push(placement(self.shards@[i as int])));
                }
            } else {
                proof {
                    assert(placements(self.shards@).subrange(0, i + 1) =~= done.push(placement(self.shards@[i as int])));
                }
            }
            i = i + 1;
        }
        proof {
            assert(placements(self.shards@).subrange(0, i as int) =~= placements(self.shards@));
            assert(ps.subrange(i as int, ps.len() as int) =~= Seq::<(Seq<char>, Seq<Seq<char>>)>::empty());
            assert(rebalance_all(ps, node_id@, hs, 0) =~= placements(self.shards@));
            assert(any_involves(old(self).shards@, node_id@));
        }
        Ok(())
    }

    /// Removes the node `node_id` if it is there: the version rises, the
    /// counters are recomputed and its shards are reassigned (see
    /// [`Self::rebalance_shards_after_node_removal`], whose failure this passes on).
    pub fn remove_node(&mut self, node_id: &str) -> (r: Result<(), String>)
        requires
            old(self).version < u64::MAX,
            total_vectors(old(self).nodes@) <= u64::MAX,
            healthy_requests(old(self).nodes@) <= u64::MAX,
            old(self).nodes@.len() <= usize::MAX / 8,
            old(self).shards@.len() <= usize::MAX / 8,
        ensures
            (forall|j: int| 0 <= j < old(self).nodes@.len() ==> (#[trigger] old(self).nodes@[j]).id@ != node_id@)
                ==> r.is_ok() && final(self).nodes == old(self).nodes && final(self).shards == old(self).shards
                && final(self).version == old(self).version,
            forall|k: int|
                0 <= k < old(self).nodes@.len() && (#[trigger] old(self).nodes@[k]).id@ == node_id@ && (forall|j: int|
                    0 <= j < k ==> (#[trigger] old(self).nodes@[j]).id@ != node_id@) ==> {
                    &&& final(self).nodes@ == old(self).nodes@.remove(k)
                    &&& final(self).version == old(self).version + 1
                    &&& final(self).stats == counts_of(final(self).nodes@, old(self).shards@.len())
                    &&& r.is_err() == (any_involves(old(self).shards@, node_id@) && healthy_others(
                        final(self).nodes@,
                        node_id@,
                    ).len() == 0)
                    &&& r.is_ok() ==> placements(final(self).shards@) == rebalance_all(
                        placements(old(self).shards@),
                        node_id@,
                        healthy_others(final(self).nodes@, node_id@),
                        0,
                    )
                },
    {
        match self.find_node(node_id) {
            None => Ok(()),
            Some(k) => {
                proof { lemma_sums_after_remove(self.nodes@, k as int); }
                self.nodes.remove(k);
                self.version = self.version + 1;
                self.update_cluster_stats();
                self.rebalance_shards_after_node_removal(node_id)
            },
        }
    }
}

proof fn lemma_rebalance_untouched(
    ps: Seq<(Seq<char>, Seq<Seq<char>>)>,
    node: Seq<char>,
    healthy: Seq<Seq<char>>,
    idx: nat,
)
    requires
        forall|i: int| 0 <= i < ps.len() ==> !involves((#[trigger] ps[i]).0, ps[i].1, node),
    ensures
        rebalance_all(ps, node, healthy, idx) == ps,
    decreases ps.len(),
{
    if ps.len() > 0 {
        assert(!involves(ps[0].0, ps[0].1, node));
        lemma_rebalance_untouched(ps.drop_first(), node, healthy, idx);
        assert(seq![ps[0]] + ps.drop_first() =~= ps);
    }
}

proof fn lemma_healthy_len(nodes: Seq<NodeInfo>, node: Seq<char>)
    ensures
        healthy_others(nodes, node).len() <= nodes.len(),
    decreases nodes.len(),
{
    if nodes.len() > 0 {
        lemma_healthy_len(nodes.drop_last(), node);
    }
}

} // verus!
