//! The shard manager's bookkeeping: the health verdict of a local shard,
//! its statistics as data comes and goes, which shards a node leads, how
//! the primaries are spread, and the migrations that move shards from
//! overloaded nodes to underloaded ones.

use crate::distributed::cluster::contains_name;
use crate::distributed::shard::{node_names, ShardConfig, ShardMigration};
use crate::text::{concat, decimal, str_equal, with_decimal};
use crate::types::{NodeId, ShardInfo};
use vstd::prelude::*;

verus! {

/// The statistics of a local shard. Rates are whole requests per second
/// and the latency is in microseconds.
#[derive(Debug, Clone, Copy, PartialEq, Eq, Structural)]
pub struct ShardLoad {
    pub vector_count: u64,
    /// Bytes.
    pub storage_size: u64,
    pub read_qps: i64,
    pub write_qps: i64,
    pub avg_latency_us: u64,
    /// Seconds since the Unix epoch.
    pub last_updated: i64,
}

/// The health of a local shard.
#[derive(Debug)]
pub struct ShardHealthStatus {
    pub shard_id: u32,
    pub is_healthy: bool,
    /// Seconds since the Unix epoch.
    pub last_check: i64,
    pub issues: Vec<String>,
    /// Named measurements: vectors, bytes, read and write rates, and the
    /// latency in whole milliseconds.
    pub metrics: Vec<(String, i128)>,
}

/// The latency above which a shard is too slow: 100 ms.
pub open spec fn latency_limit_us() -> u64 {
    100_000
}

/// The problems of a shard with `load` under `config`, in the order they
/// are checked: too much storage, too many vectors, too slow.
pub open spec fn shard_issues(load: ShardLoad, config: ShardConfig) -> Seq<Seq<char>> {
    let a: Seq<Seq<char>> = if load.storage_size > config.max_shard_size_bytes {
        seq!["分片存储超出限制"@]
    } else {
        Seq::empty()
    };
    let b = if load.vector_count > config.max_vectors_per_shard { a.push("分片向量数量超出限制"@) } else { a };
    if load.avg_latency_us > latency_limit_us() { b.push("分片平均延迟过高"@) } else { b }
}

/// The health of shard `shard_id` with `load` under `config`, checked at
/// `now`: healthy when it has none of the problems of [`shard_issues`];
/// its measurements are its vectors, bytes, rates and latency (in whole
/// milliseconds).
pub fn shard_health(shard_id: u32, load: &ShardLoad, config: &ShardConfig, now: i64) -> (h: ShardHealthStatus)
    ensures
        h.shard_id == shard_id,
        h.last_check == now,
        crate::filtering::views(h.issues@) == shard_issues(*load, *config),
        h.is_healthy == (shard_issues(*load, *config).len() == 0),
        h.metrics@.len() == 5,
        h.metrics@[0].0@ == "vector_count"@ && h.metrics@[0].1 == load.vector_count,
        h.metrics@[1].0@ == "storage_size"@ && h.metrics@[1].1 == load.storage_size,
        h.metrics@[2].0@ == "read_qps"@ && h.metrics@[2].1 == load.read_qps,
        h.metrics@[3].0@ == "write_qps"@ && h.metrics@[3].1 == load.write_qps,
        h.metrics@[4].0@ == "avg_latency_ms"@ && h.metrics@[4].1 == load.avg_latency_us / 1000,
{
    let mut issues: Vec<String> = Vec::new();
    let mut healthy = true;
    if load.storage_size > config.max_shard_size_bytes {
        healthy = false;
        issues.push(String::from_str("分片存储超出限制"));
    }
    if load.vector_count > config.max_vectors_per_shard {
        healthy = false;
        issues.push(String::from_str("分片向量数量超出限制"));
    }
    if load.avg_latency_us > 100_000 {
        healthy = false;
        issues.push(String::from_str("分片平均延迟过高"));
    }
    assert(crate::filtering::views(issues@) =~= shard_issues(*load, *config));
    let mut metrics: Vec<(String, i128)> = Vec::new();
    metrics.push((String::from_str("vector_count"), load.vector_count as i128));
    metrics.push((String::from_str("storage_size"), load.storage_size as i128));
    metrics.push((String::from_str("read_qps"), load.read_qps as i128));
    metrics.push((String::from_str("write_qps"), load.write_qps as i128));
    metrics.push((String::from_str("avg_latency_ms"), (load.avg_latency_us / 1000) as i128));
    ShardHealthStatus { shard_id, is_healthy: healthy, last_check: now, issues, metrics }
}

/// `x + delta`, or 0 when that is negative.
pub open spec fn moved_count(x: u64, delta: i64) -> int {
    if x + delta < 0 {
        0
    } else {
        x + delta
    }
}

/// Adds `vector_delta` vectors and `size_delta` bytes to the statistics of
/// a shard, neither going below 0, stamped at `now`.
pub fn apply_stats_delta(load: &mut ShardLoad, vector_delta: i64, size_delta: i64, now: i64)
    requires
        old(load).vector_count + vector_delta <= i64::MAX,
        old(load).storage_size + size_delta <= i64::MAX,
        old(load).vector_count <= i64::MAX,
        old(load).storage_size <= i64::MAX,
    ensures
        final(load).vector_count == moved_count(old(load).vector_count, vector_delta),
        final(load).storage_size == moved_count(old(load).storage_size, size_delta),
        final(load).last_updated == now,
        final(load).read_qps == old(load).read_qps,
        final(load).write_qps == old(load).write_qps,
        final(load).avg_latency_us == old(load).avg_latency_us,
{
    let v: i128 = load.vector_count as i128 + vector_delta as i128;
    let s: i128 = load.storage_size as i128 + size_delta as i128;
    load.vector_count = if v < 0 { 0 } else { v as u64 };
    load.storage_size = if s < 0 { 0 } else { s as u64 };
    load.last_updated = now;
}

/// The size assumed for a shard: its own when it is local, else 1 MiB.
pub fn estimated_shard_size(local_size: Option<u64>) -> (s: u64)
    ensures
        s == match local_size {
            Some(x) => x,
            None => 1048576u64,
        },
{
    match local_size {
        Some(x) => x,
        None => 1024 * 1024,
    }
}

/// The shards of `shards` whose primary is `node`, in order.
pub open spec fn led_by(shards: Seq<ShardInfo>, node: Seq<char>) -> Seq<u32>
    decreases shards.len(),
{
    if shards.len() == 0 {
        Seq::empty()
    } else if shards.last().primary_node@ == node {
        led_by(shards.drop_last(), node).push(shards.last().id)
    } else {
        led_by(shards.drop_last(), node)
    }
}

/// The shards that `node` leads, in the order of `shards`.
pub fn get_node_shards(shards: &Vec<ShardInfo>, node: &str) -> (r: Vec<u32>)
    ensures
        r@ == led_by(shards@, node@),
{
    let mut r: Vec<u32> = Vec::new();
    let mut i: usize = 0;
    while i < shards.len()
        invariant
            i <= shards@.len(),
            r@ == led_by(shards@.subrange(0, i as int), node@),
        decreases shards.len() - i,
    {
        assert(shards@.subrange(0, i + 1).drop_last() =~= shards@.subrange(0, i as int));
        if str_equal(shards[i].primary_node.as_str(), node) {
            r.push(shards[i].id);
        }
        i = i + 1;
    }
    assert(shards@.subrange(0, shards@.len() as int) =~= shards@);
    r
}

/// The shards of `shards` that `node` holds, as primary or as a replica,
/// in order.
pub open spec fn held_by(shards: Seq<ShardInfo>, node: Seq<char>) -> Seq<u32>
    decreases shards.len(),
{
    if shards.len() == 0 {
        Seq::empty()
    } else if shards.last().primary_node@ == node || node_names(shards.last().replica_nodes@).contains(node) {
        held_by(shards.drop_last(), node).push(shards.last().id)
    } else {
        held_by(shards.drop_last(), node)
    }
}

/// The shards to open locally on `node`: those it holds as primary or as a
/// replica, in the order of `shards`.
pub fn local_shard_ids(shards: &Vec<ShardInfo>, node: &str) -> (r: Vec<u32>)
    ensures
        r@ == held_by(shards@, node@),
{
    let mut r: Vec<u32> = Vec::new();
    let mut i: usize = 0;
    while i < shards.len()
        invariant
            i <= shards@.len(),
            r@ == held_by(shards@.subrange(0, i as int), node@),
        decreases shards.len() - i,
    {
        assert(shards@.subrange(0, i + 1).drop_last() =~= shards@.subrange(0, i as int));
        if str_equal(shards[i].primary_node.as_str(), node) || contains_name(&shards[i].replica_nodes, node) {
            r.push(shards[i].id);
        }
        i = i + 1;
    }
    assert(shards@.subrange(0, shards@.len() as int) =~= shards@);
    r
}

/// The number of shards of `shards` whose primary is `node`.
pub open spec fn lead_count(shards: Seq<ShardInfo>, node: Seq<char>) -> nat {
    led_by(shards, node).len()
}

/// Whether `dist` counts, for each node that leads a shard of `shards` and
/// for no other, how many shards it leads, each node once.
pub open spec fn is_distribution(dist: Seq<(NodeId, u32)>, shards: Seq<ShardInfo>) -> bool {
    &&& forall|i: int| 0 <= i < dist.len() ==> (#[trigger] dist[i]).1 == lead_count(shards, dist[i].0@) && dist[i].1 > 0
    &&& forall|i: int, j: int| 0 <= i < j < dist.len() ==> (#[trigger] dist[i]).0@ != (#[trigger] dist[j]).0@
    &&& forall|k: int|
        0 <= k < shards.len() ==> exists|i: int| 0 <= i < dist.len() && (#[trigger] dist[i]).0@ == (
        #[trigger] shards[k]).primary_node@
}

proof fn lemma_led_by_push(shards: Seq<ShardInfo>, s: ShardInfo, node: Seq<char>)
    ensures
        lead_count(shards.push(s), node) == lead_count(shards, node) + if s.primary_node@ == node {
            1nat
        } else {
            0nat
        },
{
    assert(shards.push(s).drop_last() =~= shards);
}

proof fn lemma_lead_count_bound(shards: Seq<ShardInfo>, node: Seq<char>)
    ensures
        lead_count(shards, node) <= shards.len(),
    decreases shards.len(),
{
    if shards.len() > 0 {
        lemma_lead_count_bound(shards.drop_last(), node);
    }
}

fn position_of(r: &Vec<(NodeId, u32)>, p: &str) -> (k: Option<usize>)
    ensures
        match k {
            Some(k) => k < r@.len() && r@[k as int].0@ == p@,
            None => forall|j: int| 0 <= j < r@.len() ==> (#[trigger] r@[j]).0@ != p@,
        },
{
    let mut k: usize = 0;
    while k < r.len()
        invariant
            k <= r@.len(),
            forall|j: int| 0 <= j < k ==> (#[trigger] r@[j]).0@ != p@,
        decreases r.len() - k,
    {
        if str_equal(r[k].0.as_str(), p) {
            return Some(k);
        }
        k = k + 1;
    }
    None
}

/// How many shards each primary leads, each primary once, in the order
/// primaries first appear.
pub fn shard_distribution(shards: &Vec<ShardInfo>) -> (r: Vec<(NodeId, u32)>)
    requires
        shards@.len() <= u32::MAX,
    ensures
        is_distribution(r@, shards@),
{
    let mut r: Vec<(NodeId, u32)> = Vec::new();
    let mut i: usize = 0;
    while i < shards.len()
        invariant
            i <= shards@.len(),
            shards@.len() <= u32::MAX,
            is_distribution(r@, shards@.subrange(0, i as int)),
        decreases shards.len() - i,
    {
        let ghost pre = shards@.subrange(0, i as int);
        let ghost post = shards@.subrange(0, i + 1);
        assert(post =~= pre.push(shards@[i as int]));
        let p = &shards[i].primary_node;
        let found = position_of(&r, p.as_str());
        let ghost r0 = r@;
        proof {
            assert forall|n: Seq<char>| #[trigger] lead_count(post, n) == lead_count(pre, n) + if shards@[i as int].primary_node@ == n {
                1nat
            } else {
                0nat
            } by {
                lemma_led_by_push(pre, shards@[i as int], n);
            }
            lemma_lead_count_bound(post, p@);
        }
        if let Some(k) = found {
            let name = r[k].0.clone();
            let count = r[k].1;
            r.set(k, (name, count + 1));
            proof {
                assert forall|a: int| 0 <= a < r@.len() implies (#[trigger] r@[a]).1 == lead_count(post, r@[a].0@) && r@[a].1 > 0 by {
                    if a != k {
                        assert(r@[a] == r0[a]);
                        assert(r0[a].0@ != r0[k as int].0@);
                    }
                }
                assert forall|a: int, b: int| 0 <= a < b < r@.len() implies (#[trigger] r@[a]).0@ != (#[trigger] r@[b]).0@ by {
                    assert(r@[a].0@ == r0[a].0@);
                    assert(r@[b].0@ == r0[b].0@);
                }
                assert forall|m: int| 0 <= m < post.len() implies exists|a: int| 0 <= a < r@.len() && (#[trigger] r@[a]).0@ == (
                #[trigger] post[m]).primary_node@ by {
                    if m < pre.len() {
                        assert(post[m] == pre[m]);
                        let a = choose|a: int| 0 <= a < r0.len() && (#[trigger] r0[a]).0@ == (#[trigger] pre[m]).primary_node@;
                        assert(r@[a].0@ == r0[a].0@);
                    } else {
                        assert(r@[k as int].0@ == post[m].primary_node@);
                    }
                }
            }
        } else {
            r.push((p.clone(), 1));
            proof {
                assert(lead_count(pre, p@) == 0) by {
                    if lead_count(pre, p@) > 0 {
                        lemma_led_by_member(pre, p@);
                        let m = choose|m: int| 0 <= m < pre.len() && (#[trigger] pre[m]).primary_node@ == p@;
                        let a = choose|a: int| 0 <= a < r0.len() && (#[trigger] r0[a]).0@ == (#[trigger] pre[m]).primary_node@;
                        assert(r0[a].0@ != p@);
                    }
                }
                assert forall|a: int| 0 <= a < r@.len() implies (#[trigger] r@[a]).1 == lead_count(post, r@[a].0@) && r@[a].1 > 0 by {
                    if a < r0.len() {
                        assert(r@[a] == r0[a]);
                    }
                }
                assert forall|a: int, b: int| 0 <= a < b < r@.len() implies (#[trigger] r@[a]).0@ != (#[trigger] r@[b]).0@ by {
                    if b < r0.len() {
                        assert(r@[a] == r0[a] && r@[b] == r0[b]);
                    } else {
                        assert(r@[a] == r0[a]);
                    }
                }
                assert forall|m: int| 0 <= m < post.len() implies exists|a: int| 0 <= a < r@.len() && (#[trigger] r@[a]).0@ == (
                #[trigger] post[m]).primary_node@ by {
                    if m < pre.len() {
                        assert(post[m] == pre[m]);
                        let a = choose|a: int| 0 <= a < r0.len() && (#[trigger] r0[a]).0@ == (#[trigger] pre[m]).primary_node@;
                        assert(r@[a] == r0[a]);
                    } else {
                        assert(r@[r0.len() as int].0@ == post[m].primary_node@);
                    }
                }
            }
        }
        i = i + 1;
    }
    assert(shards@.subrange(0, shards@.len() as int) =~= shards@);
    r
}

proof fn lemma_led_by_member(shards: Seq<ShardInfo>, node: Seq<char>)
    requires
        lead_count(shards, node) > 0,
    ensures
        exists|m: int| 0 <= m < shards.len() && (#[trigger] shards[m]).primary_node@ == node,
    decreases shards.len(),
{
    if shards.last().primary_node@ == node {
        assert(shards[shards.len() - 1].primary_node@ == node);
    } else {
        lemma_led_by_member(shards.drop_last(), node);
        let m = choose|m: int| 0 <= m < shards.drop_last().len() && (#[trigger] shards.drop_last()[m]).primary_node@ == node;
        assert(shards[m] == shards.drop_last()[m]);
    }
}

/// An overloaded node, the first shard it leads (if any) and that shard's
/// estimated size.
#[derive(Debug)]
pub struct OverloadedNode {
    pub node_id: NodeId,
    pub first_shard: Option<u32>,
    pub shard_size: u64,
}

/// The moves planned by rebalancing, as (shard, from, to, size): each
/// overloaded node in turn hands its first shard to the first underloaded
/// node not yet given one; a node that leads no shard is skipped, and
/// planning stops once no underloaded node is left.
pub open spec fn planned_moves(over: Seq<OverloadedNode>, under: Seq<Seq<char>>) -> Seq<(u32, Seq<char>, Seq<char>, u64)>
    decreases over.len(),
{
    if over.len() == 0 || under.len() == 0 {
        Seq::empty()
    } else {
        match over[0].first_shard {
            Some(s) => seq![(s, over[0].node_id@, under[0], over[0].shard_size)] + planned_moves(
                over.drop_first(),
                under.drop_first(),
            ),
            None => planned_moves(over.drop_first(), under),
        }
    }
}

/// The view of a migration as (shard, from, to, size).
pub open spec fn move_of(m: ShardMigration) -> (u32, Seq<char>, Seq<char>, u64) {
    (m.shard_id, m.from_node@, m.to_node@, m.estimated_size)
}

/// The migrations that rebalance the cluster (see [`planned_moves`]), each
/// for "负载重新平衡" and estimated at 30 seconds; an empty node list is
/// an error.
pub fn plan_migrations(cluster_size: usize, overloaded: &Vec<OverloadedNode>, underloaded: &Vec<NodeId>) -> (r: Result<Vec<ShardMigration>, String>)
    ensures
        cluster_size == 0 ==> (r matches Err(e) && e@ == "集群节点列表为空"@),
        cluster_size > 0 ==> (r matches Ok(ms) && ms@.map_values(|m: ShardMigration| move_of(m)) == planned_moves(
            overloaded@,
            node_names(underloaded@),
        ) && forall|i: int| 0 <= i < ms@.len() ==> (#[trigger] ms@[i]).reason@ == "负载重新平衡"@
            && ms@[i].estimated_duration == 30),
{
    if cluster_size == 0 {
        return Err(String::from_str("集群节点列表为空"));
    }
    let mut ms: Vec<ShardMigration> = Vec::new();
    let mut i: usize = 0;
    let mut u: usize = 0;
    let ghost all_under = node_names(underloaded@);
    assert(ms@.map_values(|m: ShardMigration| move_of(m)) =~= Seq::empty());
    assert(overloaded@.subrange(0, overloaded@.len() as int) =~= overloaded@);
    assert(all_under.subrange(0, all_under.len() as int) =~= all_under);
    while i < overloaded.len()
        invariant
            i <= overloaded@.len(),
            u <= underloaded@.len(),
            all_under == node_names(underloaded@),
            ms@.map_values(|m: ShardMigration| move_of(m)) + planned_moves(
                overloaded@.subrange(i as int, overloaded@.len() as int),
                all_under.subrange(u as int, all_under.len() as int),
            ) == planned_moves(overloaded@, all_under),
            forall|k: int| 0 <= k < ms@.len() ==> (#[trigger] ms@[k]).reason@ == "负载重新平衡"@
                && ms@[k].estimated_duration == 30,
        decreases overloaded.len() - i,
    {
        let ghost rest_o = overloaded@.subrange(i as int, overloaded@.len() as int);
        let ghost rest_u = all_under.subrange(u as int, all_under.len() as int);
        assert(rest_o.drop_first() =~= overloaded@.subrange(i + 1, overloaded@.len() as int));
        if u >= underloaded.len() {
            proof {
                assert(rest_u.len() == 0);
                assert(planned_moves(rest_o, rest_u) =~= Seq::empty());
                assert(planned_moves(overloaded@.subrange(overloaded@.len() as int, overloaded@.len() as int), rest_u) =~= Seq::empty());
            }
            i = overloaded.len();
        } else {
            assert(rest_u.drop_first() =~= all_under.subrange(u + 1, all_under.len() as int));
            let o = &overloaded[i];
            match o.first_shard {
                Some(s) => {
                    let ghost before = ms@.map_values(|m: ShardMigration| move_of(m));
                    ms.push(
                        ShardMigration {
                            shard_id: s,
                            from_node: o.node_id.clone(),
                            to_node: underloaded[u].clone(),
                            reason: String::from_str("负载重新平衡"),
                            estimated_size: o.shard_size,
                            estimated_duration: 30,
                        },
                    );
                    proof {
                        assert(ms@.map_values(|m: ShardMigration| move_of(m)) =~= before.push(
                            (s, o.node_id@, all_under[u as int], o.shard_size),
                        ));
                        assert(before.push((s, o.node_id@, all_under[u as int], o.shard_size)) + planned_moves(
                            rest_o.drop_first(),
                            rest_u.drop_first(),
                        ) =~= before + planned_moves(rest_o, rest_u));
                    }
                    u = u + 1;
                },
                None => {},
            }
            i = i + 1;
        }
    }
    proof {
        assert(planned_moves(
            overloaded@.subrange(i as int, overloaded@.len() as int),
            all_under.subrange(u as int, all_under.len() as int),
        ) =~= Seq::empty());
    }
    Ok(ms)
}

/// Makes `new_node` the primary of shard `shard_id`; nothing else changes
/// (and nothing does when no shard has that id).
pub fn reassign_primary(shards: &mut Vec<ShardInfo>, shard_id: u32, new_node: &NodeId)
    ensures
        final(shards)@.len() == old(shards)@.len(),
        forall|k: int|
            0 <= k < old(shards)@.len() ==> {
                let a = old(shards)@[k];
                let b = #[trigger] final(shards)@[k];
                &&& b.id == a.id
                &&& b.replica_nodes == a.replica_nodes
                &&& b.state == a.state
                &&& b.range == a.range
                &&& b.primary_node@ == if a.id == shard_id { new_node@ } else { a.primary_node@ }
            },
{
    let ghost s0 = shards@;
    let mut i: usize = 0;
    while i < shards.len()
        invariant
            i <= shards@.len(),
            shards@.len() == s0.len(),
            forall|k: int|
                0 <= k < s0.len() ==> {
                    let a = s0[k];
                    let b = #[trigger] shards@[k];
                    &&& b.id == a.id
                    &&& b.replica_nodes == a.replica_nodes
                    &&& b.state == a.state
                    &&& b.range == a.range
                    &&& b.primary_node@ == if k < i && a.id == shard_id { new_node@ } else { a.primary_node@ }
                },
        decreases shards.len() - i,
    {
        if shards[i].id == shard_id {
            let mut all = Vec::new();
            std::mem::swap(&mut all, shards);
            let mut s = all.remove(i);
            s.primary_node = new_node.clone();
            all.insert(i, s);
            std::mem::swap(&mut all, shards);
        }
        i = i + 1;
    }
}

/// The vectors and bytes of all local shards.
pub open spec fn load_totals(loads: Seq<ShardLoad>) -> (int, int)
    decreases loads.len(),
{
    if loads.len() == 0 {
        (0, 0)
    } else {
        let (v, s) = load_totals(loads.drop_last());
        (v + loads.last().vector_count, s + loads.last().storage_size)
    }
}

proof fn lemma_load_totals_monotone(loads: Seq<ShardLoad>, i: int)
    requires
        0 <= i <= loads.len(),
    ensures
        load_totals(loads.subrange(0, i)).0 <= load_totals(loads).0,
        load_totals(loads.subrange(0, i)).1 <= load_totals(loads).1,
        load_totals(loads.subrange(0, i)).0 >= 0,
        load_totals(loads.subrange(0, i)).1 >= 0,
    decreases loads.len(),
{
    if i == loads.len() {
        assert(loads.subrange(0, i) =~= loads);
        lemma_load_totals_nonneg(loads);
    } else {
        assert(loads.drop_last().subrange(0, i) =~= loads.subrange(0, i));
        lemma_load_totals_monotone(loads.drop_last(), i);
    }
}

proof fn lemma_load_totals_nonneg(loads: Seq<ShardLoad>)
    ensures
        load_totals(loads).0 >= 0,
        load_totals(loads).1 >= 0,
    decreases loads.len(),
{
    if loads.len() > 0 {
        lemma_load_totals_nonneg(loads.drop_last());
    }
}

/// The vectors and bytes held by the local shards `loads`.
pub fn cluster_load_totals(loads: &Vec<ShardLoad>) -> (r: (u64, u64))
    requires
        load_totals(loads@).0 <= u64::MAX,
        load_totals(loads@).1 <= u64::MAX,
    ensures
        r.0 == load_totals(loads@).0,
        r.1 == load_totals(loads@).1,
{
    let mut v: u64 = 0;
    let mut s: u64 = 0;
    let mut i: usize = 0;
    while i < loads.len()
        invariant
            i <= loads@.len(),
            load_totals(loads@).0 <= u64::MAX,
            load_totals(loads@).1 <= u64::MAX,
            v == load_totals(loads@.subrange(0, i as int)).0,
            s == load_totals(loads@.subrange(0, i as int)).1,
        decreases loads.len() - i,
    {
        proof {
            assert(loads@.subrange(0, i + 1).drop_last() =~= loads@.subrange(0, i as int));
            lemma_load_totals_monotone(loads@, i + 1);
        }
        v = v + loads[i].vector_count;
        s = s + loads[i].storage_size;
        i = i + 1;
    }
    assert(loads@.subrange(0, loads@.len() as int) =~= loads@);
    (v, s)
}

/// A check of the integrity of a shard copied to another node, in the
/// order they run.
#[derive(Debug, Clone, Copy, PartialEq, Eq, Structural)]
pub enum IntegrityStep {
    VectorCount,
    DataHash,
    IndexIntegrity,
}

/// The name under which a passed check is listed.
pub open spec fn step_name(s: IntegrityStep) -> Seq<char> {
    match s {
        IntegrityStep::VectorCount => "vector_count"@,
        IntegrityStep::DataHash => "data_hash"@,
        IntegrityStep::IndexIntegrity => "index_integrity"@,
    }
}

/// The failure of a check that found the copy differing.
pub open spec fn step_mismatch(s: IntegrityStep) -> Seq<char> {
    match s {
        IntegrityStep::VectorCount => "向量数量不一致"@,
        IntegrityStep::DataHash => "数据哈希不一致"@,
        IntegrityStep::IndexIntegrity => "索引完整性问题"@,
    }
}

/// What precedes the error of a check that could not run.
pub open spec fn step_error_prefix(s: IntegrityStep) -> Seq<char> {
    match s {
        IntegrityStep::VectorCount => "向量数量检查失败: "@,
        IntegrityStep::DataHash => "数据哈希检查失败: "@,
        IntegrityStep::IndexIntegrity => "索引完整性检查失败: "@,
    }
}

/// The check after `s`, if any.
pub open spec fn step_after(s: IntegrityStep) -> Option<IntegrityStep> {
    match s {
        IntegrityStep::VectorCount => Some(IntegrityStep::DataHash),
        IntegrityStep::DataHash => Some(IntegrityStep::IndexIntegrity),
        IntegrityStep::IndexIntegrity => None,
    }
}

/// `parts` joined by `sep`.
pub open spec fn joined(parts: Seq<Seq<char>>, sep: Seq<char>) -> Seq<char>
    decreases parts.len(),
{
    if parts.len() == 0 {
        Seq::empty()
    } else if parts.len() == 1 {
        parts[0]
    } else {
        joined(parts.drop_last(), sep) + sep + parts.last()
    }
}

/// The verdict of an integrity check.
#[derive(Debug)]
pub struct IntegrityCheckResult {
    pub is_valid: bool,
    /// The checks that passed or found a difference, joined by ", ".
    pub checks_performed: String,
    pub failure_reason: Option<String>,
}

/// An integrity check under way: the checks that answered, the failure if
/// one came, and the check to run next. The checks run in order and stop
/// at the first failure.
#[derive(Debug)]
pub struct IntegrityCheck {
    performed: Vec<String>,
    failure: Option<String>,
    next: Option<IntegrityStep>,
}

impl IntegrityCheck {
    /// The names of the checks that answered, in order.
    pub closed spec fn performed(&self) -> Seq<Seq<char>> {
        self.performed@.map_values(|x: String| x@)
    }

    /// The failure, if one came.
    pub closed spec fn failure(&self) -> Option<Seq<char>> {
        match self.failure {
            Some(f) => Some(f@),
            None => None,
        }
    }

    /// The check to run next; none once one failed or all passed.
    pub closed spec fn next(&self) -> Option<IntegrityStep> {
        self.next
    }

    /// A check about to run its first step.
    pub fn new() -> (c: Self)
        ensures
            c.performed().len() == 0,
            c.failure() is None,
            c.next() == Some(IntegrityStep::VectorCount),
    {
        let c = IntegrityCheck { performed: Vec::new(), failure: None, next: Some(IntegrityStep::VectorCount) };
        assert(c.performed() =~= Seq::<Seq<char>>::empty());
        c
    }

    /// The check to run next.
    pub fn next_step(&self) -> (r: Option<IntegrityStep>)
        ensures
            r == self.next(),
    {
        self.next
    }

    /// Records what the check to run next answered: that the copy agrees
    /// (`Ok(true)`), that it differs (`Ok(false)`), or why the check could
    /// not run.
    pub fn record(&mut self, outcome: Result<bool, String>)
        requires
            old(self).next() is Some,
        ensures
            ({
                let s = old(self).next()->Some_0;
                match outcome {
                    Ok(true) => final(self).performed() == old(self).performed().push(step_name(s))
                        && final(self).failure() == old(self).failure() && final(self).next() == step_after(s),
                    Ok(false) => final(self).performed() == old(self).performed().push(step_name(s))
                        && final(self).failure() == Some(step_mismatch(s)) && final(self).next() is None,
                    Err(e) => final(self).performed() == old(self).performed() && final(self).failure() == Some(
                        step_error_prefix(s) + e@,
                    ) && final(self).next() is None,
                }
            }),
    {
        let s = match self.next {
            Some(s) => s,
            None => {
                return;
            },
        };
        let (name, mismatch, prefix) = match s {
            IntegrityStep::VectorCount => ("vector_count", "向量数量不一致", "向量数量检查失败: "),
            IntegrityStep::DataHash => ("data_hash", "数据哈希不一致", "数据哈希检查失败: "),
            IntegrityStep::IndexIntegrity => ("index_integrity", "索引完整性问题", "索引完整性检查失败: "),
        };
        let ghost p0 = self.performed();
        match outcome {
            Ok(agrees) => {
                self.performed.push(String::from_str(name));
                assert(self.performed() =~= p0.push(name@));
                if agrees {
                    self.next = match s {
                        IntegrityStep::VectorCount => Some(IntegrityStep::DataHash),
                        IntegrityStep::DataHash => Some(IntegrityStep::IndexIntegrity),
                        IntegrityStep::IndexIntegrity => None,
                    };
                } else {
                    self.failure = Some(String::from_str(mismatch));
                    self.next = None;
                }
            },
            Err(e) => {
                self.failure = Some(concat(prefix, e.as_str()));
                self.next = None;
            },
        }
    }

    /// The outcome: valid where no step failed; the names of the steps
    /// that ran, separated by commas; and the failure.
    pub fn result(&self) -> (r: IntegrityCheckResult)
        ensures
            r.is_valid == self.failure() is None,
            r.checks_performed@ == joined(self.performed(), ", "@),
            match r.failure_reason {
                Some(f) => self.failure() == Some(f@),
                None => self.failure() is None,
            },
    {
        let mut text = String::new();
        let mut i: usize = 0;
        while i < self.performed.len()
            invariant
                i <= self.performed@.len(),
                text@ == joined(self.performed().subrange(0, i as int), ", "@),
            decreases self.performed.len() - i,
        {
            let ghost parts = self.performed().subrange(0, i + 1);
            assert(parts.drop_last() =~= self.performed().subrange(0, i as int));
            assert(parts.last() == self.performed@[i as int]@);
            if i > 0 {
                text.append(", ");
            } else {
                assert(text@ =~= Seq::<char>::empty());
                assert(parts.len() == 1);
            }
            text.append(self.performed[i].as_str());
            proof {
                if i == 0 {
                    assert(text@ =~= parts[0]);
                }
            }
            i = i + 1;
        }
        assert(self.performed().subrange(0, self.performed@.len() as int) =~= self.performed());
        let failure_reason = match &self.failure {
            Some(f) => Some(f.clone()),
            None => None,
        };
        IntegrityCheckResult { is_valid: self.failure.is_none(), checks_performed: text, failure_reason }
    }
}

/// What a shard migration does once the copy has been checked: go on (move
/// the primary, drop the local copy) where the check passed; fail with
/// "数据完整性验证失败" where it found a difference, or with the check's own
/// error.
pub fn migration_verdict(check: Result<bool, String>) -> (r: Result<(), String>)
    ensures
        match check {
            Ok(true) => r is Ok,
            Ok(false) => r matches Err(m) && m@ == "数据完整性验证失败"@,
            Err(e) => r matches Err(m) && m@ == e@,
        },
{
    match check {
        Ok(true) => Ok(()),
        Ok(false) => Err(String::from_str("数据完整性验证失败")),
        Err(e) => Err(e),
    }
}

/// The error of a migration or a data collection for a shard that is not
/// held locally.
pub fn missing_local_shard_error(shard_id: u32) -> (m: String)
    ensures
        m@ == "本地不存在分片 "@ + decimal(shard_id as nat),
{
    with_decimal("本地不存在分片 ", shard_id as u64)
}

} // verus!
