//! Sharding: the consistent hash ring that maps keys to nodes (with its
//! routing cache), the initial layout of shards over the cluster, and the
//! choice of a shard for a key.

use crate::text::{concat, decimal, push_decimal, str_equal};
use crate::types::{NodeId, ShardId, ShardInfo, ShardRange, ShardState};
use std::collections::hash_map::DefaultHasher;
use std::hash::{Hash, Hasher};
use vstd::prelude::*;

verus! {

/// The hash that a fresh `std::collections::hash_map::DefaultHasher` gives a
/// string. `DefaultHasher::new` is not randomly seeded: every instance made by
/// it hashes alike within a build.
pub uninterp spec fn default_str_hash(s: Seq<char>) -> u64;

/// Feeds `key` to a fresh `std::collections::hash_map::DefaultHasher` (through
/// `Hash for str`) and returns `finish()`.
#[verifier::external_body]
fn std_hash_str(key: &str) -> (h: u64)
    ensures
        h == default_str_hash(key@),
{
    let mut hasher = DefaultHasher::new();
    key.hash(&mut hasher);
    hasher.finish()
}

/// The finalising mix that spreads a 64-bit hash over the ring.
pub open spec fn mix64(x: u64) -> u64 {
    let a = x ^ (x >> 33u64);
    let b = a.wrapping_mul(0xff51afd7ed558ccdu64);
    let c = b ^ (b >> 33u64);
    let d = c.wrapping_mul(0xc4ceb9fe1a85ec53u64);
    d ^ (d >> 33u64)
}

/// The position of `key` on the ring.
pub open spec fn ring_hash(key: Seq<char>) -> u64 {
    mix64(default_str_hash(key))
}

/// The key of the `i`-th virtual node of `node`: "node:i".
pub open spec fn virtual_key(node: Seq<char>, i: nat) -> Seq<char> {
    node + ":"@ + decimal(i)
}

/// Whether `vn` is sorted by hash, each hash once.
pub open spec fn ring_sorted(vn: Seq<(u64, NodeId)>) -> bool {
    forall|i: int, j: int| 0 <= i < j < vn.len() ==> (#[trigger] vn[i]).0 < (#[trigger] vn[j]).0
}

/// `i` splits `vn` at `h`: the hashes before it are below `h`, the rest are not.
pub open spec fn splits_at(vn: Seq<(u64, NodeId)>, h: u64, i: int) -> bool {
    &&& 0 <= i <= vn.len()
    &&& forall|j: int| 0 <= j < i ==> (#[trigger] vn[j]).0 < h
    &&& forall|j: int| i <= j < vn.len() ==> (#[trigger] vn[j]).0 >= h
}

/// The node that owns position `h`: the first virtual node at or after `h`,
/// around to the first one past the end; none on an empty ring.
pub open spec fn ring_owner(vn: Seq<(u64, NodeId)>, h: u64) -> Option<Seq<char>> {
    if vn.len() == 0 {
        None
    } else {
        let i = choose|i: int| splits_at(vn, h, i);
        if i < vn.len() {
            Some(vn[i].1@)
        } else {
            Some(vn[0].1@)
        }
    }
}

/// The node that a virtual node at hash `h` belongs to, if there is one.
pub open spec fn vnode_at(vn: Seq<(u64, NodeId)>, h: u64) -> Option<Seq<char>> {
    if exists|i: int| 0 <= i < vn.len() && (#[trigger] vn[i]).0 == h {
        Some(vn[choose|i: int| 0 <= i < vn.len() && (#[trigger] vn[i]).0 == h].1@)
    } else {
        None
    }
}

/// Whether `h` is the hash of one of the first `count` virtual nodes of `node`.
pub open spec fn is_virtual_hash_of(node: Seq<char>, count: nat, h: u64) -> bool {
    exists|i: nat| i < count && #[trigger] ring_hash(virtual_key(node, i)) == h
}

/// The weight of the node named `n`, if it is on the ring.
pub open spec fn weight_of(ws: Seq<(NodeId, u32)>, n: Seq<char>) -> Option<u32> {
    if exists|i: int| 0 <= i < ws.len() && (#[trigger] ws[i]).0@ == n {
        Some(ws[choose|i: int| 0 <= i < ws.len() && (#[trigger] ws[i]).0@ == n].1)
    } else {
        None
    }
}

/// The cached node for `key`, if there is one.
pub open spec fn cached(c: Seq<(String, NodeId)>, key: Seq<char>) -> Option<Seq<char>> {
    if exists|i: int| 0 <= i < c.len() && (#[trigger] c[i]).0@ == key {
        Some(c[choose|i: int| 0 <= i < c.len() && (#[trigger] c[i]).0@ == key].1@)
    } else {
        None
    }
}

/// A routing cache after `key` is cached: when full, its oldest tenth goes first.
pub open spec fn cache_after_insert(c: Seq<(String, NodeId)>, entry: (String, NodeId)) -> Seq<(String, NodeId)> {
    if c.len() >= ROUTING_CACHE_CAPACITY {
        c.subrange(ROUTING_CACHE_EVICTION as int, c.len() as int).push(entry)
    } else {
        c.push(entry)
    }
}

proof fn lemma_split_unique(vn: Seq<(u64, NodeId)>, h: u64, a: int, b: int)
    requires
        splits_at(vn, h, a),
        splits_at(vn, h, b),
    ensures
        a == b,
{
    if a < b {
        assert(vn[a].0 < h);
    } else if b < a {
        assert(vn[b].0 < h);
    }
}

proof fn lemma_vnode_at_index(vn: Seq<(u64, NodeId)>, i: int)
    requires
        ring_sorted(vn),
        0 <= i < vn.len(),
    ensures
        vnode_at(vn, vn[i].0) == Some(vn[i].1@),
{
    let h = vn[i].0;
    let c = choose|c: int| 0 <= c < vn.len() && (#[trigger] vn[c]).0 == h;
    assert(0 <= c < vn.len() && vn[c].0 == h);
    if c < i {
        assert(vn[c].0 < vn[i].0);
    } else if i < c {
        assert(vn[i].0 < vn[c].0);
    }
}

/// Counters of a routing cache.
#[derive(Clone, Copy, Debug)]
pub struct CacheStats {
    pub hits: u64,
    pub misses: u64,
    pub total_requests: u64,
}

impl CacheStats {
    /// All counters at zero.
    pub fn new() -> (s: CacheStats)
        ensures
            s.hits == 0 && s.misses == 0 && s.total_requests == 0,
    {
        CacheStats { hits: 0, misses: 0, total_requests: 0 }
    }

    /// Counts a hit.
    pub fn record_hit(&mut self)
        requires
            old(self).hits < u64::MAX,
            old(self).total_requests < u64::MAX,
        ensures
            final(self).hits == old(self).hits + 1,
            final(self).misses == old(self).misses,
            final(self).total_requests == old(self).total_requests + 1,
    {
        self.hits = self.hits + 1;
        self.total_requests = self.total_requests + 1;
    }

    /// Counts a miss.
    pub fn record_miss(&mut self)
        requires
            old(self).misses < u64::MAX,
            old(self).total_requests < u64::MAX,
        ensures
            final(self).hits == old(self).hits,
            final(self).misses == old(self).misses + 1,
            final(self).total_requests == old(self).total_requests + 1,
    {
        self.misses = self.misses + 1;
        self.total_requests = self.total_requests + 1;
    }
}

/// The number of entries a routing cache holds at most.
pub const ROUTING_CACHE_CAPACITY: usize = 10000;

/// The entries dropped from a full routing cache, a tenth of its capacity.
pub const ROUTING_CACHE_EVICTION: usize = 1000;

/// Sizes and counters of a hash ring.
#[derive(Clone, Copy, Debug)]
pub struct RingStats {
    pub virtual_nodes_count: usize,
    pub physical_nodes_count: usize,
    pub cache_size: usize,
    pub cache_hits: u64,
    pub cache_misses: u64,
    pub cache_total_requests: u64,
}

/// A consistent hash ring: each node stands on the ring at the hashes of its
/// virtual keys, and a key belongs to the first node at or after its own hash.
/// Lookups are cached until the ring changes.
#[derive(Debug)]
pub struct ConsistentHashRing {
    virtual_nodes: Vec<(u64, NodeId)>,
    node_weights: Vec<(NodeId, u32)>,
    virtual_node_count: u32,
    routing_cache: Vec<(String, NodeId)>,
    cache_max_size: usize,
    cache_stats: CacheStats,
}

impl ConsistentHashRing {
    /// The virtual nodes, sorted by hash.
    pub closed spec fn ring(&self) -> Seq<(u64, NodeId)> {
        self.virtual_nodes@
    }

    /// The nodes with their weights, in order of addition.
    pub closed spec fn weights(&self) -> Seq<(NodeId, u32)> {
        self.node_weights@
    }

    /// The virtual nodes made per unit of weight.
    pub closed spec fn per_weight(&self) -> u32 {
        self.virtual_node_count
    }

    /// The cached lookups, oldest first.
    pub closed spec fn cache(&self) -> Seq<(String, NodeId)> {
        self.routing_cache@
    }

    /// The cache counters.
    pub closed spec fn counters(&self) -> CacheStats {
        self.cache_stats
    }

    /// The ring is sorted, node names and cached keys occur once, every
    /// cached answer is the ring's own answer, and the cache stays in bounds.
    pub closed spec fn wf(&self) -> bool {
        &&& ring_sorted(self.virtual_nodes@)
        &&& forall|i: int, j: int|
            0 <= i < j < self.node_weights@.len() ==> (#[trigger] self.node_weights@[i]).0@
                != (#[trigger] self.node_weights@[j]).0@
        &&& forall|i: int| 0 <= i < self.node_weights@.len() ==> self.virtual_node_count * (
        #[trigger] self.node_weights@[i]).1 <= u32::MAX
        &&& forall|i: int, j: int|
            0 <= i < j < self.routing_cache@.len() ==> (#[trigger] self.routing_cache@[i]).0@
                != (#[trigger] self.routing_cache@[j]).0@
        &&& forall|i: int|
            0 <= i < self.routing_cache@.len() ==> ring_owner(
                self.virtual_nodes@,
                ring_hash((#[trigger] self.routing_cache@[i]).0@),
            ) == Some(self.routing_cache@[i].1@)
        &&& self.cache_max_size == ROUTING_CACHE_CAPACITY
        &&& self.routing_cache@.len() <= ROUTING_CACHE_CAPACITY
        &&& self.cache_stats.hits + self.cache_stats.misses == self.cache_stats.total_requests
    }

    /// What well-formedness gives a caller: the ring is sorted by hash, the
    /// cache holds at most its capacity, and every request counted was a hit
    /// or a miss.
    pub proof fn lemma_wf_facts(&self)
        requires
            self.wf(),
        ensures
            ring_sorted(self.ring()),
            self.cache().len() <= ROUTING_CACHE_CAPACITY,
            self.counters().hits + self.counters().misses == self.counters().total_requests,
    {
    }

    /// An empty ring placing `virtual_node_count` virtual nodes per unit of weight.
    pub fn new(virtual_node_count: u32) -> (r: Self)
        ensures
            r.wf(),
            r.ring().len() == 0,
            r.weights().len() == 0,
            r.per_weight() == virtual_node_count,
            r.cache().len() == 0,
            r.counters().hits == 0,
            r.counters().misses == 0,
            r.counters().total_requests == 0,
    {
        ConsistentHashRing {
            virtual_nodes: Vec::new(),
            node_weights: Vec::new(),
            virtual_node_count,
            routing_cache: Vec::new(),
            cache_max_size: ROUTING_CACHE_CAPACITY,
            cache_stats: CacheStats::new(),
        }
    }

    /// The position of `key` on the ring.
    fn hash_key(&self, key: &str) -> (h: u64)
        ensures
            h == ring_hash(key@),
    {
        let base = std_hash_str(key);
        let mut result = base;
        result = result ^ (result >> 33u64);
        result = result.wrapping_mul(0xff51afd7ed558ccdu64);
        result = result ^ (result >> 33u64);
        result = result.wrapping_mul(0xc4ceb9fe1a85ec53u64);
        result = result ^ (result >> 33u64);
        result
    }

    /// The index at which `h` splits the ring.
    fn split_index(&self, h: u64) -> (i: usize)
        requires
            ring_sorted(self.virtual_nodes@),
        ensures
            splits_at(self.virtual_nodes@, h, i as int),
    {
        let mut lo: usize = 0;
        let mut hi: usize = self.virtual_nodes.len();
        while lo < hi
            invariant
                ring_sorted(self.virtual_nodes@),
                0 <= lo <= hi <= self.virtual_nodes@.len(),
                forall|j: int| 0 <= j < lo ==> (#[trigger] self.virtual_nodes@[j]).0 < h,
                forall|j: int| hi <= j < self.virtual_nodes@.len() ==> (#[trigger] self.virtual_nodes@[j]).0 >= h,
            decreases hi - lo,
        {
            let mid = lo + (hi - lo) / 2;
            if self.virtual_nodes[mid].0 < h {
                proof {
                    assert forall|j: int| 0 <= j <= mid implies (#[trigger] self.virtual_nodes@[j]).0 < h by {
                        if j < mid {
                            assert(self.virtual_nodes@[j].0 < self.virtual_nodes@[mid as int].0);
                        }
                    }
                }
                lo = mid + 1;
            } else {
                proof {
                    assert forall|j: int| mid <= j < self.virtual_nodes@.len() implies (
                    #[trigger] self.virtual_nodes@[j]).0 >= h by {
                        if mid < j {
                            assert(self.virtual_nodes@[mid as int].0 < self.virtual_nodes@[j].0);
                        }
                    }
                }
                hi = mid;
            }
        }
        lo
    }

    /// Places (or moves) the virtual node at hash `h` onto `node`.
    fn put_virtual_node(&mut self, h: u64, node: NodeId)
        requires
            ring_sorted(old(self).virtual_nodes@),
        ensures
            ring_sorted(final(self).virtual_nodes@),
            forall|x: u64| #[trigger] vnode_at(final(self).virtual_nodes@, x) == if x == h {
                Some(node@)
            } else {
                vnode_at(old(self).virtual_nodes@, x)
            },
            final(self).node_weights == old(self).node_weights,
            final(self).virtual_node_count == old(self).virtual_node_count,
            final(self).routing_cache == old(self).routing_cache,
            final(self).cache_max_size == old(self).cache_max_size,
            final(self).cache_stats == old(self).cache_stats,
    {
        let i = self.split_index(h);
        let ghost old_vn = self.virtual_nodes@;
        let ghost node_view = node@;
        if i < self.virtual_nodes.len() && self.virtual_nodes[i].0 == h {
            self.virtual_nodes.set(i, (h, node));
            proof {
                let vn = self.virtual_nodes@;
                assert(vn == old_vn.update(i as int, (h, vn[i as int].1)));
                assert forall|x: u64| #[trigger] vnode_at(vn, x) == if x == h {
                    Some(node_view)
                } else {
                    vnode_at(old_vn, x)
                } by {
                    if x == h {
                        lemma_vnode_at_index(vn, i as int);
                    } else {
                        if exists|k: int| 0 <= k < old_vn.len() && (#[trigger] old_vn[k]).0 == x {
                            let k = choose|k: int| 0 <= k < old_vn.len() && (#[trigger] old_vn[k]).0 == x;
                            lemma_vnode_at_index(old_vn, k);
                            lemma_vnode_at_index(vn, k);
                        } else {
                            assert(!exists|k: int| 0 <= k < vn.len() && (#[trigger] vn[k]).0 == x) by {
                                if exists|k: int| 0 <= k < vn.len() && (#[trigger] vn[k]).0 == x {
                                    let k = choose|k: int| 0 <= k < vn.len() && (#[trigger] vn[k]).0 == x;
                                    assert(old_vn[k].0 == x);
                                }
                            }
                        }
                    }
                }
            }
        } else {
            self.virtual_nodes.insert(i, (h, node));
            proof {
                let vn = self.virtual_nodes@;
                assert(vn == old_vn.insert(i as int, (h, vn[i as int].1)));
                assert forall|a: int, b: int| 0 <= a < b < vn.len() implies (#[trigger] vn[a]).0 < (
                #[trigger] vn[b]).0 by {
                    if b < i {
                        assert(old_vn[a].0 < old_vn[b].0);
                    } else if a > i {
                        assert(old_vn[a - 1].0 < old_vn[b - 1].0);
                    } else if a == i {
                        assert(old_vn[b - 1].0 >= h);
                        assert(old_vn[b - 1].0 != h);
                    } else if b == i {
                        assert(old_vn[a].0 < h);
                    } else {
                        assert(old_vn[a].0 < h);
                        assert(old_vn[b - 1].0 >= h);
                    }
                }
                assert forall|x: u64| #[trigger] vnode_at(vn, x) == if x == h {
                    Some(node_view)
                } else {
                    vnode_at(old_vn, x)
                } by {
                    if x == h {
                        lemma_vnode_at_index(vn, i as int);
                    } else {
                        if exists|k: int| 0 <= k < old_vn.len() && (#[trigger] old_vn[k]).0 == x {
                            let k = choose|k: int| 0 <= k < old_vn.len() && (#[trigger] old_vn[k]).0 == x;
                            lemma_vnode_at_index(old_vn, k);
                            if k < i {
                                assert(vn[k] == old_vn[k]);
                                lemma_vnode_at_index(vn, k);
                            } else {
                                assert(vn[k + 1] == old_vn[k]);
                                lemma_vnode_at_index(vn, k + 1);
                            }
                        } else {
                            assert(!exists|k: int| 0 <= k < vn.len() && (#[trigger] vn[k]).0 == x) by {
                                if exists|k: int| 0 <= k < vn.len() && (#[trigger] vn[k]).0 == x {
                                    let k = choose|k: int| 0 <= k < vn.len() && (#[trigger] vn[k]).0 == x;
                                    if k < i {
                                        assert(old_vn[k].0 == x);
                                    } else if k > i {
                                        assert(old_vn[k - 1].0 == x);
                                    }
                                }
                            }
                        }
                    }
                }
            }
        }
    }

    /// Takes the virtual node at hash `h` off the ring, if there is one.
    fn drop_virtual_node(&mut self, h: u64)
        requires
            ring_sorted(old(self).virtual_nodes@),
        ensures
            ring_sorted(final(self).virtual_nodes@),
            forall|x: u64| #[trigger] vnode_at(final(self).virtual_nodes@, x) == if x == h {
                None
            } else {
                vnode_at(old(self).virtual_nodes@, x)
            },
            final(self).node_weights == old(self).node_weights,
            final(self).virtual_node_count == old(self).virtual_node_count,
            final(self).routing_cache == old(self).routing_cache,
            final(self).cache_max_size == old(self).cache_max_size,
            final(self).cache_stats == old(self).cache_stats,
    {
        let i = self.split_index(h);
        let ghost old_vn = self.virtual_nodes@;
        if i < self.virtual_nodes.len() && self.virtual_nodes[i].0 == h {
            self.virtual_nodes.remove(i);
            proof {
                let vn = self.virtual_nodes@;
                assert(vn == old_vn.remove(i as int));
                assert forall|a: int, b: int| 0 <= a < b < vn.len() implies (#[trigger] vn[a]).0 < (
                #[trigger] vn[b]).0 by {
                    if b < i {
                        assert(old_vn[a].0 < old_vn[b].0);
                    } else if a >= i {
                        assert(old_vn[a + 1].0 < old_vn[b + 1].0);
                    } else {
                        assert(old_vn[a].0 < old_vn[b + 1].0);
                    }
                }
                assert forall|x: u64| #[trigger] vnode_at(vn, x) == if x == h {
                    None
                } else {
                    vnode_at(old_vn, x)
                } by {
                    if exists|k: int| 0 <= k < vn.len() && (#[trigger] vn[k]).0 == x {
                        let k = choose|k: int| 0 <= k < vn.len() && (#[trigger] vn[k]).0 == x;
                        lemma_vnode_at_index(vn, k);
                        if k < i {
                            assert(old_vn[k] == vn[k]);
                            lemma_vnode_at_index(old_vn, k);
                            assert(old_vn[k].0 < old_vn[i as int].0);
                        } else {
                            assert(old_vn[k + 1] == vn[k]);
                            lemma_vnode_at_index(old_vn, k + 1);
                            assert(old_vn[i as int].0 < old_vn[k + 1].0);
                        }
                    } else {
                        if x != h {
                            assert(!exists|k: int| 0 <= k < old_vn.len() && (#[trigger] old_vn[k]).0 == x) by {
                                if exists|k: int| 0 <= k < old_vn.len() && (#[trigger] old_vn[k]).0 == x {
                                    let k = choose|k: int| 0 <= k < old_vn.len() && (#[trigger] old_vn[k]).0
                                        == x;
                                    if k < i {
                                        assert(vn[k].0 == x);
                                    } else if k > i {
                                        assert(vn[k - 1].0 == x);
                                    }
                                }
                            }
                        }
                    }
                }
            }
        } else {
            proof {
                let vn = self.virtual_nodes@;
                assert forall|x: u64| #[trigger] vnode_at(vn, x) == if x == h {
                    None
                } else {
                    vnode_at(old_vn, x)
                } by {
                    if x == h {
                        assert(!exists|k: int| 0 <= k < vn.len() && (#[trigger] vn[k]).0 == x) by {
                            if exists|k: int| 0 <= k < vn.len() && (#[trigger] vn[k]).0 == x {
                                let k = choose|k: int| 0 <= k < vn.len() && (#[trigger] vn[k]).0 == x;
                                if k < i {
                                    assert(vn[k].0 < h);
                                } else if k > i {
                                    assert(vn[i as int].0 < vn[k].0);
                                }
                            }
                        }
                    }
                }
            }
        }
    }

    /// The key of the `i`-th virtual node of `node`.
    fn virtual_key_of(node: &str, i: u32) -> (k: String)
        ensures
            k@ == virtual_key(node@, i as nat),
    {
        let mut k = concat(node, ":");
        push_decimal(&mut k, i as u64);
        proof { reveal_strlit(":"); }
        k
    }
}


impl ConsistentHashRing {
    /// The index of the node named `node` among the weights, if it is there.
    fn weight_index(&self, node: &str) -> (r: Option<usize>)
        ensures
            r.is_none() ==> forall|i: int| 0 <= i < self.node_weights@.len() ==> (
            #[trigger] self.node_weights@[i]).0@ != node@,
            r.is_some() ==> r.unwrap() < self.node_weights@.len() && self.node_weights@[r.unwrap() as int].0@
                == node@,
    {
        let mut i: usize = 0;
        while i < self.node_weights.len()
            invariant
                i <= self.node_weights@.len(),
                forall|j: int| 0 <= j < i ==> (#[trigger] self.node_weights@[j]).0@ != node@,
            decreases self.node_weights.len() - i,
        {
            if str_equal(self.node_weights[i].0.as_str(), node) {
                return Some(i);
            }
            i = i + 1;
        }
        None
    }

    /// Gives `node` the weight `weight`, adding it when it is new.
    fn set_weight(&mut self, node: &NodeId, weight: u32)
        requires
            old(self).wf(),
            old(self).virtual_node_count * weight <= u32::MAX,
        ensures
            forall|i: int, j: int|
                0 <= i < j < final(self).node_weights@.len() ==> (#[trigger] final(self).node_weights@[i]).0@
                    != (#[trigger] final(self).node_weights@[j]).0@,
            forall|i: int| 0 <= i < final(self).node_weights@.len() ==> final(self).virtual_node_count * (
            #[trigger] final(self).node_weights@[i]).1 <= u32::MAX,
            forall|n: Seq<char>| #[trigger] weight_of(final(self).node_weights@, n) == if n == node@ {
                Some(weight)
            } else {
                weight_of(old(self).node_weights@, n)
            },
            final(self).virtual_nodes == old(self).virtual_nodes,
            final(self).virtual_node_count == old(self).virtual_node_count,
            final(self).routing_cache == old(self).routing_cache,
            final(self).cache_max_size == old(self).cache_max_size,
            final(self).cache_stats == old(self).cache_stats,
    {
        let ghost ws = self.node_weights@;
        match self.weight_index(node.as_str()) {
            Some(k) => {
                let name = self.node_weights[k].0.clone();
                self.node_weights.set(k, (name, weight));
                proof {
                    let nw = self.node_weights@;
                    assert forall|n: Seq<char>| #[trigger] weight_of(nw, n) == if n == node@ {
                        Some(weight)
                    } else {
                        weight_of(ws, n)
                    } by {
                        if n == node@ {
                            let c = choose|c: int| 0 <= c < nw.len() && (#[trigger] nw[c]).0@ == n;
                            assert(nw[k as int].0@ == n);
                            if c != k {
                                if c < k {
                                    assert(ws[c].0@ != ws[k as int].0@);
                                } else {
                                    assert(ws[k as int].0@ != ws[c].0@);
                                }
                            }
                        } else {
                            if exists|c: int| 0 <= c < ws.len() && (#[trigger] ws[c]).0@ == n {
                                let c = choose|c: int| 0 <= c < ws.len() && (#[trigger] ws[c]).0@ == n;
                                assert(nw[c].0@ == n);
                                let d = choose|d: int| 0 <= d < nw.len() && (#[trigger] nw[d]).0@ == n;
                                if d != c {
                                    if d < c {
                                        assert(nw[d].0@ != nw[c].0@);
                                    } else {
                                        assert(nw[c].0@ != nw[d].0@);
                                    }
                                }
                            } else {
                                assert(!exists|c: int| 0 <= c < nw.len() && (#[trigger] nw[c]).0@ == n) by {
                                    if exists|c: int| 0 <= c < nw.len() && (#[trigger] nw[c]).0@ == n {
                                        let c = choose|c: int| 0 <= c < nw.len() && (#[trigger] nw[c]).0@ == n;
                                        assert(ws[c].0@ == n);
                                    }
                                }
                            }
                        }
                    }
                }
            },
            None => {
                self.node_weights.push((node.clone(), weight));
                proof {
                    let nw = self.node_weights@;
                    assert forall|i: int, j: int|
                        0 <= i < j < nw.len() implies (#[trigger] nw[i]).0@ != (#[trigger] nw[j]).0@ by {
                        if j < ws.len() {
                            assert(ws[i].0@ != ws[j].0@);
                        }
                    }
                    assert forall|n: Seq<char>| #[trigger] weight_of(nw, n) == if n == node@ {
                        Some(weight)
                    } else {
                        weight_of(ws, n)
                    } by {
                        if n == node@ {
                            assert(nw[ws.len() as int].0@ == n);
                            let c = choose|c: int| 0 <= c < nw.len() && (#[trigger] nw[c]).0@ == n;
                            if c < ws.len() {
                                assert(ws[c].0@ == n);
                            }
                        } else {
                            if exists|c: int| 0 <= c < ws.len() && (#[trigger] ws[c]).0@ == n {
                                let c = choose|c: int| 0 <= c < ws.len() && (#[trigger] ws[c]).0@ == n;
                                assert(nw[c].0@ == n);
                                let d = choose|d: int| 0 <= d < nw.len() && (#[trigger] nw[d]).0@ == n;
                                if d != c {
                                    if d < c {
                                        assert(nw[d].0@ != nw[c].0@);
                                    } else {
                                        assert(nw[c].0@ != nw[d].0@);
                                    }
                                }
                            } else {
                                assert(!exists|c: int| 0 <= c < nw.len() && (#[trigger] nw[c]).0@ == n) by {
                                    if exists|c: int| 0 <= c < nw.len() && (#[trigger] nw[c]).0@ == n {
                                        let c = choose|c: int| 0 <= c < nw.len() && (#[trigger] nw[c]).0@ == n;
                                        if c < ws.len() {
                                            assert(ws[c].0@ == n);
                                        }
                                    }
                                }
                            }
                        }
                    }
                }
            },
        }
    }

    /// Adds `node_id` with `weight` (or gives it that weight): its virtual
    /// nodes "node_id:i", for each `i` below `weight` times the virtual node
    /// count, are placed on the ring, and the routing cache is emptied.
    pub fn add_node(&mut self, node_id: NodeId, weight: u32)
        requires
            old(self).wf(),
            old(self).per_weight() * weight <= u32::MAX,
        ensures
            final(self).wf(),
            forall|x: u64| #[trigger] vnode_at(final(self).ring(), x) == if is_virtual_hash_of(
                node_id@,
                (old(self).per_weight() * weight) as nat,
                x,
            ) {
                Some(node_id@)
            } else {
                vnode_at(old(self).ring(), x)
            },
            forall|n: Seq<char>| #[trigger] weight_of(final(self).weights(), n) == if n == node_id@ {
                Some(weight)
            } else {
                weight_of(old(self).weights(), n)
            },
            final(self).per_weight() == old(self).per_weight(),
            final(self).cache().len() == 0,
            final(self).counters() == old(self).counters(),
    {
        self.set_weight(&node_id, weight);
        let ghost final_weights = self.node_weights;
        let count = self.virtual_node_count * weight;
        let ghost old_vn = self.virtual_nodes@;
        let mut i: u32 = 0;
        while i < count
            invariant
                i <= count,
                ring_sorted(self.virtual_nodes@),
                forall|x: u64| #[trigger] vnode_at(self.virtual_nodes@, x) == if is_virtual_hash_of(
                    node_id@,
                    i as nat,
                    x,
                ) {
                    Some(node_id@)
                } else {
                    vnode_at(old_vn, x)
                },
                self.node_weights == final_weights,
                self.virtual_node_count == old(self).virtual_node_count,
                self.cache_max_size == old(self).cache_max_size,
                self.cache_stats == old(self).cache_stats,
            decreases count - i,
        {
            let key = Self::virtual_key_of(node_id.as_str(), i);
            let h = self.hash_key(key.as_str());
            let ghost before = self.virtual_nodes@;
            self.put_virtual_node(h, node_id.clone());
            proof {
                assert forall|x: u64| #[trigger] vnode_at(self.virtual_nodes@, x) == if is_virtual_hash_of(
                    node_id@,
                    (i + 1) as nat,
                    x,
                ) {
                    Some(node_id@)
                } else {
                    vnode_at(old_vn, x)
                } by {
                    if x == h {
                        assert(ring_hash(virtual_key(node_id@, i as nat)) == x);
                    } else if is_virtual_hash_of(node_id@, (i + 1) as nat, x) {
                        let j = choose|j: nat| j < i + 1 && #[trigger] ring_hash(virtual_key(node_id@, j)) == x;
                        assert(j != i);
                        assert(is_virtual_hash_of(node_id@, i as nat, x));
                    } else {
                        assert(!is_virtual_hash_of(node_id@, i as nat, x)) by {
                            if is_virtual_hash_of(node_id@, i as nat, x) {
                                let j = choose|j: nat| j < i && #[trigger] ring_hash(virtual_key(node_id@, j)) == x;
                                assert(j < i + 1);
                            }
                        }
                    }
                }
            }
            i = i + 1;
        }
        self.routing_cache.clear();
    }
}


impl ConsistentHashRing {
    /// Removes `node_id` and its virtual nodes, and empties the routing cache;
    /// a node that is not on the ring changes nothing.
    pub fn remove_node(&mut self, node_id: &NodeId)
        requires
            old(self).wf(),
        ensures
            final(self).wf(),
            weight_of(old(self).weights(), node_id@).is_none() ==> final(self).ring() == old(self).ring()
                && final(self).weights() == old(self).weights() && final(self).cache() == old(self).cache(),
            weight_of(old(self).weights(), node_id@).is_some() ==> {
                &&& forall|x: u64| #[trigger] vnode_at(final(self).ring(), x) == if is_virtual_hash_of(
                    node_id@,
                    (old(self).per_weight() * weight_of(old(self).weights(), node_id@).unwrap()) as nat,
                    x,
                ) {
                    None
                } else {
                    vnode_at(old(self).ring(), x)
                }
                &&& forall|n: Seq<char>| #[trigger] weight_of(final(self).weights(), n) == if n == node_id@ {
                    None
                } else {
                    weight_of(old(self).weights(), n)
                }
                &&& final(self).cache().len() == 0
            },
            final(self).per_weight() == old(self).per_weight(),
            final(self).counters() == old(self).counters(),
    {
        let ghost ws = self.node_weights@;
        match self.weight_index(node_id.as_str()) {
            None => {
                proof {
                    assert(!exists|c: int| 0 <= c < ws.len() && (#[trigger] ws[c]).0@ == node_id@);
                }
            },
            Some(k) => {
                let entry = self.node_weights.remove(k);
                let weight = entry.1;
                proof {
                    let nw = self.node_weights@;
                    assert(nw == ws.remove(k as int));
                    let c = choose|c: int| 0 <= c < ws.len() && (#[trigger] ws[c]).0@ == node_id@;
                    if c != k {
                        if c < k {
                            assert(ws[c].0@ != ws[k as int].0@);
                        } else {
                            assert(ws[k as int].0@ != ws[c].0@);
                        }
                    }
                    assert(weight_of(ws, node_id@) == Some(weight));
                    assert forall|i: int, j: int|
                        0 <= i < j < nw.len() implies (#[trigger] nw[i]).0@ != (#[trigger] nw[j]).0@ by {
                        if j < k {
                            assert(ws[i].0@ != ws[j].0@);
                        } else if i >= k {
                            assert(ws[i + 1].0@ != ws[j + 1].0@);
                        } else {
                            assert(ws[i].0@ != ws[j + 1].0@);
                        }
                    }
                    assert forall|i: int| 0 <= i < nw.len() implies self.virtual_node_count * (
                    #[trigger] nw[i]).1 <= u32::MAX by {
                        if i < k {
                            assert(nw[i] == ws[i]);
                        } else {
                            assert(nw[i] == ws[i + 1]);
                        }
                    }
                    assert forall|n: Seq<char>| #[trigger] weight_of(nw, n) == if n == node_id@ {
                        None
                    } else {
                        weight_of(ws, n)
                    } by {
                        if n == node_id@ {
                            assert(!exists|d: int| 0 <= d < nw.len() && (#[trigger] nw[d]).0@ == n) by {
                                if exists|d: int| 0 <= d < nw.len() && (#[trigger] nw[d]).0@ == n {
                                    let d = choose|d: int| 0 <= d < nw.len() && (#[trigger] nw[d]).0@ == n;
                                    if d < k {
                                        assert(ws[d].0@ != ws[k as int].0@);
                                    } else {
                                        assert(ws[k as int].0@ != ws[d + 1].0@);
                                    }
                                }
                            }
                        } else {
                            if exists|d: int| 0 <= d < ws.len() && (#[trigger] ws[d]).0@ == n {
                                let d = choose|d: int| 0 <= d < ws.len() && (#[trigger] ws[d]).0@ == n;
                                let e = if d < k { d } else { d - 1 };
                                assert(nw[e].0@ == n);
                                let f = choose|f: int| 0 <= f < nw.len() && (#[trigger] nw[f]).0@ == n;
                                if f != e {
                                    if f < e {
                                        assert(nw[f].0@ != nw[e].0@);
                                    } else {
                                        assert(nw[e].0@ != nw[f].0@);
                                    }
                                }
                            } else {
                                assert(!exists|d: int| 0 <= d < nw.len() && (#[trigger] nw[d]).0@ == n) by {
                                    if exists|d: int| 0 <= d < nw.len() && (#[trigger] nw[d]).0@ == n {
                                        let d = choose|d: int| 0 <= d < nw.len() && (#[trigger] nw[d]).0@ == n;
                                        if d < k {
                                            assert(ws[d].0@ == n);
                                        } else {
                                            assert(ws[d + 1].0@ == n);
                                        }
                                    }
                                }
                            }
                        }
                    }
                }
                let count = self.virtual_node_count * weight;
                let ghost old_vn = self.virtual_nodes@;
                let ghost final_weights = self.node_weights;
                let mut i: u32 = 0;
                while i < count
                    invariant
                        i <= count,
                        ring_sorted(self.virtual_nodes@),
                        forall|x: u64| #[trigger] vnode_at(self.virtual_nodes@, x) == if is_virtual_hash_of(
                            node_id@,
                            i as nat,
                            x,
                        ) {
                            None
                        } else {
                            vnode_at(old_vn, x)
                        },
                        self.node_weights == final_weights,
                        self.virtual_node_count == old(self).virtual_node_count,
                        self.cache_max_size == old(self).cache_max_size,
                        self.cache_stats == old(self).cache_stats,
                    decreases count - i,
                {
                    let key = Self::virtual_key_of(node_id.as_str(), i);
                    let h = self.hash_key(key.as_str());
                    self.drop_virtual_node(h);
                    proof {
                        assert forall|x: u64| #[trigger] vnode_at(self.virtual_nodes@, x) == if is_virtual_hash_of(
                            node_id@,
                            (i + 1) as nat,
                            x,
                        ) {
                            None
                        } else {
                            vnode_at(old_vn, x)
                        } by {
                            if x == h {
                                assert(ring_hash(virtual_key(node_id@, i as nat)) == x);
                            } else if is_virtual_hash_of(node_id@, (i + 1) as nat, x) {
                                let j = choose|j: nat| j < i + 1 && #[trigger] ring_hash(virtual_key(node_id@, j)) == x;
                                assert(j != i);
                                assert(is_virtual_hash_of(node_id@, i as nat, x));
                            } else {
                                assert(!is_virtual_hash_of(node_id@, i as nat, x)) by {
                                    if is_virtual_hash_of(node_id@, i as nat, x) {
                                        let j = choose|j: nat| j < i && #[trigger] ring_hash(virtual_key(node_id@, j)) == x;
                                        assert(j < i + 1);
                                    }
                                }
                            }
                        }
                    }
                    i = i + 1;
                }
                self.routing_cache.clear();
            },
        }
    }

    /// The position in the routing cache of `key`, if it is cached.
    fn cache_index(&self, key: &str) -> (r: Option<usize>)
        ensures
            r.is_none() ==> forall|i: int| 0 <= i < self.routing_cache@.len() ==> (
            #[trigger] self.routing_cache@[i]).0@ != key@,
            r.is_some() ==> r.unwrap() < self.routing_cache@.len() && self.routing_cache@[r.unwrap() as int].0@
                == key@,
    {
        let mut i: usize = 0;
        while i < self.routing_cache.len()
            invariant
                i <= self.routing_cache@.len(),
                forall|j: int| 0 <= j < i ==> (#[trigger] self.routing_cache@[j]).0@ != key@,
            decreases self.routing_cache.len() - i,
        {
            if str_equal(self.routing_cache[i].0.as_str(), key) {
                return Some(i);
            }
            i = i + 1;
        }
        None
    }

    /// Caches the lookup `key` -> `node_id`; a full cache first drops its
    /// oldest tenth.
    fn cache_routing_result(&mut self, key: String, node_id: NodeId)
        requires
            old(self).routing_cache@.len() <= old(self).cache_max_size,
            old(self).cache_max_size == ROUTING_CACHE_CAPACITY,
        ensures
            final(self).routing_cache@ == cache_after_insert(old(self).routing_cache@, (key, node_id)),
            final(self).virtual_nodes == old(self).virtual_nodes,
            final(self).node_weights == old(self).node_weights,
            final(self).virtual_node_count == old(self).virtual_node_count,
            final(self).cache_max_size == old(self).cache_max_size,
            final(self).cache_stats == old(self).cache_stats,
    {
        if self.routing_cache.len() >= self.cache_max_size {
            let kept = self.routing_cache.split_off(self.cache_max_size / 10);
            self.routing_cache = kept;
        }
        self.routing_cache.push((key, node_id));
    }

    /// The node that owns `key`: the first virtual node at or after the key's
    /// hash, around to the first. Answers come from the cache when the key was
    /// looked up since the ring last changed, and are the same either way.
    pub fn get_node(&mut self, key: &str) -> (r: Option<NodeId>)
        requires
            old(self).wf(),
            old(self).counters().total_requests < u64::MAX,
        ensures
            final(self).wf(),
            match r {
                Some(n) => ring_owner(old(self).ring(), ring_hash(key@)) == Some(n@),
                None => ring_owner(old(self).ring(), ring_hash(key@)).is_none(),
            },
            final(self).ring() == old(self).ring(),
            final(self).weights() == old(self).weights(),
            final(self).per_weight() == old(self).per_weight(),
            cached(old(self).cache(), key@).is_some() ==> final(self).cache() == old(self).cache()
                && final(self).counters().hits == old(self).counters().hits + 1
                && final(self).counters().misses == old(self).counters().misses,
            cached(old(self).cache(), key@).is_none() ==> final(self).counters().hits == old(self).counters().hits
                && final(self).counters().misses == old(self).counters().misses + 1,
            cached(old(self).cache(), key@).is_none() && r.is_some() ==> final(self).cache() == cache_after_insert(
                old(self).cache(),
                final(self).cache().last(),
            ) && final(self).cache().last().0@ == key@ && final(self).cache().last().1@ == r.unwrap()@,
            r.is_none() ==> final(self).cache() == old(self).cache(),
            final(self).counters().total_requests == old(self).counters().total_requests + 1,
    {
        let ghost c0 = self.routing_cache@;
        match self.cache_index(key) {
            Some(k) => {
                let node = self.routing_cache[k].1.clone();
                self.cache_stats.record_hit();
                proof {
                    assert(c0[k as int].0@ == key@);
                    let c = choose|c: int| 0 <= c < c0.len() && (#[trigger] c0[c]).0@ == key@;
                    if c != k {
                        if c < k {
                            assert(c0[c].0@ != c0[k as int].0@);
                        } else {
                            assert(c0[k as int].0@ != c0[c].0@);
                        }
                    }
                }
                return Some(node);
            },
            None => {
                proof {
                    assert(!exists|c: int| 0 <= c < c0.len() && (#[trigger] c0[c]).0@ == key@);
                }
            },
        }
        self.cache_stats.record_miss();
        if self.virtual_nodes.len() == 0 {
            return None;
        }
        let h = self.hash_key(key);
        let i = self.split_index(h);
        let idx = if i < self.virtual_nodes.len() { i } else { 0 };
        let node = self.virtual_nodes[idx].1.clone();
        proof {
            let vn = self.virtual_nodes@;
            let c = choose|c: int| splits_at(vn, h, c);
            lemma_split_unique(vn, h, c, i as int);
            assert(ring_owner(vn, h) == Some(node@));
        }
        self.cache_routing_result(String::from_str(key), node.clone());
        proof {
            let vn = self.virtual_nodes@;
            let c1 = self.routing_cache@;
            assert forall|a: int, b: int| 0 <= a < b < c1.len() implies (#[trigger] c1[a]).0@ != (
            #[trigger] c1[b]).0@ by {
                if c0.len() >= ROUTING_CACHE_CAPACITY {
                    if b < c1.len() - 1 {
                        assert(c0[a + ROUTING_CACHE_EVICTION].0@ != c0[b + ROUTING_CACHE_EVICTION].0@);
                    } else {
                        assert(c1[a] == c0[a + ROUTING_CACHE_EVICTION]);
                    }
                } else {
                    if b < c1.len() - 1 {
                        assert(c0[a].0@ != c0[b].0@);
                    } else {
                        assert(c1[a] == c0[a]);
                    }
                }
            }
            assert forall|a: int| 0 <= a < c1.len() implies ring_owner(vn, ring_hash((#[trigger] c1[a]).0@))
                == Some(c1[a].1@) by {
                if a < c1.len() - 1 {
                    if c0.len() >= ROUTING_CACHE_CAPACITY {
                        assert(c1[a] == c0[a + ROUTING_CACHE_EVICTION]);
                    } else {
                        assert(c1[a] == c0[a]);
                    }
                }
            }
        }
        Some(node)
    }

    /// The sizes and cache counters of the ring.
    pub fn get_stats(&self) -> (s: RingStats)
        ensures
            s.virtual_nodes_count == self.ring().len(),
            s.physical_nodes_count == self.weights().len(),
            s.cache_size == self.cache().len(),
            s.cache_hits == self.counters().hits,
            s.cache_misses == self.counters().misses,
            s.cache_total_requests == self.counters().total_requests,
    {
        RingStats {
            virtual_nodes_count: self.virtual_nodes.len(),
            physical_nodes_count: self.node_weights.len(),
            cache_size: self.routing_cache.len(),
            cache_hits: self.cache_stats.hits,
            cache_misses: self.cache_stats.misses,
            cache_total_requests: self.cache_stats.total_requests,
        }
    }
}


/// Whether a virtual node stands at hash `x`.
pub open spec fn has_hash(vn: Seq<(u64, NodeId)>, x: u64) -> bool {
    exists|d: int| 0 <= d < vn.len() && (#[trigger] vn[d]).0 == x
}

/// A sorted ring splits at every position.
proof fn lemma_split_exists(vn: Seq<(u64, NodeId)>, h: u64)
    requires
        ring_sorted(vn),
    ensures
        exists|i: int| splits_at(vn, h, i),
    decreases vn.len(),
{
    if vn.len() == 0 {
        assert(splits_at(vn, h, 0));
    } else {
        let p = vn.drop_last();
        assert forall|a: int, b: int| 0 <= a < b < p.len() implies (#[trigger] p[a]).0 < (#[trigger] p[b]).0 by {
            assert(vn[a].0 < vn[b].0);
        }
        lemma_split_exists(p, h);
        let j = choose|j: int| splits_at(p, h, j);
        let n = vn.len() - 1;
        if vn[n].0 < h {
            assert forall|k: int| 0 <= k < vn.len() implies (#[trigger] vn[k]).0 < h by {
                if k < n {
                    assert(vn[k].0 < vn[n].0);
                }
            }
            assert(splits_at(vn, h, vn.len() as int));
        } else {
            assert forall|k: int| 0 <= k < j implies (#[trigger] vn[k]).0 < h by {
                assert(p[k].0 < h);
            }
            assert forall|k: int| j <= k < vn.len() implies (#[trigger] vn[k]).0 >= h by {
                if k < n {
                    assert(p[k].0 >= h);
                }
            }
            assert(splits_at(vn, h, j));
        }
    }
}

/// The consistent-hashing law: adding a node to the ring moves keys only onto
/// that node. When `after` is `before` with the first `count` virtual nodes of
/// `node` placed on it (as `add_node` leaves it), every key is owned in `after`
/// either by its owner in `before` or by `node`.
pub proof fn lemma_adding_a_node_moves_keys_only_to_it(
    before: Seq<(u64, NodeId)>,
    after: Seq<(u64, NodeId)>,
    node: Seq<char>,
    count: nat,
    key: Seq<char>,
)
    requires
        ring_sorted(before),
        ring_sorted(after),
        forall|x: u64| #[trigger] vnode_at(after, x) == if is_virtual_hash_of(node, count, x) {
            Some(node)
        } else {
            vnode_at(before, x)
        },
    ensures
        ring_owner(after, ring_hash(key)) == ring_owner(before, ring_hash(key)) || ring_owner(
            after,
            ring_hash(key),
        ) == Some(node),
{
    let h = ring_hash(key);
    let o = before;
    let n = after;
    // every hash of `before` stands in `after`
    assert forall|k: int| 0 <= k < o.len() implies has_hash(n, (#[trigger] o[k]).0) by {
        lemma_vnode_at_index(o, k);
        assert(vnode_at(n, o[k].0).is_some());
    }
    if n.len() == 0 {
        if o.len() > 0 {
            assert(has_hash(n, o[0].0));
        }
    } else {
        lemma_split_exists(n, h);
        let i = choose|i: int| splits_at(n, h, i);
        let ow = if i < n.len() { i } else { 0 };
        let x = n[ow].0;
        lemma_vnode_at_index(n, ow);
        if n[ow].1@ != node {
            assert(!is_virtual_hash_of(node, count, x));
            assert(vnode_at(o, x) == Some(n[ow].1@));
            let k = choose|k: int| 0 <= k < o.len() && (#[trigger] o[k]).0 == x;
            lemma_vnode_at_index(o, k);
            lemma_split_exists(o, h);
            let c = choose|c: int| splits_at(o, h, c);
            if i < n.len() {
                assert forall|j: int| 0 <= j < k implies (#[trigger] o[j]).0 < h by {
                    assert(o[j].0 < o[k].0);
                    assert(has_hash(n, o[j].0));
                    let d = choose|d: int| 0 <= d < n.len() && (#[trigger] n[d]).0 == o[j].0;
                    if d >= i {
                        if d > i {
                            assert(n[i].0 < n[d].0);
                        }
                    }
                }
                assert forall|j: int| k <= j < o.len() implies (#[trigger] o[j]).0 >= h by {
                    if k < j {
                        assert(o[k].0 < o[j].0);
                    }
                }
                assert(splits_at(o, h, k));
                lemma_split_unique(o, h, c, k);
            } else {
                assert forall|j: int| 0 <= j < o.len() implies (#[trigger] o[j]).0 < h by {
                    assert(has_hash(n, o[j].0));
                    let d = choose|d: int| 0 <= d < n.len() && (#[trigger] n[d]).0 == o[j].0;
                    assert(n[d].0 < h);
                }
                assert(splits_at(o, h, o.len() as int));
                lemma_split_unique(o, h, c, o.len() as int);
                assert(has_hash(n, o[0].0));
                let d0 = choose|d: int| 0 <= d < n.len() && (#[trigger] n[d]).0 == o[0].0;
                if d0 > 0 {
                    assert(n[0].0 < n[d0].0);
                }
                if k > 0 {
                    assert(o[0].0 < o[k].0);
                }
                assert(k == 0);
            }
        }
    }
}


/// How keys are spread over shards.
#[derive(Clone, Copy, Debug, PartialEq, Eq, Structural)]
pub enum HashAlgorithm {
    /// The key's hash modulo the shard count.
    SimpleHash,
    /// Through the node that owns the key on the hash ring.
    ConsistentHash,
    /// Equal ranges of the hash space.
    RangeHash,
}

/// Settings of sharding.
#[derive(Clone, Copy, Debug)]
pub struct ShardConfig {
    pub shard_count: u32,
    pub replication_factor: usize,
    pub hash_algorithm: HashAlgorithm,
    /// Bytes.
    pub max_shard_size_bytes: u64,
    pub max_vectors_per_shard: u64,
}

impl Default for ShardConfig {
    /// 256 shards with 3 replicas over the hash ring, at most 1 GiB and a
    /// million vectors per shard.
    fn default() -> (c: Self)
        ensures
            c.shard_count == 256,
            c.replication_factor == 3,
            c.hash_algorithm == HashAlgorithm::ConsistentHash,
            c.max_shard_size_bytes == 1024 * 1024 * 1024,
            c.max_vectors_per_shard == 1_000_000,
    {
        ShardConfig {
            shard_count: 256,
            replication_factor: 3,
            hash_algorithm: HashAlgorithm::ConsistentHash,
            max_shard_size_bytes: 1024 * 1024 * 1024,
            max_vectors_per_shard: 1_000_000,
        }
    }
}

/// A planned move of a shard between nodes.
#[derive(Debug)]
pub struct ShardMigration {
    pub shard_id: u32,
    pub from_node: NodeId,
    pub to_node: NodeId,
    pub reason: String,
    /// Bytes.
    pub estimated_size: u64,
    /// Seconds.
    pub estimated_duration: u64,
}

/// The width of each shard's hash range when `count` shards share the space.
pub open spec fn range_width(count: u32) -> int {
    u64::MAX as int / count as int
}

/// The hash range of shard `id` of `count`: equal ranges, the last one
/// reaching the top of the hash space.
pub open spec fn layout_range(count: u32, id: u32) -> ShardRange {
    ShardRange {
        start_hash: (id * range_width(count)) as u64,
        end_hash: if id == count - 1 {
            u64::MAX
        } else {
            ((id + 1) * range_width(count) - 1) as u64
        },
    }
}

/// The names of the nodes.
pub open spec fn node_names(nodes: Seq<NodeId>) -> Seq<Seq<char>> {
    nodes.map_values(|n: NodeId| n@)
}

/// The replicas of shard `id` among the first `k` candidates: the nodes that
/// follow its primary, one per step, leaving out those equal to the primary.
pub open spec fn layout_replicas(nodes: Seq<Seq<char>>, id: int, k: nat) -> Seq<Seq<char>>
    decreases k,
{
    if k == 0 {
        Seq::empty()
    } else {
        let prev = layout_replicas(nodes, id, (k - 1) as nat);
        let candidate = nodes[(id + k) % nodes.len() as int];
        if candidate != nodes[id % nodes.len() as int] {
            prev.push(candidate)
        } else {
            prev
        }
    }
}

proof fn lemma_range_bounds(count: u32, id: u32)
    requires
        count > 0,
        id < count,
    ensures
        0 < range_width(count),
        1 <= (id + 1) * range_width(count) <= u64::MAX,
        id * range_width(count) <= u64::MAX,
{
    let w = range_width(count);
    assert(w > 0) by (nonlinear_arith)
        requires
            w == u64::MAX as int / count as int,
            0 < count <= u32::MAX,
    ;
    assert(w * count <= u64::MAX) by (nonlinear_arith)
        requires
            w == u64::MAX as int / count as int,
            count > 0,
    ;
    assert((id + 1) * w <= count * w) by (nonlinear_arith)
        requires
            id + 1 <= count,
            w >= 0,
    ;
    assert(id * w <= (id + 1) * w) by (nonlinear_arith)
        requires
            w >= 0,
    ;
    assert((id + 1) * w >= 1) by (nonlinear_arith)
        requires
            w >= 1,
            id >= 0,
    ;
}

/// The initial layout of `shard_count` shards over `cluster_nodes`: shard `s`
/// owns the `s`-th equal range of the hash space, its primary is node
/// `s mod n`, and its replicas are the `replication_factor` nodes that follow,
/// less those equal to the primary.
pub fn initial_shard_layout(config: &ShardConfig, cluster_nodes: &Vec<NodeId>) -> (r: Vec<ShardInfo>)
    requires
        config.shard_count > 0,
        cluster_nodes@.len() > 0,
        config.shard_count + config.replication_factor <= usize::MAX,
    ensures
        r@.len() == config.shard_count,
        forall|s: int|
            0 <= s < r@.len() ==> {
                let info = #[trigger] r@[s];
                &&& info.id == s
                &&& info.primary_node@ == node_names(cluster_nodes@)[s % cluster_nodes@.len() as int]
                &&& node_names(info.replica_nodes@) == layout_replicas(
                    node_names(cluster_nodes@),
                    s,
                    config.replication_factor as nat,
                )
                &&& info.state == ShardState::Active
                &&& info.range == layout_range(config.shard_count, s as u32)
            },
{
    let count = config.shard_count;
    let n = cluster_nodes.len();
    let ghost names = node_names(cluster_nodes@);
    let width: u64 = u64::MAX / (count as u64);
    let mut r: Vec<ShardInfo> = Vec::new();
    let mut shard_id: u32 = 0;
    while shard_id < count
        invariant
            count == config.shard_count,
            n == cluster_nodes@.len(),
            n > 0,
            names == node_names(cluster_nodes@),
            width == range_width(count),
            count + config.replication_factor <= usize::MAX,
            shard_id <= count,
            r@.len() == shard_id,
            forall|s: int|
                0 <= s < r@.len() ==> {
                    let info = #[trigger] r@[s];
                    &&& info.id == s
                    &&& info.primary_node@ == names[s % n as int]
                    &&& node_names(info.replica_nodes@) == layout_replicas(
                        names,
                        s,
                        config.replication_factor as nat,
                    )
                    &&& info.state == ShardState::Active
                    &&& info.range == layout_range(count, s as u32)
                },
        decreases count - shard_id,
    {
        proof { lemma_range_bounds(count, shard_id); }
        let start_hash = shard_id as u64 * width;
        let end_hash = if shard_id == count - 1 {
            u64::MAX
        } else {
            (shard_id + 1) as u64 * width - 1
        };
        let p = shard_id as usize % n;
        let primary = cluster_nodes[p].clone();
        let mut replicas: Vec<NodeId> = Vec::new();
        let mut i: usize = 1;
        while i <= config.replication_factor
            invariant
                n == cluster_nodes@.len(),
                n > 0,
                names == node_names(cluster_nodes@),
                shard_id < count,
                count + config.replication_factor <= usize::MAX,
                1 <= i <= config.replication_factor + 1,
                primary@ == names[shard_id as int % n as int],
                node_names(replicas@) == layout_replicas(names, shard_id as int, (i - 1) as nat),
            decreases config.replication_factor + 1 - i,
        {
            let idx = (shard_id as usize + i) % n;
            proof {
                assert(names[idx as int] == cluster_nodes@[idx as int]@);
            }
            if !str_equal(cluster_nodes[idx].as_str(), primary.as_str()) {
                replicas.push(cluster_nodes[idx].clone());
            }
            proof {
                assert(node_names(replicas@) =~= layout_replicas(names, shard_id as int, i as nat));
            }
            i = i + 1;
        }
        proof {
            assert(names[p as int] == cluster_nodes@[p as int]@);
        }
        r.push(ShardInfo {
            id: shard_id,
            primary_node: primary,
            replica_nodes: replicas,
            state: ShardState::Active,
            range: ShardRange { start_hash, end_hash },
        });
        shard_id = shard_id + 1;
    }
    r
}

/// The shard of a key under `algorithm` with `count` shards, given the hash
/// ring (positions on it taken from the unmixed hash of the key).
pub open spec fn shard_for_key(
    algorithm: HashAlgorithm,
    count: u32,
    ring: Seq<(u64, NodeId)>,
    key: Seq<char>,
) -> u32 {
    let h = default_str_hash(key);
    match algorithm {
        HashAlgorithm::SimpleHash => (h % (count as u64)) as u32,
        HashAlgorithm::ConsistentHash => match ring_owner(ring, h) {
            Some(node) => (default_str_hash(node) % (count as u64)) as u32,
            None => (h % (count as u64)) as u32,
        },
        HashAlgorithm::RangeHash => {
            let q = h as int / range_width(count);
            if q < count - 1 {
                q as u32
            } else {
                (count - 1) as u32
            }
        },
    }
}

/// The shard that holds `key`.
pub fn get_shard_id(config: &ShardConfig, ring: &ConsistentHashRing, key: &str) -> (s: u32)
    requires
        config.shard_count > 0,
        ring.wf(),
    ensures
        s == shard_for_key(config.hash_algorithm, config.shard_count, ring.ring(), key@),
        s < config.shard_count,
{
    let count = config.shard_count as u64;
    let h = std_hash_str(key);
    match config.hash_algorithm {
        HashAlgorithm::SimpleHash => (h % count) as u32,
        HashAlgorithm::ConsistentHash => {
            match ring.owner_at(h) {
                Some(node) => (std_hash_str(node.as_str()) % count) as u32,
                None => (h % count) as u32,
            }
        },
        HashAlgorithm::RangeHash => {
            proof { lemma_range_bounds(config.shard_count, 0); }
            let width = u64::MAX / count;
            let q = h / width;
            if q < count - 1 {
                q as u32
            } else {
                (count - 1) as u32
            }
        },
    }
}

impl ConsistentHashRing {
    /// The node that owns position `h`, looked up without the cache.
    pub fn owner_at(&self, h: u64) -> (r: Option<NodeId>)
        requires
            self.wf(),
        ensures
            match r {
                Some(n) => ring_owner(self.ring(), h) == Some(n@),
                None => ring_owner(self.ring(), h).is_none(),
            },
    {
        if self.virtual_nodes.len() == 0 {
            return None;
        }
        let i = self.split_index(h);
        let idx = if i < self.virtual_nodes.len() { i } else { 0 };
        let node = self.virtual_nodes[idx].1.clone();
        proof {
            let vn = self.virtual_nodes@;
            let c = choose|c: int| splits_at(vn, h, c);
            lemma_split_unique(vn, h, c, i as int);
        }
        Some(node)
    }
}

/// The ring as hashes and node names.
pub open spec fn ring_view(vn: Seq<(u64, NodeId)>) -> Seq<(u64, Seq<char>)> {
    vn.map_values(|e: (u64, NodeId)| (e.0, e.1@))
}

/// Two sorted rings that place the same node at every hash are the same ring.
proof fn lemma_sorted_rings_equal(a: Seq<(u64, NodeId)>, b: Seq<(u64, NodeId)>)
    requires
        ring_sorted(a),
        ring_sorted(b),
        forall|x: u64| #[trigger] vnode_at(a, x) == vnode_at(b, x),
    ensures
        ring_view(a) == ring_view(b),
    decreases a.len(),
{
    if a.len() == 0 || b.len() == 0 {
        if b.len() > 0 {
            lemma_vnode_at_index(b, 0);
            assert(vnode_at(a, b[0].0) is None);
        }
        if a.len() > 0 {
            lemma_vnode_at_index(a, 0);
            assert(vnode_at(b, a[0].0) is None);
        }
        assert(ring_view(a) =~= ring_view(b));
    } else {
        let na = a.len() - 1;
        let nb = b.len() - 1;
        lemma_vnode_at_index(a, na);
        lemma_vnode_at_index(b, nb);
        let h = a[na].0;
        assert(vnode_at(b, h) is Some);
        let j = choose|j: int| 0 <= j < b.len() && (#[trigger] b[j]).0 == h;
        if j < nb {
            assert(b[j].0 < b[nb].0);
        }
        assert(vnode_at(a, b[nb].0) is Some);
        let k = choose|k: int| 0 <= k < a.len() && (#[trigger] a[k]).0 == b[nb].0;
        if k < na {
            assert(a[k].0 < a[na].0);
        }
        assert(b[nb].0 == h);
        let a2 = a.drop_last();
        let b2 = b.drop_last();
        assert forall|x: u64| #[trigger] vnode_at(a2, x) == vnode_at(b2, x) by {
            if x == h {
                assert forall|i: int| 0 <= i < a2.len() implies (#[trigger] a2[i]).0 != x by {
                    assert(a[i].0 < a[na].0);
                }
                assert forall|i: int| 0 <= i < b2.len() implies (#[trigger] b2[i]).0 != x by {
                    assert(b[i].0 < b[nb].0);
                }
            } else {
                if exists|i: int| 0 <= i < a2.len() && (#[trigger] a2[i]).0 == x {
                    let c = choose|i: int| 0 <= i < a2.len() && (#[trigger] a2[i]).0 == x;
                    lemma_vnode_at_index(a2, c);
                    lemma_vnode_at_index(a, c);
                    assert(vnode_at(b, x) is Some);
                    let d = choose|i: int| 0 <= i < b.len() && (#[trigger] b[i]).0 == x;
                    assert(d != nb);
                    lemma_vnode_at_index(b2, d);
                    lemma_vnode_at_index(b, d);
                } else if exists|i: int| 0 <= i < b2.len() && (#[trigger] b2[i]).0 == x {
                    let d = choose|i: int| 0 <= i < b2.len() && (#[trigger] b2[i]).0 == x;
                    lemma_vnode_at_index(b, d);
                    assert(vnode_at(a, x) is Some);
                    let c = choose|i: int| 0 <= i < a.len() && (#[trigger] a[i]).0 == x;
                    assert(c != na);
                    assert(a2[c].0 == x);
                }
            }
        }
        lemma_sorted_rings_equal(a2, b2);
        assert(ring_view(a) =~= ring_view(a2).push((h, a[na].1@)));
        assert(ring_view(b) =~= ring_view(b2).push((h, b[nb].1@)));
    }
}

/// Adding a node and then removing it gives the ring back: when `r1` is `r0`
/// after `add_node(node, weight)` and `r2` is `r1` after `remove_node(node)`
/// (each as its contract states it), `node` was not on `r0`, and none of its
/// virtual hashes was taken on `r0`, then `r2` holds the virtual nodes, in
/// order, and the weights of `r0`.
pub proof fn lemma_add_then_remove_restores_the_ring(
    r0: ConsistentHashRing,
    r1: ConsistentHashRing,
    r2: ConsistentHashRing,
    node: Seq<char>,
    weight: u32,
)
    requires
        r0.wf(),
        r2.wf(),
        weight_of(r0.weights(), node) is None,
        forall|x: u64|
            is_virtual_hash_of(node, (r0.per_weight() * weight) as nat, x) ==> #[trigger] vnode_at(r0.ring(), x) is None,
        forall|x: u64| #[trigger] vnode_at(r1.ring(), x) == if is_virtual_hash_of(
            node,
            (r0.per_weight() * weight) as nat,
            x,
        ) {
            Some(node)
        } else {
            vnode_at(r0.ring(), x)
        },
        forall|n: Seq<char>| #[trigger] weight_of(r1.weights(), n) == if n == node {
            Some(weight)
        } else {
            weight_of(r0.weights(), n)
        },
        r1.per_weight() == r0.per_weight(),
        weight_of(r1.weights(), node).is_some() ==> {
            &&& forall|x: u64| #[trigger] vnode_at(r2.ring(), x) == if is_virtual_hash_of(
                node,
                (r1.per_weight() * weight_of(r1.weights(), node).unwrap()) as nat,
                x,
            ) {
                None
            } else {
                vnode_at(r1.ring(), x)
            }
            &&& forall|n: Seq<char>| #[trigger] weight_of(r2.weights(), n) == if n == node {
                None
            } else {
                weight_of(r1.weights(), n)
            }
        },
    ensures
        ring_view(r2.ring()) == ring_view(r0.ring()),
        forall|n: Seq<char>| #[trigger] weight_of(r2.weights(), n) == weight_of(r0.weights(), n),
{
    assert(weight_of(r1.weights(), node) == Some(weight));
    assert forall|x: u64| #[trigger] vnode_at(r2.ring(), x) == vnode_at(r0.ring(), x) by {
        assert(vnode_at(r1.ring(), x) == vnode_at(r1.ring(), x));
    }
    r0.lemma_wf_facts();
    r2.lemma_wf_facts();
    lemma_sorted_rings_equal(r2.ring(), r0.ring());
    assert forall|n: Seq<char>| #[trigger] weight_of(r2.weights(), n) == weight_of(r0.weights(), n) by {
        assert(weight_of(r1.weights(), n) == weight_of(r1.weights(), n));
    }
}

} // verus!
