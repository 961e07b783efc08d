//! Vector index settings and the rules that decide when an index is due for
//! optimisation.

use vstd::prelude::*;

verus! {

/// Settings of a vector index.
#[derive(Debug)]
pub struct IndexConfig {
    pub index_type: String,
    pub max_connections: usize,
    pub max_connections_per_layer: usize,
    pub ef_construction: usize,
    pub ef_search: usize,
}

impl Default for IndexConfig {
    /// An HNSW index with 16 connections (8 per layer), a construction
    /// factor of 200 and a search factor of 100.
    fn default() -> (c: Self)
        ensures
            c.index_type@ == "hnsw"@,
            c.max_connections == 16,
            c.max_connections_per_layer == 8,
            c.ef_construction == 200,
            c.ef_search == 100,
    {
        proof { reveal_strlit("hnsw"); }
        IndexConfig {
            index_type: String::from_str("hnsw"),
            max_connections: 16,
            max_connections_per_layer: 8,
            ef_construction: 200,
            ef_search: 100,
        }
    }
}

/// The size of an index.
#[derive(Debug)]
pub struct IndexStats {
    pub vector_count: usize,
    pub dimension: usize,
    pub index_type: String,
    /// Bytes.
    pub memory_usage: usize,
}

/// The layout of a Faiss index.
#[derive(Clone, Copy, Debug, PartialEq, Eq, Structural)]
pub enum FaissIndexType {
    Flat,
    IvfFlat { nlist: usize },
    IvfPq { nlist: usize, m: usize, nbits: usize },
    Hnsw { m: usize },
}

/// When an index is due for optimisation.
#[derive(Clone, Copy, Debug, PartialEq, Eq, Structural)]
pub enum OptimizationStrategy {
    /// Rebuild on a schedule; the schedule is kept elsewhere, so this rule
    /// never fires by itself.
    PeriodicRebuild { interval_seconds: u64 },
    /// Once the index holds `threshold` vectors.
    VectorCountBased { threshold: usize },
    /// Once the index takes `threshold_mb` whole mebibytes.
    MemoryBased { threshold_mb: usize },
}

/// Whether `strategy` calls for optimising an index of `stats`.
pub open spec fn strategy_fires(strategy: OptimizationStrategy, stats: IndexStats) -> bool {
    match strategy {
        OptimizationStrategy::VectorCountBased { threshold } => stats.vector_count >= threshold,
        OptimizationStrategy::MemoryBased { threshold_mb } => stats.memory_usage as nat / 1048576nat >= threshold_mb,
        OptimizationStrategy::PeriodicRebuild { .. } => false,
    }
}

/// The rules that decide when an index is optimised.
#[derive(Debug)]
pub struct IndexOptimizer {
    optimization_strategies: Vec<OptimizationStrategy>,
}

impl IndexOptimizer {
    /// The rules, in order.
    pub closed spec fn strategies(&self) -> Seq<OptimizationStrategy> {
        self.optimization_strategies@
    }

    /// The default rules: at 10000 vectors, or at 100 MiB.
    pub fn new() -> (o: IndexOptimizer)
        ensures
            o.strategies() == seq![
                OptimizationStrategy::VectorCountBased { threshold: 10000 },
                OptimizationStrategy::MemoryBased { threshold_mb: 100 },
            ],
    {
        let mut v: Vec<OptimizationStrategy> = Vec::new();
        v.push(OptimizationStrategy::VectorCountBased { threshold: 10000 });
        v.push(OptimizationStrategy::MemoryBased { threshold_mb: 100 });
        proof {
            assert(v@ =~= seq![
                OptimizationStrategy::VectorCountBased { threshold: 10000 },
                OptimizationStrategy::MemoryBased { threshold_mb: 100 },
            ]);
        }
        IndexOptimizer { optimization_strategies: v }
    }

    /// Adds a rule after the others.
    pub fn add_strategy(&mut self, strategy: OptimizationStrategy)
        ensures
            final(self).strategies() == old(self).strategies().push(strategy),
    {
        self.optimization_strategies.push(strategy);
    }

    /// Whether some rule calls for optimising an index of `stats`.
    pub fn should_optimize(&self, stats: &IndexStats) -> (r: bool)
        ensures
            r == exists|i: int| 0 <= i < self.strategies().len() && strategy_fires(#[trigger] self.strategies()[i], *stats),
    {
        let mut i: usize = 0;
        while i < self.optimization_strategies.len()
            invariant
                i <= self.optimization_strategies@.len(),
                forall|j: int| 0 <= j < i ==> !strategy_fires(#[trigger] self.optimization_strategies@[j], *stats),
            decreases self.optimization_strategies.len() - i,
        {
            match self.optimization_strategies[i] {
                OptimizationStrategy::VectorCountBased { threshold } => {
                    if stats.vector_count >= threshold {
                        assert(strategy_fires(self.strategies()[i as int], *stats));
                        return true;
                    }
                },
                OptimizationStrategy::MemoryBased { threshold_mb } => {
                    let memory_mb = stats.memory_usage / (1024 * 1024);
                    if memory_mb >= threshold_mb {
                        assert(strategy_fires(self.strategies()[i as int], *stats));
                        return true;
                    }
                },
                OptimizationStrategy::PeriodicRebuild { .. } => {},
            }
            i = i + 1;
        }
        false
    }
}

/// Adding a rule never withdraws a call for optimisation: whatever the
/// optimizer asked for before, it still asks for with one more rule.
pub proof fn lemma_adding_strategy_keeps_calls(
    before: Seq<OptimizationStrategy>,
    strategy: OptimizationStrategy,
    stats: IndexStats,
)
    ensures
        (exists|i: int| 0 <= i < before.len() && strategy_fires(#[trigger] before[i], stats)) ==> exists|i: int|
            0 <= i < before.push(strategy).len() && strategy_fires(#[trigger] before.push(strategy)[i], stats),
{
    if exists|i: int| 0 <= i < before.len() && strategy_fires(#[trigger] before[i], stats) {
        let i = choose|i: int| 0 <= i < before.len() && strategy_fires(#[trigger] before[i], stats);
        assert(before.push(strategy)[i] == before[i]);
    }
}

} // verus!
