//! Identifiers shared by the modules.

use vstd::prelude::*;

verus! {

/// The identifier of a cluster node.
pub type NodeId = String;

/// A Raft term.
pub type Term = u64;

/// A position in the replicated log (1-based; 0 means "none").
pub type LogIndex = u64;

/// The identifier of a shard.
pub type ShardId = u32;


/// The lifecycle state of a shard.
#[derive(Clone, Copy, Debug, PartialEq, Eq, Structural)]
pub enum ShardState {
    Active,
    Migrating,
    Rebalancing,
    Inactive,
}

/// The hash range `[start_hash, end_hash]` that a shard owns.
#[derive(Clone, Copy, Debug, PartialEq, Eq, Structural)]
pub struct ShardRange {
    pub start_hash: u64,
    pub end_hash: u64,
}

/// Where a shard lives: its primary node, its replicas and its hash range.
#[derive(Debug)]
pub struct ShardInfo {
    pub id: ShardId,
    pub primary_node: NodeId,
    pub replica_nodes: Vec<NodeId>,
    pub state: ShardState,
    pub range: ShardRange,
}

/// The health of a cluster node.
#[derive(Clone, Copy, Debug, PartialEq, Eq, Structural)]
pub enum NodeState {
    Healthy,
    Unhealthy,
    Failed,
}

/// The role of a cluster node.
#[derive(Clone, Copy, Debug, PartialEq, Eq, Structural)]
pub enum NodeRole {
    Leader,
    Follower,
    Candidate,
}

/// The counters of a node's load.
#[derive(Clone, Copy, Debug)]
pub struct NodeCounters {
    pub request_count: u64,
    pub vector_count: u64,
}

/// A member of the cluster.
#[derive(Debug)]
pub struct NodeInfo {
    pub id: NodeId,
    pub address: String,
    pub port: u16,
    pub role: NodeRole,
    pub state: NodeState,
    pub counters: NodeCounters,
    /// Seconds since the Unix epoch.
    pub last_heartbeat: u64,
}

} // verus!
