//! The distributed layer: consensus, sharding and cluster management.

pub mod cluster;
pub mod cluster_service;
pub mod consensus;
pub mod failover;
pub mod load_balancer;
pub mod network;
pub mod network_client;
pub mod raft;
pub mod replication;
pub mod request_router;
pub mod shard;
pub mod shard_planning;
