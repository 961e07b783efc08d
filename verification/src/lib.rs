//! Grape vector database: the verified core of an embedded and distributed
//! vector store (access control, Raft consensus, sharding, replication,
//! failover and request routing).

pub mod clock;
pub mod config;
pub mod distributed;
pub mod embedded;
pub mod embeddings;
pub mod errors;
pub mod filter_documents;
pub mod filter_engine;
pub mod filter_index;
pub mod filtering;
pub mod enterprise;
pub mod hybrid;
pub mod index;
pub mod metrics;
pub mod random;
pub mod sql_filter;
pub mod text;
pub mod types;
pub mod vector_slots;
