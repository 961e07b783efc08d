//! The client side of node-to-node requests: the messages, their URLs,
//! the client's settings, and when a failed request is tried again.

use crate::clock::chrono_timestamp_now;
use crate::text::concat;
use vstd::prelude::*;

verus! {

/// Why a request to another node failed.
#[derive(Debug)]
pub enum NetworkError {
    RequestFailed(String),
    MaxRetriesExceeded,
    Timeout,
    NodeUnreachable,
}

/// The text of a network error.
pub open spec fn network_error_text(e: NetworkError) -> Seq<char> {
    match e {
        NetworkError::RequestFailed(m) => "请求失败: "@ + m@,
        NetworkError::MaxRetriesExceeded => "超过最大重试次数"@,
        NetworkError::Timeout => "连接超时"@,
        NetworkError::NodeUnreachable => "节点不可达"@,
    }
}

impl NetworkError {
    /// The text of this error.
    pub fn message(&self) -> (s: String)
        ensures
            s@ == network_error_text(*self),
    {
        match self {
            NetworkError::RequestFailed(m) => concat("请求失败: ", m.as_str()),
            NetworkError::MaxRetriesExceeded => String::from_str("超过最大重试次数"),
            NetworkError::Timeout => String::from_str("连接超时"),
            NetworkError::NodeUnreachable => String::from_str("节点不可达"),
        }
    }
}

/// A stored vector: its id, its components (as the bit patterns of 32-bit
/// floats) and its payload fields.
#[derive(Debug, Clone)]
pub struct Point {
    pub id: String,
    pub vector_bits: Vec<u32>,
    pub payload: Vec<(String, String)>,
}

/// A heartbeat.
#[derive(Debug)]
pub struct HeartbeatRequest {
    pub sender_id: String,
    /// Seconds since the Unix epoch.
    pub timestamp: i64,
}

/// Data to replicate.
#[derive(Debug)]
pub struct ReplicationRequest {
    pub data: Vec<u8>,
    pub sender_id: String,
    pub timestamp: i64,
}

/// The answer to a replication request.
#[derive(Debug)]
pub struct ReplicationResponse {
    pub success: bool,
    pub bytes_received: usize,
    pub timestamp: i64,
}

/// A vector to insert.
#[derive(Debug)]
pub struct VectorInsertRequest {
    pub point: Point,
    pub sender_id: String,
}

/// The answer to an insertion.
#[derive(Debug)]
pub struct VectorInsertResponse {
    pub success: bool,
    pub point_id: String,
}

/// The answer to a deletion.
#[derive(Debug)]
pub struct VectorDeleteResponse {
    pub success: bool,
    pub point_id: String,
}

/// A shard's data to take over.
#[derive(Debug)]
pub struct ShardMigrationRequest {
    pub shard_data: Vec<u8>,
    pub sender_id: String,
}

/// The answer to a migration.
#[derive(Debug)]
pub struct ShardMigrationResponse {
    pub success: bool,
    pub bytes_received: usize,
}

/// The id under which this node sends its requests.
pub open spec fn local_sender() -> Seq<char> {
    "local_node"@
}

/// A heartbeat stamped with the current time.
pub fn heartbeat_request() -> (r: HeartbeatRequest)
    ensures
        r.sender_id@ == local_sender(),
{
    HeartbeatRequest { sender_id: String::from_str("local_node"), timestamp: chrono_timestamp_now() }
}

/// A request to replicate `data`, stamped with the current time.
pub fn replication_request(data: &[u8]) -> (r: ReplicationRequest)
    ensures
        r.data@ == data@,
        r.sender_id@ == local_sender(),
{
    let mut copy: Vec<u8> = Vec::new();
    let mut i: usize = 0;
    while i < data.len()
        invariant
            i <= data@.len(),
            copy@ == data@.subrange(0, i as int),
        decreases data.len() - i,
    {
        copy.push(data[i]);
        i = i + 1;
        assert(copy@ =~= data@.subrange(0, i as int));
    }
    assert(data@.subrange(0, data@.len() as int) =~= data@);
    ReplicationRequest { data: copy, sender_id: String::from_str("local_node"), timestamp: chrono_timestamp_now() }
}

/// A request to insert `point`.
pub fn vector_insert_request(point: Point) -> (r: VectorInsertRequest)
    ensures
        r.point == point,
        r.sender_id@ == local_sender(),
{
    VectorInsertRequest { point, sender_id: String::from_str("local_node") }
}

/// A request to take over the shard held in `shard_data`.
pub fn shard_migration_request(shard_data: Vec<u8>) -> (r: ShardMigrationRequest)
    ensures
        r.shard_data == shard_data,
        r.sender_id@ == local_sender(),
{
    ShardMigrationRequest { shard_data, sender_id: String::from_str("local_node") }
}

/// The API of a node at `address` ("host:port"): "http://", the address,
/// then `route`.
pub open spec fn node_api_url(address: Seq<char>, route: Seq<char>) -> Seq<char> {
    "http://"@ + address + route
}

/// The URL of `route` (such as "/api/v1/heartbeat") on the node at `address`.
pub fn node_url(address: &str, route: &str) -> (u: String)
    ensures
        u@ == node_api_url(address@, route@),
{
    let mut u = concat("http://", address);
    u.append(route);
    u
}

/// The URL at which the vector `point_id` of the node at `address` is deleted.
pub fn vector_url(address: &str, point_id: &str) -> (u: String)
    ensures
        u@ == node_api_url(address@, "/api/v1/vectors/"@ + point_id@),
{
    let mut u = concat("http://", address);
    u.append("/api/v1/vectors/");
    u.append(point_id);
    u
}

/// Settings of the client: how long one request may take, and how many
/// times a heartbeat or a replication is tried.
#[derive(Debug, Clone, Copy)]
pub struct NetworkClientSettings {
    pub timeout_ms: u64,
    pub retry_attempts: u32,
}

impl NetworkClientSettings {
    /// 10 s per request, 3 tries.
    pub fn new() -> (s: Self)
        ensures
            s.timeout_ms == 10_000,
            s.retry_attempts == 3,
    {
        NetworkClientSettings { timeout_ms: 10_000, retry_attempts: 3 }
    }

    /// These settings with requests allowed `timeout_ms`.
    pub fn with_timeout(self, timeout_ms: u64) -> (s: Self)
        ensures
            s.timeout_ms == timeout_ms,
            s.retry_attempts == self.retry_attempts,
    {
        NetworkClientSettings { timeout_ms, ..self }
    }

    /// These settings with `attempts` tries.
    pub fn with_retry_attempts(self, attempts: u32) -> (s: Self)
        ensures
            s.timeout_ms == self.timeout_ms,
            s.retry_attempts == attempts,
    {
        NetworkClientSettings { retry_attempts: attempts, ..self }
    }
}

/// What follows a failed try.
#[derive(Debug, Clone, Copy, PartialEq, Eq, Structural)]
pub enum RetryStep {
    /// Wait this long, then try again.
    Wait { delay_ms: u64 },
    /// That was the last try: report the failure.
    GiveUp,
}

/// What follows the failure of try `attempt` (from 0) of `retry_attempts`:
/// a wait of `base_delay_ms` times the number of tries made before the
/// next, or, after the last, giving up.
pub fn after_failed_attempt(attempt: u32, retry_attempts: u32, base_delay_ms: u64) -> (s: RetryStep)
    requires
        attempt < retry_attempts,
        base_delay_ms <= u32::MAX,
    ensures
        attempt + 1 < retry_attempts ==> s == (RetryStep::Wait { delay_ms: (base_delay_ms * (attempt + 1)) as u64 }),
        attempt + 1 >= retry_attempts ==> s == RetryStep::GiveUp,
{
    if attempt < retry_attempts - 1 {
        let n: u64 = attempt as u64 + 1;
        assert(base_delay_ms * n <= u32::MAX as int * u32::MAX as int) by (nonlinear_arith)
            requires
                base_delay_ms <= u32::MAX,
                n <= u32::MAX,
        ;
        RetryStep::Wait { delay_ms: base_delay_ms * n }
    } else {
        RetryStep::GiveUp
    }
}

/// The error when a request was never tried because no try is allowed.
pub fn no_attempt_error() -> (e: NetworkError)
    ensures
        e is MaxRetriesExceeded,
{
    NetworkError::MaxRetriesExceeded
}

} // verus!
