//! The embedded database's lifecycle: its states and which of them serve
//! requests, its settings, the health checks and their verdict, and the test
//! for operations still under way before it closes. Times are milliseconds.

use crate::index::IndexConfig;
use crate::text::{concat, decimal, push_decimal};
use std::time::Duration;
use vstd::prelude::*;

verus! {

/// The lifecycle state of the database.
#[derive(Clone, Copy, Debug, PartialEq, Eq, Structural)]
pub enum DatabaseState {
    Initializing,
    Ready,
    Busy,
    Shutting,
    Closed,
}

/// Whether the database serves requests in `state`, and why not.
pub open spec fn readiness(state: DatabaseState) -> Result<(), Seq<char>> {
    match state {
        DatabaseState::Ready => Ok(()),
        DatabaseState::Busy => Ok(()),
        DatabaseState::Initializing => Err("Database is still initializing"@),
        DatabaseState::Shutting => Err("Database is shutting down"@),
        DatabaseState::Closed => Err("Database is closed"@),
    }
}

/// Serves requests when ready or busy; refuses while starting, closing or closed.
pub fn ensure_ready(state: DatabaseState) -> (r: Result<(), String>)
    ensures
        match readiness(state) {
            Ok(()) => r is Ok,
            Err(m) => r matches Err(e) && e@ == m,
        },
{
    proof {
        reveal_strlit("Database is still initializing");
        reveal_strlit("Database is shutting down");
        reveal_strlit("Database is closed");
    }
    match state {
        DatabaseState::Ready => Ok(()),
        DatabaseState::Busy => Ok(()),
        DatabaseState::Initializing => Err(String::from_str("Database is still initializing")),
        DatabaseState::Shutting => Err(String::from_str("Database is shutting down")),
        DatabaseState::Closed => Err(String::from_str("Database is closed")),
    }
}

/// Settings of the embedded database.
#[derive(Debug)]
pub struct EmbeddedConfig {
    pub data_dir: String,
    pub max_memory_mb: Option<usize>,
    pub thread_pool_size: Option<usize>,
    pub startup_timeout_ms: u64,
    pub shutdown_timeout_ms: u64,
    pub enable_warmup: bool,
    pub vector_dimension: usize,
    pub index: IndexConfig,
}

impl Default for EmbeddedConfig {
    /// Data in "./grape_vector_db", 512 MB of memory, the default thread
    /// pool, 30 s to start, 10 s to close, warm-up on, 384 dimensions, the
    /// default index.
    fn default() -> (c: Self)
        ensures
            c.data_dir@ == "./grape_vector_db"@,
            c.max_memory_mb == Some(512usize),
            c.thread_pool_size.is_none(),
            c.startup_timeout_ms == 30000,
            c.shutdown_timeout_ms == 10000,
            c.enable_warmup,
            c.vector_dimension == 384,
            c.index.index_type@ == "hnsw"@,
    {
        proof { reveal_strlit("./grape_vector_db"); }
        EmbeddedConfig {
            data_dir: String::from_str("./grape_vector_db"),
            max_memory_mb: Some(512),
            thread_pool_size: None,
            startup_timeout_ms: 30000,
            shutdown_timeout_ms: 10000,
            enable_warmup: true,
            vector_dimension: 384,
            index: IndexConfig::default(),
        }
    }
}

/// The verdict of one check.
#[derive(Clone, Copy, Debug, PartialEq, Eq, Structural)]
pub enum CheckStatus {
    Healthy,
    Warning,
    Critical,
}

/// One health check.
#[derive(Debug)]
pub struct CheckResult {
    pub name: String,
    pub status: CheckStatus,
    pub message: Option<String>,
    pub duration: Duration,
}

/// The health of the database: healthy when no check is critical.
#[derive(Debug)]
pub struct HealthStatus {
    pub is_healthy: bool,
    pub last_error: Option<String>,
    pub checks: Vec<(String, CheckResult)>,
}

/// Whether no check is critical.
pub open spec fn no_critical(checks: Seq<(String, CheckResult)>) -> bool {
    forall|i: int| 0 <= i < checks.len() ==> (#[trigger] checks[i]).1.status != CheckStatus::Critical
}

/// The storage check: healthy, with the number of vectors stored.
pub fn storage_check(vector_count: u64, duration: Duration) -> (c: CheckResult)
    ensures
        c.name@ == "storage"@,
        c.status == CheckStatus::Healthy,
        c.message matches Some(m) && m@ == "Storage healthy with "@ + decimal(vector_count as nat) + " vectors"@,
        c.duration == duration,
{
    proof {
        reveal_strlit("storage");
    }
    let mut m = String::from_str("Storage healthy with ");
    push_decimal(&mut m, vector_count);
    m.append(" vectors");
    CheckResult { name: String::from_str("storage"), status: CheckStatus::Healthy, message: Some(m), duration }
}

/// The disk check: healthy when the data directory could be read, critical
/// with the reason otherwise.
pub fn disk_check(metadata: Result<(), String>, duration: Duration) -> (c: CheckResult)
    ensures
        c.name@ == "disk"@,
        metadata is Ok ==> c.status == CheckStatus::Healthy && (c.message matches Some(m) && m@
            == "Disk space is adequate"@),
        metadata matches Err(e) ==> c.status == CheckStatus::Critical && (c.message matches Some(m) && m@
            == "Disk check failed: "@ + e@),
        c.duration == duration,
{
    proof {
        reveal_strlit("disk");
        reveal_strlit("Disk space is adequate");
        reveal_strlit("Disk check failed: ");
    }
    match metadata {
        Ok(()) => CheckResult {
            name: String::from_str("disk"),
            status: CheckStatus::Healthy,
            message: Some(String::from_str("Disk space is adequate")),
            duration,
        },
        Err(e) => CheckResult {
            name: String::from_str("disk"),
            status: CheckStatus::Critical,
            message: Some(concat("Disk check failed: ", e.as_str())),
            duration,
        },
    }
}

/// The health that the checks give: healthy when none is critical.
pub fn health_from_checks(checks: Vec<(String, CheckResult)>) -> (h: HealthStatus)
    ensures
        h.is_healthy == no_critical(checks@),
        h.last_error.is_none(),
        h.checks@ == checks@,
{
    let mut healthy = true;
    let mut i: usize = 0;
    while i < checks.len()
        invariant
            i <= checks@.len(),
            healthy == forall|j: int| 0 <= j < i ==> (#[trigger] checks@[j]).1.status != CheckStatus::Critical,
        decreases checks.len() - i,
    {
        if checks[i].1.status == CheckStatus::Critical {
            healthy = false;
        }
        i = i + 1;
    }
    HealthStatus { is_healthy: healthy, last_error: None, checks }
}

/// When health checks are due.
#[derive(Clone, Copy, Debug)]
pub struct HealthChecker {
    pub last_check: u64,
    pub check_interval: u64,
}

impl HealthChecker {
    /// Checks every `check_interval`, the last one at `now`.
    pub fn new(check_interval: u64, now: u64) -> (c: HealthChecker)
        ensures
            c.last_check == now,
            c.check_interval == check_interval,
    {
        HealthChecker { last_check: now, check_interval }
    }

    /// Whether a check is due at `now`: the interval has passed since the
    /// last one (no time passes before it).
    pub fn should_check(&self, now: u64) -> (r: bool)
        ensures
            r == ((if now > self.last_check { now - self.last_check } else { 0 }) >= self.check_interval),
    {
        now.saturating_sub(self.last_check) >= self.check_interval
    }
}

/// Whether operations are still under way: some started and neither
/// succeeded nor failed, or vectors are still indexed, or a tenth of the
/// query cache (the part assumed dirty) is not empty.
pub open spec fn active_operations(total: u64, successful: u64, failed: u64, indexed_vectors: usize, cache_len: usize) -> bool {
    ||| total > successful + failed
    ||| indexed_vectors > 0
    ||| cache_len / 10 > 0
}

/// Whether the database must still wait before closing (see [`active_operations`]).
pub fn has_active_operations(total: u64, successful: u64, failed: u64, indexed_vectors: usize, cache_len: usize) -> (r: bool)
    requires
        successful + failed <= u64::MAX,
    ensures
        r == active_operations(total, successful, failed, indexed_vectors, cache_len),
{
    let pending = total.saturating_sub(successful + failed);
    if pending > 0 {
        return true;
    }
    if indexed_vectors > 0 {
        return true;
    }
    let dirty = cache_len / 10;
    dirty > 0
}

/// Whether the wait for operations before closing has run out: more than
/// `timeout_ms` since `start`.
pub fn shutdown_timed_out(start: u64, now: u64, timeout_ms: u64) -> (r: bool)
    ensures
        r == ((if now > start { now - start } else { 0 }) > timeout_ms),
{
    now.saturating_sub(start) > timeout_ms
}

} // verus!
