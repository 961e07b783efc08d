//! Failover: the states of the watched nodes, failure detection from the
//! heartbeat history, the choice of a new primary, the queue of recovery
//! tasks by priority, and the resolution of a split brain.

use crate::clock::duration_from_secs;
use crate::distributed::replication::{first_health, group_of, ReplicaGroup, ReplicationManager};
use crate::distributed::shard::node_names;
use crate::text::{concat, decimal, push_decimal, seq_less, str_equal, str_less};
use crate::types::{NodeId, ShardId};
use std::time::Duration;
use vstd::string::StringSliceAdditionalSpecFns;
use vstd::prelude::*;

verus! {

/// Settings of failover.
#[derive(Clone, Copy, Debug)]
pub struct FailoverConfig {
    pub failure_detection_timeout_secs: u64,
    pub heartbeat_interval_secs: u64,
    pub max_retry_attempts: u32,
    pub failover_timeout_secs: u64,
    pub split_brain_check_interval_secs: u64,
    pub auto_recovery_enabled: bool,
}

impl Default for FailoverConfig {
    /// Failures detected after 30 s, heartbeats every 10 s, 3 retries,
    /// failovers within 60 s, split-brain checks every 15 s, automatic recovery.
    fn default() -> (c: Self)
        ensures
            c.failure_detection_timeout_secs == 30,
            c.heartbeat_interval_secs == 10,
            c.max_retry_attempts == 3,
            c.failover_timeout_secs == 60,
            c.split_brain_check_interval_secs == 15,
            c.auto_recovery_enabled,
    {
        FailoverConfig {
            failure_detection_timeout_secs: 30,
            heartbeat_interval_secs: 10,
            max_retry_attempts: 3,
            failover_timeout_secs: 60,
            split_brain_check_interval_secs: 15,
            auto_recovery_enabled: true,
        }
    }
}

/// The state of a watched node.
#[derive(Clone, Copy, Debug, PartialEq, Eq, Structural)]
pub enum NodeState {
    Healthy,
    Suspected,
    Failed,
    Recovering,
    Offline,
}

/// Settings of failure detection.
#[derive(Clone, Copy, Debug)]
pub struct FailureDetectorConfig {
    pub heartbeat_timeout: Duration,
    /// Consecutive failed heartbeats that mark a node failed.
    pub failure_threshold: u32,
    /// Consecutive successful heartbeats that mark a node recovered.
    pub recovery_threshold: u32,
}

impl FailureDetectorConfig {
    /// The detection settings that follow from `config`: its detection timeout,
    /// three failures to fail, two successes to recover.
    pub fn from_failover_config(config: &FailoverConfig) -> (c: FailureDetectorConfig)
        ensures
            c.failure_threshold == 3,
            c.recovery_threshold == 2,
    {
        FailureDetectorConfig {
            heartbeat_timeout: duration_from_secs(config.failure_detection_timeout_secs),
            failure_threshold: 3,
            recovery_threshold: 2,
        }
    }
}

/// One heartbeat sent to a node.
#[derive(Debug)]
pub struct HeartbeatRecord {
    /// Seconds since the Unix epoch.
    pub timestamp: i64,
    pub success: bool,
    pub latency_ms: u64,
    pub error_message: Option<String>,
}

/// The heartbeats kept per node.
pub const HEARTBEAT_HISTORY_LIMIT: usize = 50;

/// The number of failed heartbeats among the last `k` of `h`.
pub open spec fn recent_failures(h: Seq<bool>, k: nat) -> nat
    decreases k,
{
    if k == 0 || h.len() == 0 {
        0
    } else {
        recent_failures(h.drop_last(), (k - 1) as nat) + if h.last() { 0nat } else { 1nat }
    }
}

/// The outcomes of a node's heartbeats, oldest first.
pub open spec fn outcomes(h: Seq<HeartbeatRecord>) -> Seq<bool> {
    h.map_values(|r: HeartbeatRecord| r.success)
}

/// Whether a node counts as failed: without a history it does; with an empty
/// one it does not; otherwise when its last `threshold` heartbeats (or all of
/// them, if fewer) hold `threshold` failures.
pub open spec fn judged_failed(history: Option<Seq<bool>>, threshold: nat) -> bool {
    match history {
        None => true,
        Some(h) => h.len() > 0 && recent_failures(h, threshold) >= threshold,
    }
}

/// The heartbeat histories of the watched nodes.
#[derive(Debug)]
pub struct FailureDetector {
    pub config: FailureDetectorConfig,
    pub histories: Vec<(NodeId, Vec<HeartbeatRecord>)>,
}

/// The history of `node`, the first kept under that id.
pub open spec fn history_of(hs: Seq<(NodeId, Vec<HeartbeatRecord>)>, node: Seq<char>) -> Option<Seq<HeartbeatRecord>>
    decreases hs.len(),
{
    if hs.len() == 0 {
        None
    } else if hs[0].0@ == node {
        Some(hs[0].1@)
    } else {
        history_of(hs.drop_first(), node)
    }
}

impl FailureDetector {
    /// A detector with no history.
    pub fn new(config: FailureDetectorConfig) -> (d: FailureDetector)
        ensures
            d.config == config,
            d.histories@.len() == 0,
    {
        FailureDetector { config, histories: Vec::new() }
    }

    fn find(&self, node_id: &str) -> (r: Option<usize>)
        ensures
            r is None ==> history_of(self.histories@, node_id@) is None,
            r matches Some(k) ==> k < self.histories@.len() && history_of(self.histories@, node_id@) == Some(
                self.histories@[k as int].1@,
            ) && self.histories@[k as int].0@ == node_id@ && forall|j: int| 0 <= j < k ==> (#[trigger] self.histories@[j]).0@
                != node_id@,
    {
        let ghost hs = self.histories@;
        let mut i: usize = 0;
        assert(hs.subrange(0, hs.len() as int) =~= hs);
        while i < self.histories.len()
            invariant
                i <= hs.len(),
                hs == self.histories@,
                history_of(hs, node_id@) == history_of(hs.subrange(i as int, hs.len() as int), node_id@),
                forall|j: int| 0 <= j < i ==> (#[trigger] hs[j]).0@ != node_id@,
            decreases hs.len() - i,
        {
            proof {
                assert(hs.subrange(i as int, hs.len() as int).drop_first() =~= hs.subrange(i + 1, hs.len() as int));
            }
            if str_equal(self.histories[i].0.as_str(), node_id) {
                return Some(i);
            }
            i = i + 1;
        }
        None
    }

    /// Records a heartbeat of `node_id`, keeping its last fifty.
    pub fn record_heartbeat(&mut self, node_id: &str, record: HeartbeatRecord)
        ensures
            history_of(final(self).histories@, node_id@) matches Some(h) && h.len() > 0 && (match history_of(old(self).histories@, node_id@) {
                None => h.len() == 1,
                Some(o) => if o.len() < HEARTBEAT_HISTORY_LIMIT {
                    h == o.push(record)
                } else {
                    h == o.push(record).drop_first()
                },
            }),
            final(self).config == old(self).config,
    {
        match self.find(node_id) {
            Some(k) => {
                let (name, mut h) = self.histories.remove(k);
                let ghost o = h@;
                h.push(record);
                if h.len() > HEARTBEAT_HISTORY_LIMIT {
                    h.remove(0);
                }
                self.histories.insert(k, (name, h));
                proof {
                    lemma_history_of_update(old(self).histories@, self.histories@, k as int, node_id@);
                }
            },
            None => {
                let mut h: Vec<HeartbeatRecord> = Vec::new();
                h.push(record);
                self.histories.push((String::from_str(node_id), h));
                proof {
                    lemma_history_of_push(old(self).histories@, self.histories@.last(), node_id@);
                    assert(self.histories@ =~= old(self).histories@.push(self.histories@.last()));
                }
            },
        }
    }

    /// Forgets the history of `node_id`.
    pub fn stop_monitoring(&mut self, node_id: &str)
        ensures
            history_of(old(self).histories@, node_id@) is None ==> final(self).histories@ == old(self).histories@,
            history_of(old(self).histories@, node_id@) is Some ==> exists|k: int|
                0 <= k < old(self).histories@.len() && (#[trigger] old(self).histories@[k]).0@ == node_id@
                    && final(self).histories@ == old(self).histories@.remove(k),
            final(self).config == old(self).config,
    {
        match self.find(node_id) {
            Some(k) => {
                self.histories.remove(k);
            },
            None => {},
        }
    }

    /// Whether `node_id` counts as failed (see [`judged_failed`]).
    pub fn check_node_health(&self, node_id: &str) -> (failed: bool)
        ensures
            failed == judged_failed(
                match history_of(self.histories@, node_id@) {
                    Some(h) => Some(outcomes(h)),
                    None => None,
                },
                self.config.failure_threshold as nat,
            ),
    {
        match self.find(node_id) {
            None => true,
            Some(k) => {
                let h = &self.histories[k].1;
                if h.len() == 0 {
                    return false;
                }
                let ghost o = outcomes(h@);
                assert(o.subrange(0, h@.len() as int) =~= o);
                let threshold = self.config.failure_threshold as usize;
                let mut failed: usize = 0;
                let mut taken: usize = 0;
                let mut j: usize = h.len();
                while taken < threshold && j > 0
                    invariant
                        j <= h@.len(),
                        o == outcomes(h@),
                        taken == h@.len() - j,
                        taken <= threshold,
                        failed <= taken,
                        recent_failures(o, threshold as nat) == failed + recent_failures(
                            o.subrange(0, j as int),
                            (threshold - taken) as nat,
                        ),
                    decreases j,
                {
                    proof {
                        assert(o.subrange(0, j as int).drop_last() =~= o.subrange(0, j - 1));
                        assert(o.subrange(0, j as int).last() == h@[j - 1].success);
                    }
                    if !h[j - 1].success {
                        failed = failed + 1;
                    }
                    taken = taken + 1;
                    j = j - 1;
                }
                proof {
                    if j == 0 {
                        assert(o.subrange(0, 0).len() == 0);
                    }
                    assert(o.subrange(0, h@.len() as int) =~= o);
                }
                failed >= threshold
            },
        }
    }
}

proof fn lemma_history_of_push(hs: Seq<(NodeId, Vec<HeartbeatRecord>)>, e: (NodeId, Vec<HeartbeatRecord>), node: Seq<char>)
    requires
        history_of(hs, node) is None,
        e.0@ == node,
    ensures
        history_of(hs.push(e), node) == Some(e.1@),
    decreases hs.len(),
{
    if hs.len() > 0 {
        assert(hs.push(e).drop_first() =~= hs.drop_first().push(e));
        lemma_history_of_push(hs.drop_first(), e, node);
    }
}

proof fn lemma_history_of_update(
    before: Seq<(NodeId, Vec<HeartbeatRecord>)>,
    after: Seq<(NodeId, Vec<HeartbeatRecord>)>,
    k: int,
    node: Seq<char>,
)
    requires
        0 <= k < before.len(),
        after.len() == before.len(),
        before[k].0@ == node,
        after[k].0@ == node,
        forall|j: int| 0 <= j < k ==> (#[trigger] before[j]).0@ != node,
        forall|j: int| 0 <= j < before.len() && j != k ==> after[j] == before[j],
    ensures
        history_of(after, node) == Some(after[k].1@),
    decreases before.len(),
{
    if k > 0 {
        assert(before[0].0@ != node);
        lemma_history_of_update(before.drop_first(), after.drop_first(), k - 1, node);
    }
}


/// The kind of a recovery task.
#[derive(Clone, Copy, Debug, PartialEq, Eq, Structural)]
pub enum RecoveryTaskType {
    PrimaryFailover,
    ReplicaReplacement,
    DataResync,
    ShardReallocation,
    SplitBrainRecovery,
}

/// The urgency of a recovery task, from low to critical.
#[derive(Clone, Copy, Debug, PartialEq, Eq, Structural)]
pub enum RecoveryPriority {
    Low,
    Medium,
    High,
    Critical,
}

/// The rank of a priority: low 0, medium 1, high 2, critical 3.
pub open spec fn priority_rank(p: RecoveryPriority) -> nat {
    match p {
        RecoveryPriority::Low => 0,
        RecoveryPriority::Medium => 1,
        RecoveryPriority::High => 2,
        RecoveryPriority::Critical => 3,
    }
}

impl RecoveryPriority {
    /// The rank of this priority.
    pub fn rank(&self) -> (r: u8)
        ensures
            r == priority_rank(*self),
    {
        match self {
            RecoveryPriority::Low => 0,
            RecoveryPriority::Medium => 1,
            RecoveryPriority::High => 2,
            RecoveryPriority::Critical => 3,
        }
    }
}

/// The state of a recovery.
#[derive(Clone, Copy, Debug, PartialEq, Eq, Structural)]
pub enum RecoveryStatus {
    Queued,
    InProgress,
    Completed,
    Failed,
    Cancelled,
}

/// A recovery to carry out.
#[derive(Debug)]
pub struct RecoveryTask {
    pub task_id: String,
    pub task_type: RecoveryTaskType,
    pub failed_node: NodeId,
    pub target_node: Option<NodeId>,
    pub affected_shards: Vec<ShardId>,
    pub priority: RecoveryPriority,
    /// Seconds since the Unix epoch.
    pub created_at: i64,
    pub estimated_completion_time: Option<i64>,
}

/// How a recovery ended.
#[derive(Debug)]
pub struct RecoveryResult {
    pub task_id: String,
    pub task_type: RecoveryTaskType,
    pub final_status: RecoveryStatus,
    pub started_at: i64,
    pub completed_at: i64,
    pub error_message: Option<String>,
    pub recovered_shards: u32,
}

/// Something that happened during failover. Times are milliseconds.
#[derive(Debug)]
pub enum FailoverEvent {
    NodeFailureDetected { node_id: NodeId, detection_time: u64 },
    FailoverStarted { failed_node: NodeId, new_primary: NodeId, affected_shards: Vec<ShardId> },
    FailoverCompleted { failed_node: NodeId, new_primary: NodeId, recovery_time_ms: u64 },
    SplitBrainDetected { conflicting_nodes: Vec<NodeId> },
    NodeRecovered { node_id: NodeId, recovery_time: u64 },
}

/// A node that claims the lead.
#[derive(Debug)]
pub struct LeaderInfo {
    pub node_id: NodeId,
    pub term: u64,
    pub last_log_index: u64,
}

/// Where the shards are, and their loads.
#[derive(Debug)]
pub struct ShardDistribution {
    pub node_shards: Vec<(NodeId, Vec<String>)>,
    pub shard_loads: Vec<(String, u64)>,
}

/// Whether a move concerns a primary or a replica.
#[derive(Clone, Copy, Debug, PartialEq, Eq, Structural)]
pub enum MoveType {
    Primary,
    Replica,
}

/// A move of a shard between nodes.
#[derive(Debug)]
pub struct ShardMoveOperation {
    pub shard_id: String,
    pub from_node: NodeId,
    pub to_node: NodeId,
    pub operation_type: MoveType,
}

/// Whether a sequence of tasks runs from the most to the least urgent.
pub open spec fn by_urgency(q: Seq<RecoveryTask>) -> bool {
    forall|i: int, j: int| 0 <= i < j < q.len() ==> priority_rank((#[trigger] q[i]).priority) >= priority_rank(
        (#[trigger] q[j]).priority,
    )
}

/// The number of leading tasks of `q` whose urgency is at least `r`.
pub open spec fn urgent_prefix(q: Seq<RecoveryTask>, r: nat) -> nat
    decreases q.len(),
{
    if q.len() == 0 {
        0
    } else if priority_rank(q[0].priority) >= r {
        1 + urgent_prefix(q.drop_first(), r)
    } else {
        0
    }
}

/// The recovery tasks waiting, most urgent first (tasks of equal urgency in
/// the order they came), and the results of those carried out.
#[derive(Debug)]
pub struct RecoveryCoordinator {
    queue: Vec<RecoveryTask>,
    history: Vec<RecoveryResult>,
}

impl RecoveryCoordinator {
    /// The waiting tasks, most urgent first.
    pub closed spec fn queue(&self) -> Seq<RecoveryTask> {
        self.queue@
    }

    /// The results, oldest first.
    pub closed spec fn history(&self) -> Seq<RecoveryResult> {
        self.history@
    }

    /// Whether the queue runs from the most to the least urgent.
    pub closed spec fn wf(&self) -> bool {
        by_urgency(self.queue@)
    }

    /// No tasks and no results.
    pub fn new() -> (c: RecoveryCoordinator)
        ensures
            c.wf(),
            c.queue().len() == 0,
            c.history().len() == 0,
    {
        RecoveryCoordinator { queue: Vec::new(), history: Vec::new() }
    }

    /// Queues `task` after every task at least as urgent and before the rest.
    pub fn add_recovery_task(&mut self, task: RecoveryTask)
        requires
            old(self).wf(),
        ensures
            final(self).wf(),
            final(self).queue() == old(self).queue().insert(
                urgent_prefix(old(self).queue(), priority_rank(task.priority)) as int,
                task,
            ),
            final(self).history() == old(self).history(),
    {
        let rank = task.priority.rank();
        let ghost q = self.queue@;
        let ghost r = priority_rank(task.priority);
        let mut k: usize = 0;
        assert(q.subrange(0, q.len() as int) =~= q);
        while k < self.queue.len() && self.queue[k].priority.rank() >= rank
            invariant
                q == self.queue@,
                rank == r,
                k <= q.len(),
                forall|j: int| 0 <= j < k ==> priority_rank((#[trigger] q[j]).priority) >= rank,
                urgent_prefix(q, r) == k + urgent_prefix(q.subrange(k as int, q.len() as int), r),
            decreases self.queue.len() - k,
        {
            proof {
                assert(q.subrange(k as int, q.len() as int).drop_first() =~= q.subrange(k + 1, q.len() as int));
            }
            k = k + 1;
        }
        proof {
            if k < q.len() {
                assert(q.subrange(k as int, q.len() as int)[0] == q[k as int]);
            }
            assert forall|j: int| k <= j < q.len() implies priority_rank((#[trigger] q[j]).priority) < rank by {
                if j > k {
                    assert(priority_rank(q[k as int].priority) >= priority_rank(q[j].priority));
                }
            }
        }
        let ghost t = task;
        self.queue.insert(k, task);
        proof {
            let nq = self.queue@;
            assert(nq =~= q.insert(k as int, t));
            assert forall|a: int, b: int| 0 <= a < b < nq.len() implies priority_rank((#[trigger] nq[a]).priority)
                >= priority_rank((#[trigger] nq[b]).priority) by {
                if b < k {
                    assert(nq[a] == q[a] && nq[b] == q[b]);
                } else if a > k {
                    assert(nq[a] == q[a - 1] && nq[b] == q[b - 1]);
                } else if a == k {
                    assert(nq[b] == q[b - 1]);
                } else if b == k {
                    assert(nq[a] == q[a]);
                } else {
                    assert(nq[a] == q[a] && nq[b] == q[b - 1]);
                }
            }
        }
    }

    /// Takes the next task to carry out: the last of the queue, among the
    /// least urgent.
    pub fn next_task(&mut self) -> (t: Option<RecoveryTask>)
        requires
            old(self).wf(),
        ensures
            final(self).wf(),
            old(self).queue().len() == 0 ==> t is None && final(self).queue() == old(self).queue(),
            old(self).queue().len() > 0 ==> t == Some(old(self).queue().last()) && final(self).queue()
                == old(self).queue().drop_last(),
            t matches Some(task) ==> forall|j: int| 0 <= j < old(self).queue().len() ==> priority_rank(task.priority)
                <= priority_rank((#[trigger] old(self).queue()[j]).priority),
            final(self).history() == old(self).history(),
    {
        let t = self.queue.pop();
        proof {
            if old(self).queue@.len() > 0 {
                let q = old(self).queue@;
                assert forall|j: int| 0 <= j < q.len() implies priority_rank(q.last().priority) <= priority_rank(
                    (#[trigger] q[j]).priority,
                ) by {
                    if j < q.len() - 1 {
                        assert(priority_rank(q[j].priority) >= priority_rank(q[q.len() - 1].priority));
                    }
                }
            }
        }
        t
    }

    /// Records how `task` ended at `completed_at`: completed, or failed with
    /// the error; the shards it covered are counted.
    pub fn record_result(&mut self, task: &RecoveryTask, outcome: Result<(), String>, completed_at: i64)
        ensures
            final(self).queue() == old(self).queue(),
            final(self).history().len() == old(self).history().len() + 1,
            final(self).history().subrange(0, old(self).history().len() as int) == old(self).history(),
            ({
                let r = final(self).history().last();
                &&& r.task_id == task.task_id
                &&& r.task_type == task.task_type
                &&& r.final_status == (if outcome.is_ok() {
                    RecoveryStatus::Completed
                } else {
                    RecoveryStatus::Failed
                })
                &&& r.started_at == task.created_at
                &&& r.completed_at == completed_at
                &&& r.error_message == match outcome {
                    Ok(_) => None,
                    Err(e) => Some(e),
                }
                &&& r.recovered_shards == task.affected_shards@.len() as u32
            }),
    {
        let len = task.affected_shards.len();
        #[verifier::truncate]
        let recovered_shards = len as u32;
        let final_status = if outcome.is_ok() { RecoveryStatus::Completed } else { RecoveryStatus::Failed };
        let error_message = match outcome {
            Ok(_) => None,
            Err(e) => Some(e),
        };
        self.history.push(RecoveryResult {
            task_id: task.task_id.clone(),
            task_type: task.task_type,
            final_status,
            started_at: task.created_at,
            completed_at,
            error_message,
            recovered_shards,
        });
        proof {
            assert(self.history@.subrange(0, old(self).history@.len() as int) =~= old(self).history@);
        }
    }

    /// The results so far, oldest first.
    pub fn get_recovery_history(&self) -> (r: &Vec<RecoveryResult>)
        ensures
            r@ == self.history(),
    {
        &self.history
    }
}

/// The sum of the bytes of `b`, wrapping at 16 bits.
pub open spec fn byte_sum16(b: Seq<u8>) -> u16
    decreases b.len(),
{
    if b.len() == 0 {
        0
    } else {
        byte_sum16(b.drop_last()).wrapping_add(b.last() as u16)
    }
}

/// The port a node is assumed to listen on when no address is configured:
/// 8080 plus the sum of the bytes of its id (wrapping at 16 bits) modulo 1000.
pub open spec fn default_port(node_id: &str) -> u16 {
    (8080 + byte_sum16(node_id.spec_bytes()) % 1000) as u16
}

/// The address assumed for `node_id` when none is configured: "id:port"
/// with its [`default_port`].
pub fn default_node_address(node_id: &str) -> (a: String)
    ensures
        a@ == node_id@ + ":"@ + decimal(default_port(node_id) as nat),
{
    let bytes = node_id.as_bytes_vec();
    let mut sum: u16 = 0;
    let mut i: usize = 0;
    while i < bytes.len()
        invariant
            i <= bytes@.len(),
            bytes@ == node_id.spec_bytes(),
            sum == byte_sum16(bytes@.subrange(0, i as int)),
        decreases bytes.len() - i,
    {
        proof {
            assert(bytes@.subrange(0, i + 1).drop_last() =~= bytes@.subrange(0, i as int));
        }
        sum = sum.wrapping_add(bytes[i] as u16);
        i = i + 1;
    }
    proof {
        assert(bytes@.subrange(0, bytes@.len() as int) =~= bytes@);
    }
    let port: u16 = 8080 + sum % 1000;
    let mut a = concat(node_id, ":");
    push_decimal(&mut a, port as u64);
    proof { reveal_strlit(":"); }
    a
}

/// Whether the cluster is split: with at least two healthy nodes, when no
/// node or more than one node leads.
pub fn split_brain_detected(healthy_nodes: usize, leader_count: usize) -> (r: bool)
    ensures
        r == (healthy_nodes >= 2 && leader_count != 1),
{
    if healthy_nodes < 2 {
        return false;
    }
    match leader_count {
        0 => true,
        1 => false,
        _ => true,
    }
}

/// Whether the cluster is consistent again: exactly one node leads.
pub fn cluster_consistent(leader_count: usize) -> (r: bool)
    ensures
        r == (leader_count == 1),
{
    leader_count == 1
}

/// Whether `x` is to be preferred as the authority over `y`: a higher term,
/// then a longer log, then the smaller id.
pub open spec fn outranks(x: LeaderInfo, y: LeaderInfo) -> bool {
    ||| x.term > y.term
    ||| (x.term == y.term && x.last_log_index > y.last_log_index)
    ||| (x.term == y.term && x.last_log_index == y.last_log_index && seq_less(x.node_id@, y.node_id@))
}

/// The authority among leaders `ls`: the first, replaced in turn by each
/// later one that outranks the current choice.
pub open spec fn authority(ls: Seq<LeaderInfo>) -> int
    decreases ls.len(),
{
    if ls.len() <= 1 {
        0
    } else {
        let prev = authority(ls.drop_last());
        if outranks(ls.last(), ls[prev]) {
            ls.len() - 1
        } else {
            prev
        }
    }
}

proof fn lemma_authority_in_range(ls: Seq<LeaderInfo>)
    requires
        ls.len() > 0,
    ensures
        0 <= authority(ls) < ls.len(),
    decreases ls.len(),
{
    if ls.len() > 1 {
        lemma_authority_in_range(ls.drop_last());
    }
}

/// The position of the leader to keep when several claim the lead (see
/// [`authority`]).
pub fn select_authoritative_leader(leaders: &Vec<LeaderInfo>) -> (k: usize)
    requires
        leaders@.len() > 0,
    ensures
        k == authority(leaders@),
        k < leaders@.len(),
{
    let mut best: usize = 0;
    let mut i: usize = 1;
    while i < leaders.len()
        invariant
            1 <= i <= leaders@.len(),
            best == authority(leaders@.subrange(0, i as int)),
            best < i,
        decreases leaders.len() - i,
    {
        proof {
            assert(leaders@.subrange(0, i + 1).drop_last() =~= leaders@.subrange(0, i as int));
            lemma_authority_in_range(leaders@.subrange(0, i as int));
        }
        let l = &leaders[i];
        let b = &leaders[best];
        if l.term > b.term || (l.term == b.term && l.last_log_index > b.last_log_index) || (l.term == b.term
            && l.last_log_index == b.last_log_index && str_less(l.node_id.as_str(), b.node_id.as_str())) {
            best = i;
        }
        i = i + 1;
    }
    proof {
        assert(leaders@.subrange(0, leaders@.len() as int) =~= leaders@);
    }
    best
}


/// The state of `node` among `states`, the first recorded.
pub open spec fn state_in(states: Seq<(NodeId, NodeState)>, node: Seq<char>) -> Option<NodeState>
    decreases states.len(),
{
    if states.len() == 0 {
        None
    } else if states[0].0@ == node {
        Some(states[0].1)
    } else {
        state_in(states.drop_first(), node)
    }
}

/// The first of `replicas`, other than `failed`, whose health record says it
/// is healthy.
pub open spec fn healthy_replica(replicas: Seq<Seq<char>>, failed: Seq<char>, hs: Seq<crate::distributed::replication::ReplicaHealth>) -> Option<Seq<char>>
    decreases replicas.len(),
{
    if replicas.len() == 0 {
        None
    } else if replicas[0] != failed && (first_health(hs, replicas[0]) matches Some(h) && h.is_healthy) {
        Some(replicas[0])
    } else {
        healthy_replica(replicas.drop_first(), failed, hs)
    }
}

/// The first watched node, other than `failed`, that is healthy.
pub open spec fn healthy_watched(states: Seq<(NodeId, NodeState)>, failed: Seq<char>) -> Option<Seq<char>>
    decreases states.len(),
{
    if states.len() == 0 {
        None
    } else if states[0].0@ != failed && states[0].1 == NodeState::Healthy {
        Some(states[0].0@)
    } else {
        healthy_watched(states.drop_first(), failed)
    }
}

/// The new primary of a shard whose node `failed`: a healthy replica of its
/// group if there is one, else a healthy watched node.
pub open spec fn new_primary(
    group_replicas: Option<Seq<Seq<char>>>,
    failed: Seq<char>,
    hs: Seq<crate::distributed::replication::ReplicaHealth>,
    states: Seq<(NodeId, NodeState)>,
) -> Option<Seq<char>> {
    match group_replicas {
        Some(rs) => match healthy_replica(rs, failed, hs) {
            Some(n) => Some(n),
            None => healthy_watched(states, failed),
        },
        None => healthy_watched(states, failed),
    }
}

/// Whether a replica group involves `node`, as primary or replica.
pub open spec fn affects(node: Seq<char>) -> spec_fn((ShardId, ReplicaGroup)) -> bool {
    |e: (ShardId, ReplicaGroup)| e.1.primary@ == node || node_names(e.1.replicas@).contains(node)
}

/// The shard of a replica group entry.
pub open spec fn shard_key() -> spec_fn((ShardId, ReplicaGroup)) -> ShardId {
    |e: (ShardId, ReplicaGroup)| e.0
}

/// The nodes watched for failure and their states.
#[derive(Debug)]
pub struct FailoverManager {
    pub local_node_id: NodeId,
    pub config: FailoverConfig,
    /// Each node once, in the order they were added.
    pub node_states: Vec<(NodeId, NodeState)>,
}

impl FailoverManager {
    /// A manager watching no node.
    pub fn new(local_node_id: NodeId, config: FailoverConfig) -> (m: FailoverManager)
        ensures
            m.local_node_id == local_node_id,
            m.config == config,
            m.node_states@.len() == 0,
    {
        FailoverManager { local_node_id, config, node_states: Vec::new() }
    }

    fn state_index(&self, node_id: &str) -> (r: Option<usize>)
        ensures
            r is None ==> state_in(self.node_states@, node_id@) is None,
            r matches Some(k) ==> k < self.node_states@.len() && self.node_states@[k as int].0@ == node_id@
                && state_in(self.node_states@, node_id@) == Some(self.node_states@[k as int].1)
                && forall|j: int| 0 <= j < k ==> (#[trigger] self.node_states@[j]).0@ != node_id@,
    {
        let ghost ss = self.node_states@;
        let mut i: usize = 0;
        assert(ss.subrange(0, ss.len() as int) =~= ss);
        while i < self.node_states.len()
            invariant
                ss == self.node_states@,
                i <= ss.len(),
                state_in(ss, node_id@) == state_in(ss.subrange(i as int, ss.len() as int), node_id@),
                forall|j: int| 0 <= j < i ==> (#[trigger] ss[j]).0@ != node_id@,
            decreases ss.len() - i,
        {
            proof {
                assert(ss.subrange(i as int, ss.len() as int).drop_first() =~= ss.subrange(i + 1, ss.len() as int));
            }
            if str_equal(self.node_states[i].0.as_str(), node_id) {
                return Some(i);
            }
            i = i + 1;
        }
        None
    }

    /// Watches `node_id` as healthy.
    pub fn add_node(&mut self, node_id: NodeId)
        ensures
            state_in(final(self).node_states@, node_id@) == Some(NodeState::Healthy),
            forall|n: Seq<char>| n != node_id@ ==> #[trigger] state_in(final(self).node_states@, n) == state_in(
                old(self).node_states@,
                n,
            ),
            final(self).config == old(self).config,
    {
        let ghost ss = self.node_states@;
        let ghost id = node_id@;
        match self.state_index(node_id.as_str()) {
            Some(k) => {
                let name = self.node_states[k].0.clone();
                self.node_states.set(k, (name, NodeState::Healthy));
                proof {
                    lemma_state_in_replaced(ss, self.node_states@, k as int, id);
                }
            },
            None => {
                self.node_states.push((node_id, NodeState::Healthy));
                proof {
                    lemma_state_in_appended(ss, self.node_states@.last(), id);
                    assert(self.node_states@ =~= ss.push(self.node_states@.last()));
                }
            },
        }
    }

    /// Stops watching `node_id`; the other nodes keep their states.
    pub fn remove_node(&mut self, node_id: &str)
        ensures
            state_in(final(self).node_states@, node_id@) is None,
            forall|n: Seq<char>| n != node_id@ ==> #[trigger] state_in(final(self).node_states@, n) == state_in(
                old(self).node_states@,
                n,
            ),
            final(self).config == old(self).config,
            final(self).local_node_id == old(self).local_node_id,
    {
        let ghost ss = self.node_states@;
        let mut kept: Vec<(NodeId, NodeState)> = Vec::new();
        let mut i: usize = 0;
        while i < self.node_states.len()
            invariant
                ss == self.node_states@,
                i <= ss.len(),
                state_in(kept@, node_id@) is None,
                forall|n: Seq<char>| n != node_id@ ==> #[trigger] state_in(kept@, n) == state_in(
                    ss.subrange(0, i as int),
                    n,
                ),
            decreases ss.len() - i,
        {
            let ghost k0 = kept@;
            let e = &self.node_states[i];
            proof {
                assert(ss.subrange(0, i + 1) =~= ss.subrange(0, i as int).push(ss[i as int]));
                lemma_state_in_push(ss.subrange(0, i as int), ss[i as int], node_id@);
                assert forall|n: Seq<char>| n != node_id@ implies #[trigger] state_in(ss.subrange(0, i + 1), n) == match state_in(
                    ss.subrange(0, i as int),
                    n,
                ) {
                    Some(x) => Some(x),
                    None => if ss[i as int].0@ == n {
                        Some(ss[i as int].1)
                    } else {
                        None
                    },
                } by {
                    lemma_state_in_push(ss.subrange(0, i as int), ss[i as int], n);
                }
            }
            if !str_equal(e.0.as_str(), node_id) {
                kept.push((e.0.clone(), e.1));
                proof {
                    lemma_state_in_push(k0, kept@.last(), node_id@);
                    assert(kept@ =~= k0.push(kept@.last()));
                    assert forall|n: Seq<char>| n != node_id@ implies #[trigger] state_in(kept@, n) == state_in(
                        ss.subrange(0, i + 1),
                        n,
                    ) by {
                        lemma_state_in_push(k0, kept@.last(), n);
                    }
                }
            }
            i = i + 1;
        }
        assert(ss.subrange(0, ss.len() as int) =~= ss);
        self.node_states = kept;
    }

    /// The state of `node_id`, if it is watched.
    pub fn get_node_state(&self, node_id: &str) -> (r: Option<NodeState>)
        ensures
            r == state_in(self.node_states@, node_id@),
    {
        match self.state_index(node_id) {
            Some(k) => Some(self.node_states[k].1),
            None => None,
        }
    }

    /// Sets the state of `node_id` when it is watched; an unknown node
    /// changes nothing.
    fn set_state(&mut self, node_id: &str, state: NodeState)
        ensures
            state_in(old(self).node_states@, node_id@) is Some ==> state_in(final(self).node_states@, node_id@) == Some(
                state,
            ),
            state_in(old(self).node_states@, node_id@) is None ==> final(self).node_states@ == old(self).node_states@,
            forall|n: Seq<char>| n != node_id@ ==> #[trigger] state_in(final(self).node_states@, n) == state_in(
                old(self).node_states@,
                n,
            ),
            final(self).config == old(self).config,
    {
        let ghost ss = self.node_states@;
        match self.state_index(node_id) {
            Some(k) => {
                let name = self.node_states[k].0.clone();
                self.node_states.set(k, (name, state));
                proof {
                    lemma_state_in_replaced(ss, self.node_states@, k as int, node_id@);
                }
            },
            None => {},
        }
    }

    /// Marks `node_id` healthy again, when it is watched.
    pub fn mark_node_recovered(&mut self, node_id: &str)
        ensures
            state_in(old(self).node_states@, node_id@) is Some ==> state_in(final(self).node_states@, node_id@) == Some(
                NodeState::Healthy,
            ),
            state_in(old(self).node_states@, node_id@) is None ==> final(self).node_states@ == old(self).node_states@,
    {
        self.set_state(node_id, NodeState::Healthy);
    }

    /// Applies the detector's verdict on `node_id`: a failed node, when
    /// watched, becomes failed. Returns whether a failover is to start now:
    /// a failure with automatic recovery on.
    pub fn apply_failure_verdict(&mut self, node_id: &str, failed: bool) -> (start_failover: bool)
        ensures
            start_failover == (failed && old(self).config.auto_recovery_enabled),
            failed && state_in(old(self).node_states@, node_id@) is Some ==> state_in(final(self).node_states@, node_id@)
                == Some(NodeState::Failed),
            !failed ==> final(self).node_states@ == old(self).node_states@,
    {
        if failed {
            self.set_state(node_id, NodeState::Failed);
        }
        failed && self.config.auto_recovery_enabled
    }

    /// Chooses the new primary of `shard_id` after `failed_node` failed (see
    /// [`new_primary`]); fails when there is none.
    #[verifier::loop_isolation(false)]
    pub fn select_new_primary(&self, shard_id: ShardId, failed_node: &str, replication: &ReplicationManager) -> (r: Result<NodeId, String>)
        ensures
            match new_primary(
                match group_of(replication.groups@, shard_id) {
                    Some(g) => Some(node_names(g.replicas@)),
                    None => None,
                },
                failed_node@,
                replication.health@,
                self.node_states@,
            ) {
                Some(n) => r matches Ok(id) && id@ == n,
                None => r matches Err(e) && e@ == "无法为分片 "@ + decimal(shard_id as nat) + " 找到合适的新主节点"@,
            },
    {
        let ghost gr = match group_of(replication.groups@, shard_id) {
            Some(g) => Some(node_names(g.replicas@)),
            None => None,
        };
        let ghost hs = replication.health@;
        let ghost ss = self.node_states@;
        match replication.get_replica_group(shard_id) {
            Some(group) => {
                let ghost names = node_names(group.replicas@);
                let mut i: usize = 0;
                assert(names.subrange(0, names.len() as int) =~= names);
                while i < group.replicas.len()
                    invariant
                        names == node_names(group.replicas@),
                        gr == Some(names),
                        hs == replication.health@,
                        i <= names.len(),
                        healthy_replica(names, failed_node@, hs) == healthy_replica(
                            names.subrange(i as int, names.len() as int),
                            failed_node@,
                            hs,
                        ),
                    decreases group.replicas.len() - i,
                {
                    let ghost rest = names.subrange(i as int, names.len() as int);
                    proof {
                        assert(rest.drop_first() =~= names.subrange(i + 1, names.len() as int));
                        assert(rest[0] == group.replicas@[i as int]@);
                    }
                    let replica = &group.replicas[i];
                    if !str_equal(replica.as_str(), failed_node) {
                        match replication.get_node_health(replica.as_str()) {
                            Some(h) => {
                                if h.is_healthy {
                                    proof {
                                        assert(healthy_replica(rest, failed_node@, hs) == Some(replica@));
                                    }
                                    return Ok(replica.clone());
                                }
                            },
                            None => {},
                        }
                    }
                    i = i + 1;
                }
                proof {
                    assert(names.subrange(i as int, names.len() as int).len() == 0);
                }
            },
            None => {},
        }
        assert(new_primary(gr, failed_node@, hs, ss) == healthy_watched(ss, failed_node@));
        let mut j: usize = 0;
        assert(ss.subrange(0, ss.len() as int) =~= ss);
        while j < self.node_states.len()
            invariant
                ss == self.node_states@,
                new_primary(gr, failed_node@, hs, ss) == healthy_watched(ss, failed_node@),
                j <= ss.len(),
                healthy_watched(ss, failed_node@) == healthy_watched(ss.subrange(j as int, ss.len() as int), failed_node@),
            decreases ss.len() - j,
        {
            proof {
                assert(ss.subrange(j as int, ss.len() as int).drop_first() =~= ss.subrange(j + 1, ss.len() as int));
            }
            if !str_equal(self.node_states[j].0.as_str(), failed_node) && self.node_states[j].1 == NodeState::Healthy {
                return Ok(self.node_states[j].0.clone());
            }
            j = j + 1;
        }
        let mut m = String::from_str("无法为分片 ");
        push_decimal(&mut m, shard_id as u64);
        m.append(" 找到合适的新主节点");
        proof {
            reveal_strlit("无法为分片 ");
            reveal_strlit(" 找到合适的新主节点");
        }
        Err(m)
    }

    /// The shards whose replica group has `failed_node` as primary or
    /// replica, in the order of the groups.
    pub fn get_affected_shards(&self, failed_node: &str, replication: &ReplicationManager) -> (r: Vec<ShardId>)
        ensures
            r@ == replication.groups@.filter(affects(failed_node@)).map_values(shard_key()),
    {
        let ghost pred = affects(failed_node@);
        let ghost key = shard_key();
        let ghost gs = replication.groups@;
        let mut r: Vec<ShardId> = Vec::new();
        let mut i: usize = 0;
        while i < replication.groups.len()
            invariant
                gs == replication.groups@,
                pred == affects(failed_node@),
                key == shard_key(),
                i <= gs.len(),
                r@ == gs.subrange(0, i as int).filter(pred).map_values(key),
            decreases gs.len() - i,
        {
            proof {
                assert(gs.subrange(0, i + 1) =~= gs.subrange(0, i as int).push(gs[i as int]));
                gs.subrange(0, i as int).lemma_filter_push(gs[i as int], pred);
            }
            let g = &replication.groups[i].1;
            let hit = str_equal(g.primary.as_str(), failed_node) || crate::distributed::cluster::contains_name(
                &g.replicas,
                failed_node,
            );
            let ghost f0 = gs.subrange(0, i as int).filter(pred);
            proof {
                assert(hit == pred(gs[i as int]));
            }
            if hit {
                r.push(replication.groups[i].0);
                proof {
                    assert(f0.push(gs[i as int]).map_values(key) =~= f0.map_values(key).push(gs[i as int].0));
                }
            }
            i = i + 1;
        }
        proof {
            assert(gs.subrange(0, gs.len() as int) =~= gs);
        }
        r
    }
}

proof fn lemma_state_in_replaced(
    before: Seq<(NodeId, NodeState)>,
    after: Seq<(NodeId, NodeState)>,
    k: int,
    node: Seq<char>,
)
    requires
        0 <= k < before.len(),
        after.len() == before.len(),
        before[k].0@ == node,
        after[k].0@ == node,
        forall|j: int| 0 <= j < k ==> (#[trigger] before[j]).0@ != node,
        forall|j: int| 0 <= j < before.len() && j != k ==> after[j] == before[j],
    ensures
        state_in(after, node) == Some(after[k].1),
        forall|n: Seq<char>| n != node ==> #[trigger] state_in(after, n) == state_in(before, n),
    decreases before.len(),
{
    if k > 0 {
        lemma_state_in_replaced(before.drop_first(), after.drop_first(), k - 1, node);
        assert forall|n: Seq<char>| n != node implies #[trigger] state_in(after, n) == state_in(before, n) by {
            assert(after[0] == before[0]);
            assert(state_in(after.drop_first(), n) == state_in(before.drop_first(), n));
            assert(state_in(after, n) == if after[0].0@ == n {
                Some(after[0].1)
            } else {
                state_in(after.drop_first(), n)
            });
        }
    } else {
        assert(after.drop_first() =~= before.drop_first());
    }
}

proof fn lemma_state_in_push(a: Seq<(NodeId, NodeState)>, e: (NodeId, NodeState), n: Seq<char>)
    ensures
        state_in(a.push(e), n) == match state_in(a, n) {
            Some(x) => Some(x),
            None => if e.0@ == n {
                Some(e.1)
            } else {
                None
            },
        },
    decreases a.len(),
{
    if a.len() > 0 {
        assert(a.push(e).drop_first() =~= a.drop_first().push(e));
        assert(a.push(e)[0] == a[0]);
        lemma_state_in_push(a.drop_first(), e, n);
    } else {
        assert(a.push(e).drop_first() =~= Seq::<(NodeId, NodeState)>::empty());
        assert(a.push(e)[0] == e);
        assert(state_in(a, n) is None);
        assert(state_in(a.push(e).drop_first(), n) is None);
    }
}

proof fn lemma_state_in_appended(before: Seq<(NodeId, NodeState)>, e: (NodeId, NodeState), node: Seq<char>)
    requires
        state_in(before, node) is None,
        e.0@ == node,
    ensures
        state_in(before.push(e), node) == Some(e.1),
        forall|n: Seq<char>| n != node ==> #[trigger] state_in(before.push(e), n) == state_in(before, n),
    decreases before.len(),
{
    if before.len() > 0 {
        assert(before.push(e).drop_first() =~= before.drop_first().push(e));
        lemma_state_in_appended(before.drop_first(), e, node);
        assert forall|n: Seq<char>| n != node implies #[trigger] state_in(before.push(e), n) == state_in(before, n) by {
            assert(before.push(e)[0] == before[0]);
            assert(state_in(before.drop_first().push(e), n) == state_in(before.drop_first(), n));
        }
    } else {
        assert(before.push(e).drop_first() =~= Seq::<(NodeId, NodeState)>::empty());
        assert forall|n: Seq<char>| n != node implies #[trigger] state_in(before.push(e), n) == state_in(before, n) by {
            assert(before.push(e)[0] == e);
            assert(state_in(before.push(e).drop_first(), n) is None);
            assert(state_in(before.push(e), n) == state_in(before.push(e).drop_first(), n));
        }
    }
}


proof fn lemma_recent_failures_all(h: Seq<bool>, k: nat)
    ensures
        recent_failures(h, k) <= k,
        recent_failures(h, k) >= k <==> (k <= h.len() && forall|i: int| h.len() - k <= i < h.len() ==> !#[trigger] h[i]),
    decreases k,
{
    if k == 0 || h.len() == 0 {
    } else {
        let p = h.drop_last();
        lemma_recent_failures_all(p, (k - 1) as nat);
        if !h.last() {
            if k - 1 <= p.len() && forall|i: int| p.len() - (k - 1) <= i < p.len() ==> !#[trigger] p[i] {
                assert forall|i: int| h.len() - k <= i < h.len() implies !#[trigger] h[i] by {
                    if i < h.len() - 1 {
                        assert(p[i] == h[i]);
                    }
                }
            }
            if k <= h.len() && forall|i: int| h.len() - k <= i < h.len() ==> !#[trigger] h[i] {
                assert forall|i: int| p.len() - (k - 1) <= i < p.len() implies !#[trigger] p[i] by {
                    assert(p[i] == h[i]);
                }
            }
        } else {
            assert(h[h.len() - 1] == h.last());
        }
    }
}

/// A node is judged failed exactly when it has no history at all, or its
/// last `threshold` heartbeats all failed: with a history of fewer
/// heartbeats than the threshold it is not failed, and one successful
/// heartbeat among the last `threshold` keeps it alive.
pub proof fn lemma_failed_only_after_threshold_failures(h: Seq<bool>, threshold: nat)
    ensures
        judged_failed(None, threshold),
        !judged_failed(Some(Seq::<bool>::empty()), threshold),
        h.len() > 0 ==> (judged_failed(Some(h), threshold) <==> (threshold <= h.len() && forall|i: int|
            h.len() - threshold <= i < h.len() ==> !#[trigger] h[i])),
{
    lemma_recent_failures_all(h, threshold);
}

} // verus!
