//! The consensus manager's decisions: elections and heartbeats driven by the
//! answers of the peers, the leader's command log and its replication
//! quorum, the application of committed entries, and the outcome of
//! configuration and shard commands.
//!
//! Timers and messages stay with the caller: it starts an election, sends the
//! requests, and hands the answers back to the state, which decides.

use crate::clock::unix_millis_now;
use crate::distributed::raft::{AppendRequest, AppendResponse, RaftState, VectorCommand, VoteResponse};
use crate::distributed::shard::ShardMigration;
use crate::random::rand_u64;
use crate::text::{concat, decimal, push_decimal};
use crate::types::{NodeId, NodeInfo};
use vstd::prelude::*;

verus! {

/// The consensus state of the local node. Times are milliseconds.
#[derive(Debug)]
pub struct ConsensusState {
    pub current_term: u64,
    pub voted_for: Option<NodeId>,
    pub state: RaftState,
    pub leader_id: Option<NodeId>,
    /// When the last heartbeat was heard.
    pub last_heartbeat: u64,
    pub election_timeout: u64,
    pub heartbeat_interval: u64,
}

impl Default for ConsensusState {
    /// A follower in term 0 that has voted for no one and knows no leader,
    /// with a random election timeout of 150 to 299 ms and heartbeats every
    /// 50 ms, its last heartbeat now.
    fn default() -> (s: Self)
        ensures
            s.current_term == 0,
            s.voted_for.is_none(),
            s.state == RaftState::Follower,
            s.leader_id.is_none(),
            150 <= s.election_timeout < 300,
            s.heartbeat_interval == 50,
    {
        ConsensusState {
            current_term: 0,
            voted_for: None,
            state: RaftState::Follower,
            leader_id: None,
            last_heartbeat: unix_millis_now(),
            election_timeout: 150 + rand_u64() % 150,
            heartbeat_interval: 50,
        }
    }
}

/// How an election ended.
#[derive(Clone, Copy, Debug, PartialEq, Eq, Structural)]
pub enum ElectionOutcome {
    /// A majority voted for the candidate.
    Won,
    /// Too few votes came.
    Lost,
    /// A peer answered with this higher term.
    SteppedDown(u64),
}

/// The votes that make a majority when `others` peers may vote besides the
/// candidate: half of the peers, rounded up, and one.
pub open spec fn votes_needed_for(others: nat) -> nat {
    (others + 1) / 2 + 1
}

/// The votes needed to win an election with `others` peers.
pub fn votes_needed(others: usize) -> (n: usize)
    ensures
        n == votes_needed_for(others as nat),
{
    others / 2 + others % 2 + 1
}

/// The end of an election whose candidate, in `term`, holds `votes` and
/// needs `needed`, as the answers `rs` come in order (`None` for a peer
/// that did not answer): a granted vote counts, a refusal with a higher term
/// ends it, and it is won as soon as enough votes are in.
pub open spec fn election_result(
    rs: Seq<Option<VoteResponse>>,
    term: u64,
    needed: nat,
    votes: nat,
) -> ElectionOutcome
    decreases rs.len(),
{
    if rs.len() == 0 {
        if votes >= needed {
            ElectionOutcome::Won
        } else {
            ElectionOutcome::Lost
        }
    } else {
        match rs[0] {
            None => election_result(rs.drop_first(), term, needed, votes),
            Some(r) => {
                if r.vote_granted {
                    if votes + 1 >= needed {
                        ElectionOutcome::Won
                    } else {
                        election_result(rs.drop_first(), term, needed, votes + 1)
                    }
                } else if r.term > term {
                    ElectionOutcome::SteppedDown(r.term)
                } else if votes >= needed {
                    ElectionOutcome::Won
                } else {
                    election_result(rs.drop_first(), term, needed, votes)
                }
            },
        }
    }
}

/// The number of granted votes among the answers.
pub open spec fn granted_votes(rs: Seq<Option<VoteResponse>>) -> nat
    decreases rs.len(),
{
    if rs.len() == 0 {
        0
    } else {
        granted_votes(rs.drop_first()) + match rs[0] {
            Some(r) => if r.vote_granted { 1nat } else { 0nat },
            None => 0nat,
        }
    }
}

/// The higher term among the answers to heartbeats that ends the leadership,
/// the first refusal whose term is above `term`.
pub open spec fn heartbeat_step_down(rs: Seq<Option<AppendResponse>>, term: u64) -> Option<u64>
    decreases rs.len(),
{
    if rs.len() == 0 {
        None
    } else {
        match rs[0] {
            Some(r) => if !r.success && r.term > term {
                Some(r.term)
            } else {
                heartbeat_step_down(rs.drop_first(), term)
            },
            None => heartbeat_step_down(rs.drop_first(), term),
        }
    }
}

/// An election is won only with a majority: when it ends `Won`, the votes
/// held at the start and those granted in the answers reach the votes needed.
pub proof fn lemma_won_only_with_majority(rs: Seq<Option<VoteResponse>>, term: u64, needed: nat, votes: nat)
    requires
        election_result(rs, term, needed, votes) == ElectionOutcome::Won,
    ensures
        votes + granted_votes(rs) >= needed,
    decreases rs.len(),
{
    if rs.len() > 0 {
        match rs[0] {
            None => lemma_won_only_with_majority(rs.drop_first(), term, needed, votes),
            Some(r) => {
                if r.vote_granted {
                    if votes + 1 < needed {
                        lemma_won_only_with_majority(rs.drop_first(), term, needed, votes + 1);
                    }
                } else if !(r.term > term) && votes < needed {
                    lemma_won_only_with_majority(rs.drop_first(), term, needed, votes);
                }
            },
        }
    }
}

/// A candidate steps down only to a higher term than its own.
pub proof fn lemma_step_down_to_higher_term(rs: Seq<Option<VoteResponse>>, term: u64, needed: nat, votes: nat)
    ensures
        election_result(rs, term, needed, votes) matches ElectionOutcome::SteppedDown(t) ==> t > term,
    decreases rs.len(),
{
    if rs.len() > 0 {
        lemma_step_down_to_higher_term(rs.drop_first(), term, needed, votes);
        lemma_step_down_to_higher_term(rs.drop_first(), term, needed, votes + 1);
    }
}

impl ConsensusState {
    /// Whether an election is due at `now`: not for a leader; for the others
    /// when more than the election timeout has passed since the last heartbeat.
    pub fn election_due(&self, now: u64) -> (due: bool)
        ensures
            due == (self.state != RaftState::Leader && now - self.last_heartbeat > self.election_timeout),
    {
        match self.state {
            RaftState::Leader => false,
            _ => now > self.last_heartbeat && now - self.last_heartbeat > self.election_timeout,
        }
    }

    /// Starts an election for `candidate` at `now`: the next term, as a
    /// candidate that votes for itself; returns the new term.
    pub fn begin_election(&mut self, candidate: NodeId, now: u64) -> (term: u64)
        requires
            old(self).current_term < u64::MAX,
        ensures
            term == old(self).current_term + 1,
            final(self).current_term == term,
            final(self).state == RaftState::Candidate,
            final(self).voted_for == Some(candidate),
            final(self).last_heartbeat == now,
            final(self).leader_id == old(self).leader_id,
            final(self).election_timeout == old(self).election_timeout,
            final(self).heartbeat_interval == old(self).heartbeat_interval,
    {
        self.current_term = self.current_term + 1;
        self.state = RaftState::Candidate;
        self.voted_for = Some(candidate);
        self.last_heartbeat = now;
        self.current_term
    }

    /// Ends the election of `candidate` among `others` peers with their
    /// answers: alone, it leads at once; otherwise it wins with a majority
    /// (and leads), steps down to a higher term it is told of (a follower with
    /// no vote and no known leader), or loses (a follower with no vote).
    pub fn finish_election(
        &mut self,
        candidate: &NodeId,
        others: usize,
        responses: &Vec<Option<VoteResponse>>,
    ) -> (outcome: ElectionOutcome)
        ensures
            others == 0 ==> outcome == ElectionOutcome::Won,
            others > 0 ==> outcome == election_result(
                responses@,
                old(self).current_term,
                votes_needed_for(others as nat),
                1,
            ),
            outcome == ElectionOutcome::Won ==> final(self).state == RaftState::Leader && final(self).leader_id
                == Some(*candidate) && final(self).current_term == old(self).current_term
                && final(self).voted_for == old(self).voted_for,
            outcome == ElectionOutcome::Lost ==> final(self).state == RaftState::Follower
                && final(self).voted_for.is_none() && final(self).current_term == old(self).current_term
                && final(self).leader_id == old(self).leader_id,
            outcome matches ElectionOutcome::SteppedDown(t) ==> final(self).current_term == t
                && final(self).state == RaftState::Follower && final(self).voted_for.is_none()
                && final(self).leader_id.is_none(),
            final(self).last_heartbeat == old(self).last_heartbeat,
            final(self).election_timeout == old(self).election_timeout,
            final(self).heartbeat_interval == old(self).heartbeat_interval,
    {
        if others == 0 {
            self.state = RaftState::Leader;
            self.leader_id = Some(candidate.clone());
            return ElectionOutcome::Won;
        }
        let term = self.current_term;
        let needed = votes_needed(others);
        let mut votes: usize = 1;
        let mut i: usize = 0;
        let ghost rs = responses@;
        assert(rs.subrange(0, rs.len() as int) =~= rs);
        while i < responses.len()
            invariant
                rs == responses@,
                i <= rs.len(),
                1 <= votes <= i + 1,
                votes < needed,
                needed == votes_needed_for(others as nat),
                term == old(self).current_term,
                election_result(rs, term, needed as nat, 1) == election_result(
                    rs.subrange(i as int, rs.len() as int),
                    term,
                    needed as nat,
                    votes as nat,
                ),
                *self == *old(self),
            decreases rs.len() - i,
        {
            let ghost rest = rs.subrange(i as int, rs.len() as int);
            proof {
                assert(rest.drop_first() =~= rs.subrange(i + 1, rs.len() as int));
            }
            match &responses[i] {
                None => {},
                Some(r) => {
                    if r.vote_granted {
                        votes = votes + 1;
                    } else if r.term > term {
                        self.current_term = r.term;
                        self.state = RaftState::Follower;
                        self.voted_for = None;
                        self.leader_id = None;
                        return ElectionOutcome::SteppedDown(r.term);
                    }
                    if votes >= needed {
                        self.state = RaftState::Leader;
                        self.leader_id = Some(candidate.clone());
                        return ElectionOutcome::Won;
                    }
                },
            }
            i = i + 1;
        }
        proof {
            assert(rs.subrange(i as int, rs.len() as int).len() == 0);
        }
        self.state = RaftState::Follower;
        self.voted_for = None;
        ElectionOutcome::Lost
    }

    /// The heartbeat that the leader `leader_id` sends in its term: no entries,
    /// nothing before them, nothing committed.
    pub fn heartbeat_request(&self, leader_id: &NodeId) -> (r: AppendRequest)
        ensures
            r.term == self.current_term,
            r.leader_id == *leader_id,
            r.prev_log_index == 0,
            r.prev_log_term == 0,
            r.entries@.len() == 0,
            r.leader_commit == 0,
    {
        AppendRequest {
            term: self.current_term,
            leader_id: leader_id.clone(),
            prev_log_index: 0,
            prev_log_term: 0,
            entries: Vec::new(),
            leader_commit: 0,
        }
    }

    /// Reads the answers to the leader's heartbeats: the first refusal with a
    /// higher term makes the node a follower in that term, with no vote and no
    /// known leader. Returns whether it stepped down.
    pub fn handle_heartbeat_responses(&mut self, responses: &Vec<Option<AppendResponse>>) -> (stepped_down: bool)
        ensures
            stepped_down == heartbeat_step_down(responses@, old(self).current_term).is_some(),
            stepped_down ==> final(self).current_term == heartbeat_step_down(
                responses@,
                old(self).current_term,
            ).unwrap() && final(self).state == RaftState::Follower && final(self).voted_for.is_none()
                && final(self).leader_id.is_none(),
            !stepped_down ==> *final(self) == *old(self),
            final(self).last_heartbeat == old(self).last_heartbeat,
            final(self).election_timeout == old(self).election_timeout,
    {
        let term = self.current_term;
        let ghost rs = responses@;
        let mut i: usize = 0;
        assert(rs.subrange(0, rs.len() as int) =~= rs);
        while i < responses.len()
            invariant
                rs == responses@,
                i <= rs.len(),
                term == old(self).current_term,
                heartbeat_step_down(rs, term) == heartbeat_step_down(rs.subrange(i as int, rs.len() as int), term),
                *self == *old(self),
            decreases rs.len() - i,
        {
            proof {
                assert(rs.subrange(i as int, rs.len() as int).drop_first() =~= rs.subrange(i + 1, rs.len() as int));
            }
            match &responses[i] {
                Some(r) => {
                    if !r.success && r.term > term {
                        self.current_term = r.term;
                        self.state = RaftState::Follower;
                        self.voted_for = None;
                        self.leader_id = None;
                        return true;
                    }
                },
                None => {},
            }
            i = i + 1;
        }
        proof {
            assert(rs.subrange(i as int, rs.len() as int).len() == 0);
        }
        false
    }

    /// Commands are taken only by the leader.
    pub fn require_leader(&self) -> (r: Result<(), String>)
        ensures
            r.is_ok() == (self.state == RaftState::Leader),
            r matches Err(e) ==> e@ == "不是领导者，无法提交命令"@,
    {
        match self.state {
            RaftState::Leader => Ok(()),
            _ => Err(String::from_str("不是领导者，无法提交命令")),
        }
    }
}


/// A command agreed on through consensus; `P` is the point type.
#[derive(Debug)]
#[allow(inconsistent_fields)]
pub enum ConsensusCommand<P> {
    VectorOperation { operation: VectorOperation<P>, shard_id: u32 },
    ConfigChange { change_type: ConfigChangeType, node_info: NodeInfo },
    ShardOperation { operation: ShardOperation },
}

/// An operation on vectors; `P` is the point type.
#[derive(Debug)]
pub enum VectorOperation<P> {
    Upsert { points: Vec<P> },
    Delete { point_ids: Vec<String> },
    Batch { operations: Vec<VectorOperation<P>> },
}

/// A change of the cluster's membership.
#[derive(Clone, Copy, Debug, PartialEq, Eq, Structural)]
pub enum ConfigChangeType {
    AddNode,
    RemoveNode,
    UpdateNode,
}

/// An operation on shards.
#[derive(Debug)]
pub enum ShardOperation {
    CreateShard { shard_id: u32, primary_node: NodeId, replica_nodes: Vec<NodeId> },
    MigrateShard { shard_id: u32, from_node: NodeId, to_node: NodeId },
    RebalanceShards { migrations: Vec<ShardMigration> },
}

/// The data a command answers with.
#[derive(Debug)]
pub enum CommandData {
    NodeId(NodeId),
    RemovedNodeId(NodeId),
    UpdatedNodeId(NodeId),
    CreatedShard { shard_id: u32, primary_node: NodeId, replica_nodes: Vec<NodeId> },
    MigratedShard { shard_id: u32, from_node: NodeId, to_node: NodeId },
    Rebalance { total_migrations: usize, completed_migrations: usize, failed_migrations: Vec<String> },
    DeletedCount(u64),
    Results(Vec<CommandResult>),
}

/// The outcome of a command.
#[derive(Debug)]
pub enum CommandResult {
    Success { message: String, data: Option<CommandData> },
    Error { error: String, code: u32 },
}

/// The message of a successful outcome.
pub open spec fn success_message(r: CommandResult) -> Option<Seq<char>> {
    match r {
        CommandResult::Success { message, .. } => Some(message@),
        CommandResult::Error { .. } => None,
    }
}

/// The data of a successful outcome, if it has any.
pub open spec fn success_data(r: CommandResult) -> Option<CommandData> {
    match r {
        CommandResult::Success { data, .. } => data,
        CommandResult::Error { .. } => None,
    }
}

/// `prefix`, the decimal rendering of `n`, then `suffix`.
fn around_decimal(prefix: &str, n: u64, suffix: &str) -> (s: String)
    ensures
        s@ == prefix@ + decimal(n as nat) + suffix@,
{
    let mut s = String::from_str(prefix);
    push_decimal(&mut s, n);
    s.append(suffix);
    s
}

/// `prefix`, `middle`, then `suffix`.
fn around(prefix: &str, middle: &str, suffix: &str) -> (s: String)
    ensures
        s@ == prefix@ + middle@ + suffix@,
{
    let mut s = concat(prefix, middle);
    s.append(suffix);
    s
}

/// Carries out configuration and shard commands. The cluster's records are
/// kept by the consensus manager, so these commands check what they can and
/// answer: adding a node needs its id and address; the others find no record
/// here to change.
#[derive(Debug)]
pub struct CommandHandler {}

impl CommandHandler {
    /// A handler.
    pub fn new() -> (h: CommandHandler) {
        CommandHandler {}
    }

    /// The outcome of a membership change for `node_info`: adding needs a
    /// non-empty id and address (400 otherwise) and succeeds with the node's
    /// id; removing and updating find no such node (404).
    pub fn execute_config_change(&self, change_type: ConfigChangeType, node_info: &NodeInfo) -> (r: CommandResult)
        ensures
            change_type == ConfigChangeType::AddNode && (node_info.id@.len() == 0 || node_info.address@.len() == 0)
                ==> (r matches CommandResult::Error { error, code } && code == 400 && error@ == "节点信息不完整"@),
            change_type == ConfigChangeType::AddNode && node_info.id@.len() > 0 && node_info.address@.len() > 0
                ==> success_message(r) == Some("节点 "@ + node_info.id@ + " 添加成功"@) && (success_data(r) matches Some(
                CommandData::NodeId(id)) && id@ == node_info.id@),
            change_type != ConfigChangeType::AddNode ==> (r matches CommandResult::Error { error, code } && code
                == 404 && error@ == "节点 "@ + node_info.id@ + " 不存在"@),
    {
        proof {
            reveal_strlit("节点信息不完整");
            reveal_strlit("节点 ");
            reveal_strlit(" 添加成功");
            reveal_strlit(" 不存在");
        }
        match change_type {
            ConfigChangeType::AddNode => {
                if node_info.id.as_str().is_empty() || node_info.address.as_str().is_empty() {
                    return CommandResult::Error { error: String::from_str("节点信息不完整"), code: 400 };
                }
                CommandResult::Success {
                    message: around("节点 ", node_info.id.as_str(), " 添加成功"),
                    data: Some(CommandData::NodeId(node_info.id.clone())),
                }
            },
            ConfigChangeType::RemoveNode => {
                let node_exists = false;
                if !node_exists {
                    return CommandResult::Error { error: around("节点 ", node_info.id.as_str(), " 不存在"), code: 404 };
                }
                CommandResult::Success {
                    message: around("节点 ", node_info.id.as_str(), " 移除成功"),
                    data: Some(CommandData::RemovedNodeId(node_info.id.clone())),
                }
            },
            ConfigChangeType::UpdateNode => {
                let updated = false;
                if updated {
                    CommandResult::Success {
                        message: around("节点 ", node_info.id.as_str(), " 更新成功"),
                        data: Some(CommandData::UpdatedNodeId(node_info.id.clone())),
                    }
                } else {
                    CommandResult::Error { error: around("节点 ", node_info.id.as_str(), " 不存在"), code: 404 }
                }
            },
        }
    }

    /// The outcome of a shard operation: creating succeeds with the shard's
    /// placement; migrating finds no such shard (404); rebalancing reports
    /// the migrations it was given, none of them carried out here.
    pub fn execute_shard_operation(&self, operation: ShardOperation) -> (r: CommandResult)
        ensures
            operation matches ShardOperation::CreateShard { shard_id, primary_node, replica_nodes }
                ==> success_message(r) == Some("分片 "@ + decimal(shard_id as nat) + " 创建成功"@) && (success_data(r) matches Some(
                CommandData::CreatedShard { shard_id: s, primary_node: p, replica_nodes: rs },
            ) && s == shard_id && p == primary_node && rs == replica_nodes),
            operation matches ShardOperation::MigrateShard { shard_id, .. } ==> (r matches CommandResult::Error {
                error,
                code,
            } && code == 404 && error@ == "分片 "@ + decimal(shard_id as nat) + " 不存在"@),
            operation matches ShardOperation::RebalanceShards { migrations }
                ==> success_message(r) == Some("分片重新平衡完成，"@ + decimal(0) + " 个迁移全部成功"@) && (success_data(r) matches Some(
                CommandData::Rebalance { total_migrations, completed_migrations, failed_migrations },
            ) && total_migrations == migrations@.len() && completed_migrations == 0
                && failed_migrations@.len() == 0),
    {
        match operation {
            ShardOperation::CreateShard { shard_id, primary_node, replica_nodes } => {
                CommandResult::Success {
                    message: around_decimal("分片 ", shard_id as u64, " 创建成功"),
                    data: Some(CommandData::CreatedShard { shard_id, primary_node, replica_nodes }),
                }
            },
            ShardOperation::MigrateShard { shard_id, from_node, to_node } => {
                let migration_success = false;
                if migration_success {
                    CommandResult::Success {
                        message: around_decimal("分片 ", shard_id as u64, " 迁移成功"),
                        data: Some(CommandData::MigratedShard { shard_id, from_node, to_node }),
                    }
                } else {
                    CommandResult::Error { error: around_decimal("分片 ", shard_id as u64, " 不存在"), code: 404 }
                }
            },
            ShardOperation::RebalanceShards { migrations } => {
                let completed_migrations: usize = 0;
                let failed_migrations: Vec<String> = Vec::new();
                let total_migrations = migrations.len();
                if failed_migrations.len() == 0 {
                    CommandResult::Success {
                        message: around_decimal("分片重新平衡完成，", completed_migrations as u64, " 个迁移全部成功"),
                        data: Some(CommandData::Rebalance { total_migrations, completed_migrations, failed_migrations }),
                    }
                } else {
                    let mut message = String::from_str("分片重新平衡部分完成，");
                    push_decimal(&mut message, completed_migrations as u64);
                    message.append(" 个成功，");
                    push_decimal(&mut message, failed_migrations.len() as u64);
                    message.append(" 个失败");
                    CommandResult::Success {
                        message,
                        data: Some(CommandData::Rebalance { total_migrations, completed_migrations, failed_migrations }),
                    }
                }
            },
        }
    }
}

/// The number of `true` answers in `oks`.
pub open spec fn true_count(oks: Seq<bool>) -> nat
    decreases oks.len(),
{
    if oks.len() == 0 {
        0
    } else {
        true_count(oks.drop_last()) + if oks.last() { 1nat } else { 0nat }
    }
}

/// The outcome of stored points (every store having succeeded).
pub fn upsert_result() -> (r: CommandResult)
    ensures
        success_message(r) == Some("向量插入成功"@),
        success_data(r) is None,
{
    CommandResult::Success { message: String::from_str("向量插入成功"), data: None }
}

/// The outcome of deleting points, given for each whether storage held
/// it: "删除 <n> 个向量" with the count of those deleted.
pub fn deletion_result(deleted: &Vec<bool>) -> (r: CommandResult)
    ensures
        success_message(r) == Some("删除 "@ + decimal(true_count(deleted@)) + " 个向量"@),
        success_data(r) == Some(CommandData::DeletedCount(true_count(deleted@) as u64)),
{
    let mut n: u64 = 0;
    let mut i: usize = 0;
    while i < deleted.len()
        invariant
            i <= deleted@.len(),
            n == true_count(deleted@.subrange(0, i as int)),
            n <= i,
        decreases deleted.len() - i,
    {
        assert(deleted@.subrange(0, i + 1).drop_last() =~= deleted@.subrange(0, i as int));
        if deleted[i] {
            n = n + 1;
        }
        i = i + 1;
    }
    assert(deleted@.subrange(0, deleted@.len() as int) =~= deleted@);
    CommandResult::Success { message: around_decimal("删除 ", n, " 个向量"), data: Some(CommandData::DeletedCount(n)) }
}

/// The outcome of a batch: "批量操作完成" with the outcome of each operation.
pub fn batch_result(results: Vec<CommandResult>) -> (r: CommandResult)
    ensures
        success_message(r) == Some("批量操作完成"@),
        r matches CommandResult::Success { data: Some(CommandData::Results(v)), .. } && v == results,
{
    CommandResult::Success { message: String::from_str("批量操作完成"), data: Some(CommandData::Results(results)) }
}

/// The consensus command that a committed vector command stands for: upserts
/// and deletes become vector operations on their shard, a shard creation
/// becomes a shard placed on `local_node` with no replicas, and dropping a
/// shard is not carried out (`None`).
pub fn command_for_entry<P>(command: VectorCommand<P>, local_node: NodeId) -> (r: Option<ConsensusCommand<P>>)
    ensures
        command matches VectorCommand::DropShard { .. } <==> r.is_none(),
        command matches VectorCommand::Delete { point_ids, shard_id } ==> r matches Some(
            ConsensusCommand::VectorOperation { operation: VectorOperation::Delete { point_ids: ids }, shard_id: s },
        ) && ids == point_ids && s == shard_id,
        command matches VectorCommand::Upsert { points, shard_id } ==> r matches Some(
            ConsensusCommand::VectorOperation { operation: VectorOperation::Upsert { points: ps }, shard_id: s },
        ) && ps == points && s == shard_id,
        command matches VectorCommand::CreateShard { shard_id, .. } ==> r matches Some(
            ConsensusCommand::ShardOperation {
                operation: ShardOperation::CreateShard { shard_id: s, primary_node, replica_nodes },
            },
        ) && s == shard_id && primary_node == local_node && replica_nodes@.len() == 0,
{
    match command {
        VectorCommand::Upsert { points, shard_id } => Some(
            ConsensusCommand::VectorOperation { operation: VectorOperation::Upsert { points }, shard_id },
        ),
        VectorCommand::Delete { point_ids, shard_id } => Some(
            ConsensusCommand::VectorOperation { operation: VectorOperation::Delete { point_ids }, shard_id },
        ),
        VectorCommand::CreateShard { shard_id, hash_range: _ } => Some(
            ConsensusCommand::ShardOperation {
                operation: ShardOperation::CreateShard { shard_id, primary_node: local_node, replica_nodes: Vec::new() },
            },
        ),
        VectorCommand::DropShard { shard_id: _ } => None,
    }
}

/// What became of a committed entry handed to the command handler.
#[derive(Clone, Copy, Debug, PartialEq, Eq, Structural)]
pub enum ApplyOutcome {
    /// The command was carried out.
    Applied,
    /// The command is one that is not carried out (a shard drop).
    Skipped,
    /// The command failed, or its bytes could not be read.
    Failed,
}

/// The position up to which committed entries have been applied.
#[derive(Clone, Copy, Debug)]
pub struct CommandApplier {
    pub last_applied: u64,
}

impl CommandApplier {
    /// Nothing applied yet.
    pub fn new() -> (a: CommandApplier)
        ensures
            a.last_applied == 0,
    {
        CommandApplier { last_applied: 0 }
    }

    /// The entries to apply when `commit_index` is committed: those after the
    /// last applied one up to `commit_index`, as an inclusive range; none when
    /// nothing new is committed.
    pub fn pending(&self, commit_index: u64) -> (r: Option<(u64, u64)>)
        ensures
            r.is_some() == (commit_index > self.last_applied),
            r matches Some((a, b)) ==> a == self.last_applied + 1 && b == commit_index,
    {
        if commit_index > self.last_applied {
            Some((self.last_applied + 1, commit_index))
        } else {
            None
        }
    }

    /// Records what became of entry `index`: applied and skipped entries move
    /// the position to it; a failure leaves it where it was.
    pub fn record(&mut self, index: u64, outcome: ApplyOutcome)
        ensures
            final(self).last_applied == (if outcome == ApplyOutcome::Failed {
                old(self).last_applied
            } else {
                index
            }),
    {
        match outcome {
            ApplyOutcome::Failed => {},
            _ => {
                self.last_applied = index;
            },
        }
    }
}

/// An entry of the leader's command log.
#[derive(Debug)]
pub struct LogEntry {
    pub term: u64,
    /// The position in the log, from 0.
    pub index: u64,
    pub command: Vec<u8>,
}

/// How a log entry's replication went.
#[derive(Clone, Copy, Debug)]
pub struct ReplicationResult {
    pub success: bool,
    pub committed_index: u64,
    /// The nodes that hold the entry, the leader included.
    pub successful_replications: usize,
    pub required_acks: usize,
}

/// The leader's command log.
#[derive(Debug)]
pub struct RaftInternalState {
    pub current_term: u64,
    pub log: Vec<LogEntry>,
    pub commit_index: u64,
    pub last_applied: u64,
}

impl RaftInternalState {
    /// An empty log in term 0.
    pub fn new() -> (s: RaftInternalState)
        ensures
            s.current_term == 0,
            s.log@.len() == 0,
            s.commit_index == 0,
            s.last_applied == 0,
    {
        RaftInternalState { current_term: 0, log: Vec::new(), commit_index: 0, last_applied: 0 }
    }

    /// Appends `command` in the current term at the next position and returns
    /// a copy of the new entry.
    pub fn append_command(&mut self, command: Vec<u8>) -> (e: LogEntry)
        ensures
            e.term == old(self).current_term,
            e.index == old(self).log@.len(),
            e.command@ == command@,
            final(self).log@.len() == old(self).log@.len() + 1,
            final(self).log@.subrange(0, old(self).log@.len() as int) == old(self).log@,
            final(self).log@.last().term == e.term,
            final(self).log@.last().index == e.index,
            final(self).log@.last().command@ == command@,
            final(self).current_term == old(self).current_term,
            final(self).commit_index == old(self).commit_index,
            final(self).last_applied == old(self).last_applied,
    {
        let len = self.log.len();
        let index = len as u64;
        let entry = LogEntry { term: self.current_term, index, command: command.clone() };
        self.log.push(LogEntry { term: self.current_term, index, command });
        proof {
            assert(self.log@.subrange(0, len as int) =~= old(self).log@);
        }
        entry
    }

    /// Records the commitment that a replication reached.
    pub fn apply_replication(&mut self, result: &ReplicationResult)
        ensures
            final(self).commit_index == result.committed_index,
            final(self).log == old(self).log,
            final(self).current_term == old(self).current_term,
            final(self).last_applied == old(self).last_applied,
    {
        self.commit_index = result.committed_index;
    }
}

/// The number of `true` among `acks`.
pub open spec fn ack_count(acks: Seq<bool>) -> nat
    decreases acks.len(),
{
    if acks.len() == 0 {
        0
    } else {
        ack_count(acks.drop_last()) + if acks.last() { 1nat } else { 0nat }
    }
}

proof fn lemma_ack_count_bound(acks: Seq<bool>)
    ensures
        ack_count(acks) <= acks.len(),
    decreases acks.len(),
{
    if acks.len() > 0 {
        lemma_ack_count_bound(acks.drop_last());
    }
}

/// How the replication of entry `entry_index` went in a cluster of
/// `total_nodes`, given the followers' answers: a majority (half the nodes
/// and one) must hold it, the leader counting for one; it is committed at
/// its index when they do, at 0 otherwise.
pub fn replication_result(total_nodes: usize, acks: &Vec<bool>, entry_index: u64) -> (r: ReplicationResult)
    requires
        acks@.len() < usize::MAX,
    ensures
        r.required_acks == total_nodes / 2 + 1,
        r.successful_replications == 1 + ack_count(acks@),
        r.success == (r.successful_replications >= r.required_acks),
        r.committed_index == (if r.success { entry_index } else { 0 }),
{
    let required_acks = total_nodes / 2 + 1;
    let mut successful: usize = 1;
    let mut i: usize = 0;
    while i < acks.len()
        invariant
            i <= acks@.len(),
            acks@.len() < usize::MAX,
            successful == 1 + ack_count(acks@.subrange(0, i as int)),
            ack_count(acks@.subrange(0, i as int)) <= i,
        decreases acks@.len() - i,
    {
        proof {
            assert(acks@.subrange(0, i + 1).drop_last() =~= acks@.subrange(0, i as int));
        }
        if acks[i] {
            successful = successful + 1;
        }
        i = i + 1;
    }
    proof {
        assert(acks@.subrange(0, acks@.len() as int) =~= acks@);
    }
    let success = successful >= required_acks;
    ReplicationResult {
        success,
        committed_index: if success { entry_index } else { 0 },
        successful_replications: successful,
        required_acks,
    }
}

} // verus!
