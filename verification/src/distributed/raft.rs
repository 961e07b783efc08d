//! The Raft replicated log: the decisions a node takes on votes, appends,
//! elections, replication, commitment, compaction and recovery.
//!
//! The node's state lives in [`RaftNode`]; every step is a method that moves
//! the state by the transition that the spec functions of this file describe.
//! Timers, the network and persistence stay with the caller, which hands the
//! node what it observed and performs what the node decided.

use crate::random::{fastrand_u64_below, fastrand_u8_below, new_uuid_string};
use crate::text::{concat, decimal, push_decimal, push_zero_padded, zero_padded};
use crate::types::{LogIndex, NodeId, Term};
use vstd::prelude::*;

verus! {

/// The role of a Raft node.
#[derive(Clone, Copy, Debug, PartialEq, Eq, Structural)]
pub enum RaftState {
    Follower,
    Candidate,
    Leader,
}

/// The kind of a log entry.
#[derive(Clone, Copy, Debug, PartialEq, Eq, Structural)]
pub enum LogEntryType {
    Normal,
    ConfigChange,
    Snapshot,
}

/// A vector command carried in a log entry; `P` is the point type, whose
/// contents this layer never reads.
#[derive(Debug)]
pub enum VectorCommand<P> {
    Upsert { points: Vec<P>, shard_id: u32 },
    Delete { point_ids: Vec<String>, shard_id: u32 },
    CreateShard { shard_id: u32, hash_range: (u64, u64) },
    DropShard { shard_id: u32 },
}

/// The name of the kind of `command` in a snapshot summary; "unknown"
/// where the entry's bytes held no command.
pub fn command_type_name<P>(command: Option<&VectorCommand<P>>) -> (name: &'static str)
    ensures
        name@ == match command {
            None => "unknown"@,
            Some(VectorCommand::Upsert { .. }) => "upsert"@,
            Some(VectorCommand::Delete { .. }) => "delete"@,
            Some(VectorCommand::CreateShard { .. }) => "create_shard"@,
            Some(VectorCommand::DropShard { .. }) => "drop_shard"@,
        },
{
    match command {
        None => "unknown",
        Some(VectorCommand::Upsert { .. }) => "upsert",
        Some(VectorCommand::Delete { .. }) => "delete",
        Some(VectorCommand::CreateShard { .. }) => "create_shard",
        Some(VectorCommand::DropShard { .. }) => "drop_shard",
    }
}

/// An entry of the replicated log.
#[derive(Debug)]
pub struct LogEntry {
    pub index: LogIndex,
    pub term: Term,
    pub entry_type: LogEntryType,
    pub data: Vec<u8>,
    pub timestamp: i64,
}

/// Two entries that hold the same values.
pub open spec fn same_entry(a: LogEntry, b: LogEntry) -> bool {
    &&& a.index == b.index
    &&& a.term == b.term
    &&& a.entry_type == b.entry_type
    &&& a.data@ == b.data@
    &&& a.timestamp == b.timestamp
}

/// Two logs that hold the same entries, position by position.
pub open spec fn same_entries(a: Seq<LogEntry>, b: Seq<LogEntry>) -> bool {
    &&& a.len() == b.len()
    &&& forall|i: int| 0 <= i < a.len() ==> same_entry(#[trigger] a[i], b[i])
}

impl LogEntry {
    /// A copy of this entry.
    pub fn duplicate(&self) -> (r: LogEntry)
        ensures
            same_entry(r, *self),
    {
        let data = self.data.clone();
        assert(data@ =~= self.data@);
        LogEntry {
            index: self.index,
            term: self.term,
            entry_type: self.entry_type,
            data,
            timestamp: self.timestamp,
        }
    }
}

/// The state a node keeps on stable storage.
#[derive(Debug)]
pub struct PersistentRaftState {
    pub current_term: Term,
    pub voted_for: Option<NodeId>,
    pub last_log_index: LogIndex,
}

/// The configuration of a Raft node.
#[derive(Debug)]
pub struct RaftConfig {
    pub node_id: NodeId,
    pub peers: Vec<NodeId>,
    pub election_timeout_ms: u64,
    pub heartbeat_interval_ms: u64,
    pub log_compaction_threshold: usize,
    pub snapshot_interval: usize,
}

impl RaftConfig {
    /// The default configuration: a fresh random node id, no peers, a 150 ms
    /// election timeout, a 50 ms heartbeat, compaction past 1000 entries and a
    /// snapshot every 100 entries.
    pub fn default() -> (c: RaftConfig)
        ensures
            c.node_id@.len() == 36,
            c.peers@.len() == 0,
            c.election_timeout_ms == 150,
            c.heartbeat_interval_ms == 50,
            c.log_compaction_threshold == 1000,
            c.snapshot_interval == 100,
    {
        RaftConfig {
            node_id: new_uuid_string(),
            peers: Vec::new(),
            election_timeout_ms: 150,
            heartbeat_interval_ms: 50,
            log_compaction_threshold: 1000,
            snapshot_interval: 100,
        }
    }
}

/// A candidate's request for a vote.
#[derive(Debug)]
pub struct VoteRequest {
    pub term: Term,
    pub candidate_id: NodeId,
    pub last_log_index: LogIndex,
    pub last_log_term: Term,
}

/// The answer to a vote request.
#[derive(Clone, Copy, Debug, PartialEq, Eq, Structural)]
pub struct VoteResponse {
    pub term: Term,
    pub vote_granted: bool,
}

/// A leader's request to append entries (empty for a heartbeat).
#[derive(Debug)]
pub struct AppendRequest {
    pub term: Term,
    pub leader_id: NodeId,
    pub prev_log_index: LogIndex,
    pub prev_log_term: Term,
    pub entries: Vec<LogEntry>,
    pub leader_commit: LogIndex,
}

/// The answer to an append request.
#[derive(Clone, Copy, Debug, PartialEq, Eq, Structural)]
pub struct AppendResponse {
    pub term: Term,
    pub success: bool,
    pub match_index: LogIndex,
}

/// What a node did with an append request: its answer, and whether its commit
/// index moved (then the newly committed entries are to be applied).
#[derive(Debug)]
pub struct AppendOutcome {
    pub response: AppendResponse,
    pub commit_advanced: bool,
}

/// A Raft node: its configuration and its volatile and persistent state.
#[derive(Debug)]
pub struct RaftNode {
    pub config: RaftConfig,
    pub state: RaftState,
    pub current_term: Term,
    pub voted_for: Option<NodeId>,
    pub log: Vec<LogEntry>,
    pub commit_index: LogIndex,
    pub last_applied: LogIndex,
    pub next_index: Vec<(NodeId, LogIndex)>,
    pub match_index: Vec<(NodeId, LogIndex)>,
}

/// The abstract state of a node.
pub struct RaftView {
    pub node_id: Seq<char>,
    pub peers: Seq<Seq<char>>,
    pub state: RaftState,
    pub current_term: Term,
    pub voted_for: Option<Seq<char>>,
    pub log: Seq<LogEntry>,
    pub commit_index: LogIndex,
    pub last_applied: LogIndex,
    pub next_index: Seq<(Seq<char>, LogIndex)>,
    pub match_index: Seq<(Seq<char>, LogIndex)>,
}

/// The view of an optional node id.
pub open spec fn opt_view(o: Option<String>) -> Option<Seq<char>> {
    match o {
        None => None,
        Some(s) => Some(s@),
    }
}

/// The view of a list of (node id, index) pairs.
pub open spec fn pairs_view(v: Seq<(String, u64)>) -> Seq<(Seq<char>, u64)> {
    v.map_values(|p: (String, u64)| (p.0@, p.1))
}

impl View for RaftNode {
    type V = RaftView;

    open spec fn view(&self) -> RaftView {
        RaftView {
            node_id: self.config.node_id@,
            peers: self.config.peers@.map_values(|p: String| p@),
            state: self.state,
            current_term: self.current_term,
            voted_for: opt_view(self.voted_for),
            log: self.log@,
            commit_index: self.commit_index,
            last_applied: self.last_applied,
            next_index: pairs_view(self.next_index@),
            match_index: pairs_view(self.match_index@),
        }
    }
}

/// The term of the last entry of `log` (0 for an empty log).
pub open spec fn last_term(log: Seq<LogEntry>) -> Term {
    if log.len() == 0 {
        0
    } else {
        log.last().term
    }
}

/// The (index, term) of the last entry, as the entry records them ((0, 0) when empty).
pub open spec fn last_entry_info(log: Seq<LogEntry>) -> (LogIndex, Term) {
    if log.len() == 0 {
        (0, 0)
    } else {
        (log.last().index, log.last().term)
    }
}

/// A node that hears of `term` adopts it if it is newer, forgetting its vote
/// and stepping down.
pub open spec fn observe_term(s: RaftView, term: Term) -> RaftView {
    if term > s.current_term {
        RaftView { current_term: term, voted_for: None, state: RaftState::Follower, ..s }
    } else {
        s
    }
}

/// The candidate's log is at least as up to date as `log`.
pub open spec fn candidate_up_to_date(log: Seq<LogEntry>, req: VoteRequest) -> bool {
    ||| req.last_log_term > last_term(log)
    ||| (req.last_log_term == last_term(log) && req.last_log_index >= log.len())
}

/// The vote step: the next state and whether the vote is granted.
pub open spec fn vote_step(s: RaftView, req: VoteRequest) -> (RaftView, bool) {
    let s1 = observe_term(s, req.term);
    let granted = req.term >= s1.current_term && (match s1.voted_for {
        None => true,
        Some(v) => v == req.candidate_id@,
    }) && candidate_up_to_date(s1.log, req);
    if granted {
        (RaftView { voted_for: Some(req.candidate_id@), ..s1 }, true)
    } else {
        (s1, false)
    }
}

/// The position at which `entries`, laid over `log` from `start`, first
/// disagree with it by term, scanning from entry `i` (and `start` if they
/// never disagree where both have entries).
pub open spec fn conflict_from(log: Seq<LogEntry>, start: int, entries: Seq<LogEntry>, i: int) -> int
    decreases entries.len() - i,
{
    if i < 0 || i >= entries.len() || start + i >= log.len() {
        start
    } else if log[start + i].term != entries[i].term {
        start + i
    } else {
        conflict_from(log, start, entries, i + 1)
    }
}

/// The log after laying `entries` over `log` from `start`: cut at the first
/// disagreement (or at `start`) and followed by all of `entries`.
pub open spec fn merged_log(log: Seq<LogEntry>, start: int, entries: Seq<LogEntry>) -> Seq<LogEntry> {
    if entries.len() == 0 {
        log
    } else {
        log.subrange(0, conflict_from(log, start, entries, 0)) + entries
    }
}

/// The log agrees with the leader at `prev_log_index`.
pub open spec fn append_consistent(log: Seq<LogEntry>, req: AppendRequest) -> bool {
    ||| req.prev_log_index == 0
    ||| (req.prev_log_index <= log.len() && log[req.prev_log_index - 1].term == req.prev_log_term)
}

/// The commit index after a successful append.
pub open spec fn advanced_commit(commit: LogIndex, leader_commit: LogIndex, log_len: nat) -> LogIndex {
    if leader_commit > commit {
        let c = if leader_commit < log_len { leader_commit as int } else { log_len as int };
        if c > commit { c as LogIndex } else { commit }
    } else {
        commit
    }
}

/// The append step: the next state and the answer.
pub open spec fn append_step(s: RaftView, req: AppendRequest) -> (RaftView, AppendResponse) {
    let s1 = observe_term(s, req.term);
    if req.term < s1.current_term || !append_consistent(s1.log, req) {
        (s1, AppendResponse { term: s1.current_term, success: false, match_index: 0 })
    } else {
        let log = merged_log(s1.log, req.prev_log_index as int, req.entries@);
        let commit = advanced_commit(s1.commit_index, req.leader_commit, log.len());
        (
            RaftView { log, commit_index: commit, ..s1 },
            AppendResponse { term: s1.current_term, success: true, match_index: log.len() as LogIndex },
        )
    }
}

/// The number of acknowledgements (the own one included) that a cluster of
/// `peers + 1` nodes needs: a strict majority.
pub open spec fn quorum(peers: nat) -> nat {
    (peers + 1) / 2 + 1
}

/// The leader's initial bookkeeping for `peers`, given its log length.
pub open spec fn leader_next_index(peers: Seq<Seq<char>>, log_len: nat) -> Seq<(Seq<char>, LogIndex)> {
    peers.map_values(|p: Seq<char>| (p, (log_len + 1) as LogIndex))
}

/// A leader starts out knowing of no follower's progress.
pub open spec fn leader_match_index(peers: Seq<Seq<char>>) -> Seq<(Seq<char>, LogIndex)> {
    peers.map_values(|p: Seq<char>| (p, 0 as LogIndex))
}

/// The state of a node that has just become leader.
pub open spec fn leader_step(s: RaftView) -> RaftView {
    RaftView {
        state: RaftState::Leader,
        next_index: leader_next_index(s.peers, s.log.len()),
        match_index: leader_match_index(s.peers),
        ..s
    }
}

/// Terms never decrease along the log.
pub open spec fn terms_nondecreasing(log: Seq<LogEntry>) -> bool {
    forall|i: int, j: int| 0 <= i <= j < log.len() ==> log[i].term <= log[j].term
}

/// Whether `r` reports the first position where a term of `log` drops:
/// "日志一致性检查失败：索引 <position, from 1> 的任期 <term> 小于前一条目的任期 <previous term>".
#[verifier::opaque]
pub open spec fn reports_first_decrease(log: Seq<LogEntry>, r: Result<(), String>) -> bool {
    forall|i: int|
        0 < i < log.len() && #[trigger] log[i].term < log[i - 1].term && (forall|a: int, b: int|
            0 <= a <= b < i ==> log[a].term <= log[b].term) ==> (r matches Err(m) && m@
            == "日志一致性检查失败：索引 "@ + decimal((i + 1) as nat) + " 的任期 "@ + decimal(log[i].term as nat)
            + " 小于前一条目的任期 "@ + decimal(log[i - 1].term as nat))
}

proof fn lemma_first_decrease_reported(log: Seq<LogEntry>, i: int, msg: String)
    requires
        0 < i < log.len(),
        log[i].term < log[i - 1].term,
        forall|a: int, b: int| 0 <= a <= b < i ==> log[a].term <= log[b].term,
        msg@ == "日志一致性检查失败：索引 "@ + decimal((i + 1) as nat) + " 的任期 "@ + decimal(log[i].term as nat)
            + " 小于前一条目的任期 "@ + decimal(log[i - 1].term as nat),
    ensures
        reports_first_decrease(log, Err(msg)),
{
    reveal(reports_first_decrease);
    assert forall|i2: int|
        0 < i2 < log.len() && #[trigger] log[i2].term < log[i2 - 1].term && (forall|a: int, b: int|
            0 <= a <= b < i2 ==> log[a].term <= log[b].term) implies i2 == i by {
        if i2 < i {
            assert(log[i2 - 1].term <= log[i2].term);
        }
        if i2 > i {
            assert(log[i - 1].term <= log[i].term);
        }
    }
}

/// The key under which a node's persistent state is stored.
pub open spec fn state_key(node_id: Seq<char>) -> Seq<char> {
    "raft_state_"@ + node_id
}

/// The key under which a node stores the log entry at `index`.
pub open spec fn log_key(node_id: Seq<char>, index: nat) -> Seq<char> {
    "raft_log_"@ + node_id + "_"@ + decimal(index)
}

/// The key that recovery looks up for the entry at `index` (zero-padded to 20 digits).
pub open spec fn recovery_log_key(index: nat) -> Seq<char> {
    "raft_log_"@ + zero_padded(index, 20)
}

/// The log after compaction at `index`: a snapshot entry followed by the entries past `index`.
pub open spec fn compacted_log(log: Seq<LogEntry>, index: int, snapshot: LogEntry) -> Seq<LogEntry> {
    seq![snapshot] + log.subrange(index, log.len() as int)
}

/// Whether a simulated peer grants a vote, given its dice roll out of ten.
pub open spec fn simulated_vote(term: Term, roll: u8) -> bool {
    term > 0 && roll <= 7
}

/// Whether a simulated peer accepts a replication request, given its dice roll out of ten.
pub open spec fn simulated_append(term: Term, entry_count: nat, roll: u8) -> bool {
    term > 0 && entry_count > 0 && roll <= 8
}

proof fn lemma_conflict_bounds(log: Seq<LogEntry>, start: int, entries: Seq<LogEntry>, i: int)
    requires
        0 <= start <= log.len(),
    ensures
        start <= conflict_from(log, start, entries, i) <= log.len(),
    decreases entries.len() - i,
{
    if i < 0 || i >= entries.len() || start + i >= log.len() {
    } else if log[start + i].term != entries[i].term {
    } else {
        lemma_conflict_bounds(log, start, entries, i + 1);
    }
}

/// A node that grants its vote in some term cannot grant it to another
/// candidate in that same term.
pub proof fn lemma_one_vote_per_term(s: RaftView, r1: VoteRequest, r2: VoteRequest)
    requires
        r1.term == r2.term,
        r1.candidate_id@ != r2.candidate_id@,
    ensures
        !(vote_step(s, r1).1 && vote_step(vote_step(s, r1).0, r2).1),
{
}

/// Vote and append steps never lower the term, and a node ends up at least at
/// the term it heard of.
pub proof fn lemma_terms_never_decrease(s: RaftView, v: VoteRequest, a: AppendRequest)
    ensures
        vote_step(s, v).0.current_term >= s.current_term,
        vote_step(s, v).0.current_term >= v.term,
        append_step(s, a).0.current_term >= s.current_term,
        append_step(s, a).0.current_term >= a.term,
{
}

/// An append never lowers the commit index.
pub proof fn lemma_commit_never_decreases(s: RaftView, a: AppendRequest)
    ensures
        append_step(s, a).0.commit_index >= s.commit_index,
{
}

/// A successful append keeps the entries up to `prev_log_index`, ends the log
/// with the leader's entries, and reports the new length as the match index.
pub proof fn lemma_append_log_matching(s: RaftView, a: AppendRequest)
    requires
        append_step(s, a).1.success,
    ensures
        a.prev_log_index <= s.log.len(),
        append_step(s, a).0.log.len() >= a.prev_log_index,
        forall|i: int| 0 <= i < a.prev_log_index ==> append_step(s, a).0.log[i] == s.log[i],
        a.entries@.len() > 0 ==> append_step(s, a).0.log.subrange(
            append_step(s, a).0.log.len() - a.entries@.len(),
            append_step(s, a).0.log.len() as int,
        ) == a.entries@,
        append_step(s, a).1.match_index == append_step(s, a).0.log.len() as LogIndex,
{
    let s1 = observe_term(s, a.term);
    lemma_conflict_bounds(s1.log, a.prev_log_index as int, a.entries@, 0);
    let new_log = append_step(s, a).0.log;
    if a.entries@.len() > 0 {
        assert(new_log.subrange(new_log.len() - a.entries@.len(), new_log.len() as int) =~= a.entries@);
    }
}

/// Any two strict majorities of a cluster share a node: twice the quorum
/// exceeds the cluster size.
pub proof fn lemma_quorums_intersect(peers: nat)
    ensures
        2 * quorum(peers) > peers + 1,
        quorum(peers) <= peers + 1,
{
}

impl RaftNode {
    /// A follower at term 0 with an empty log.
    pub fn new(config: RaftConfig) -> (n: RaftNode)
        ensures
            n.config == config,
            n.state == RaftState::Follower,
            n.current_term == 0,
            n.voted_for.is_none(),
            n.log@.len() == 0,
            n.commit_index == 0,
            n.last_applied == 0,
            n.next_index@.len() == 0,
            n.match_index@.len() == 0,
    {
        RaftNode {
            config,
            state: RaftState::Follower,
            current_term: 0,
            voted_for: None,
            log: Vec::new(),
            commit_index: 0,
            last_applied: 0,
            next_index: Vec::new(),
            match_index: Vec::new(),
        }
    }

    /// The node's role.
    pub fn get_state(&self) -> (r: RaftState)
        ensures
            r == self.state,
    {
        self.state
    }

    /// The node's current term.
    pub fn get_term(&self) -> (r: Term)
        ensures
            r == self.current_term,
    {
        self.current_term
    }

    /// The node's id.
    pub fn get_node_id(&self) -> (r: NodeId)
        ensures
            r@ == self.config.node_id@,
    {
        self.config.node_id.clone()
    }

    /// Whether the node leads.
    pub fn is_leader(&self) -> (r: bool)
        ensures
            r == (self.state == RaftState::Leader),
    {
        self.state == RaftState::Leader
    }

    /// The commit index.
    pub fn get_commit_index(&self) -> (r: LogIndex)
        ensures
            r == self.commit_index,
    {
        self.commit_index
    }

    /// The length of the log, which is the index of its last entry.
    pub fn get_last_log_index(&self) -> (r: LogIndex)
        ensures
            r == self.log@.len(),
    {
        self.log.len() as LogIndex
    }

    /// The term of the last entry (0 for an empty log).
    pub fn get_last_log_term(&self) -> (r: Term)
        ensures
            r == last_term(self.log@),
    {
        if self.log.len() == 0 {
            0
        } else {
            self.log[self.log.len() - 1].term
        }
    }

    /// The entry at the 1-based `index`, if there is one.
    pub fn get_log_entry(&self, index: LogIndex) -> (r: Option<LogEntry>)
        ensures
            (index > 0 && index <= self.log@.len()) == r.is_some(),
            r.is_some() ==> same_entry(r.unwrap(), self.log@[index - 1]),
    {
        if index > 0 && index <= self.log.len() as LogIndex {
            Some(self.log[(index - 1) as usize].duplicate())
        } else {
            None
        }
    }

    fn last_entry_info(&self) -> (r: (LogIndex, Term))
        ensures
            r == last_entry_info(self.log@),
    {
        if self.log.len() == 0 {
            (0, 0)
        } else {
            let last = &self.log[self.log.len() - 1];
            (last.index, last.term)
        }
    }

    /// Answers a vote request: adopts a newer term, then grants the vote when
    /// the term is current, the node has not voted for someone else in it, and
    /// the candidate's log is at least as up to date as its own.
    pub fn handle_vote_request(&mut self, request: VoteRequest) -> (r: VoteResponse)
        ensures
            (final(self)@, r.vote_granted) == vote_step(old(self)@, request),
            r.term == final(self).current_term,
            final(self).config == old(self).config,
    {
        let ghost req = request;
        if request.term > self.current_term {
            self.current_term = request.term;
            self.voted_for = None;
            self.state = RaftState::Follower;
        }
        let ghost s1 = self@;
        assert(s1 == observe_term(old(self)@, req.term));
        let vote_granted = if request.term < self.current_term {
            false
        } else if self.voted_for.is_some() && !(*self.voted_for.as_ref().unwrap()
            == request.candidate_id) {
            false
        } else {
            let last_log_index = self.log.len() as LogIndex;
            let last_log_term = self.get_last_log_term();
            if request.last_log_term > last_log_term || (request.last_log_term == last_log_term
                && request.last_log_index >= last_log_index) {
                self.voted_for = Some(request.candidate_id);
                true
            } else {
                false
            }
        };
        proof {
            if vote_granted {
                assert(self@ =~= (RaftView { voted_for: Some(req.candidate_id@), ..s1 }));
            }
        }
        VoteResponse { term: self.current_term, vote_granted }
    }

    fn merge_entries(&mut self, start: u64, entries: Vec<LogEntry>) -> (match_index: LogIndex)
        requires
            start <= old(self).log@.len(),
        ensures
            final(self).log@ == merged_log(old(self).log@, start as int, entries@),
            match_index == final(self).log@.len(),
            final(self).config == old(self).config,
            final(self).state == old(self).state,
            final(self).current_term == old(self).current_term,
            final(self).voted_for == old(self).voted_for,
            final(self).commit_index == old(self).commit_index,
            final(self).last_applied == old(self).last_applied,
            final(self).next_index == old(self).next_index,
            final(self).match_index == old(self).match_index,
    {
        if entries.len() == 0 {
            return self.log.len() as LogIndex;
        }
        let ghost log0 = self.log@;
        let ghost ents = entries@;
        let len0 = self.log.len();
        let start_index = start as usize;
        assert(start_index == start);
        let mut cut = start_index;
        let mut i: usize = 0;
        let mut done = false;
        while !done && i < entries.len()
            invariant
                start_index == start,
                start_index <= log0.len(),
                self.log@ == log0,
                entries@ == ents,
                i <= entries@.len(),
                !done ==> conflict_from(log0, start as int, ents, i as int) == conflict_from(
                    log0,
                    start as int,
                    ents,
                    0,
                ),
                !done ==> cut == start_index,
                done ==> cut as int == conflict_from(log0, start as int, ents, 0),
            decreases entries.len() - i + (if done { 0int } else { 1int }),
        {
            if i >= self.log.len() - start_index {
                done = true;
            } else if self.log[start_index + i].term != entries[i].term {
                cut = start_index + i;
                done = true;
            } else {
                i = i + 1;
            }
        }
        proof {
            lemma_conflict_bounds(log0, start as int, ents, 0);
        }
        assert(cut == conflict_from(log0, start as int, ents, 0));
        self.log.truncate(cut);
        let mut rest = entries;
        self.log.append(&mut rest);
        assert(self.log@ =~= log0.subrange(0, cut as int) + ents);
        self.log.len() as LogIndex
    }

    /// Answers an append request: adopts a newer term, accepts the entries when
    /// the term is current and the log agrees at `prev_log_index`, then moves
    /// the commit index towards the leader's.
    pub fn handle_append_request(&mut self, request: AppendRequest) -> (r: AppendOutcome)
        ensures
            (final(self)@, r.response) == append_step(old(self)@, request),
            r.commit_advanced == (final(self).commit_index > old(self).commit_index),
            final(self).config == old(self).config,
    {
        let ghost req = request;
        if request.term > self.current_term {
            self.current_term = request.term;
            self.voted_for = None;
            self.state = RaftState::Follower;
        }
        let ghost s1 = self@;
        assert(s1 == observe_term(old(self)@, req.term));
        let leader_commit = request.leader_commit;
        let consistent = if request.term < self.current_term {
            false
        } else if request.prev_log_index > 0 {
            if request.prev_log_index > self.log.len() as LogIndex {
                false
            } else {
                self.log[(request.prev_log_index - 1) as usize].term == request.prev_log_term
            }
        } else {
            true
        };
        if !consistent {
            let response = AppendResponse {
                term: self.current_term,
                success: false,
                match_index: 0,
            };
            return AppendOutcome { response, commit_advanced: false };
        }
        let start = request.prev_log_index;
        let match_index = self.merge_entries(start, request.entries);
        let mut commit_advanced = false;
        if leader_commit > self.commit_index {
            let log_len = self.log.len() as LogIndex;
            let new_commit = if leader_commit < log_len {
                leader_commit
            } else {
                log_len
            };
            if new_commit > self.commit_index {
                self.commit_index = new_commit;
                commit_advanced = true;
            }
        }
        let response = AppendResponse { term: self.current_term, success: true, match_index };
        proof {
            let log = merged_log(s1.log, req.prev_log_index as int, req.entries@);
            assert(self@ =~= (RaftView {
                log,
                commit_index: advanced_commit(s1.commit_index, req.leader_commit, log.len()),
                ..s1
            }));
        }
        AppendOutcome { response, commit_advanced }
    }

    /// Appends a client command, already encoded as `data`, to the leader's log
    /// at the next index and the current term, and returns that index; a node
    /// that does not lead refuses.
    pub fn handle_client_command(&mut self, data: Vec<u8>, timestamp: i64) -> (r: Result<LogIndex, String>)
        requires
            old(self).log@.len() < u64::MAX,
        ensures
            r.is_ok() == (old(self).state == RaftState::Leader),
            r.is_err() ==> *final(self) == *old(self),
            r matches Err(m) ==> m@ == "只有领导者可以处理客户端命令"@,
            r.is_ok() ==> r.unwrap() == old(self).log@.len() + 1 && final(self)@ == (RaftView {
                log: old(self)@.log.push(
                    LogEntry {
                        index: r.unwrap(),
                        term: old(self).current_term,
                        entry_type: LogEntryType::Normal,
                        data,
                        timestamp,
                    },
                ),
                ..old(self)@
            }),
            final(self).config == old(self).config,
    {
        if self.state != RaftState::Leader {
            return Err(String::from_str("只有领导者可以处理客户端命令"));
        }
        let index = self.log.len() as LogIndex + 1;
        let entry = LogEntry {
            index,
            term: self.current_term,
            entry_type: LogEntryType::Normal,
            data,
            timestamp,
        };
        self.log.push(entry);
        assert(self@ =~= (RaftView { log: old(self)@.log.push(self.log@.last()), ..old(self)@ }));
        Ok(index)
    }

    /// The request that replicates the entry at `index` (the one just
    /// appended) to the followers: it carries a copy of that entry and names
    /// the entry before it and the leader's commit index.
    pub fn replication_request(&self, index: LogIndex) -> (r: AppendRequest)
        requires
            1 <= index <= self.log@.len(),
        ensures
            r.term == self.current_term,
            r.leader_id@ == self.config.node_id@,
            index > 1 ==> r.prev_log_index == self.log@[index - 2].index
                && r.prev_log_term == self.log@[index - 2].term,
            index == 1 ==> r.prev_log_index == 0 && r.prev_log_term == 0,
            same_entries(r.entries@, seq![self.log@[index - 1]]),
            r.leader_commit == self.commit_index,
    {
        let len = self.log.len();
        let (prev_log_index, prev_log_term) = if index > 1 {
            let prev = &self.log[(index - 2) as usize];
            (prev.index, prev.term)
        } else {
            (0, 0)
        };
        let mut entries = Vec::new();
        entries.push(self.log[(index - 1) as usize].duplicate());
        AppendRequest {
            term: self.current_term,
            leader_id: self.config.node_id.clone(),
            prev_log_index,
            prev_log_term,
            entries,
            leader_commit: self.commit_index,
        }
    }

    /// The number of acknowledgements, the leader's own included, that a
    /// decision of this cluster needs.
    pub fn quorum_size(&self) -> (r: usize)
        ensures
            r == quorum(self.config.peers@.len()),
    {
        let peers = self.config.peers.len();
        peers / 2 + (peers % 2) + 1
    }

    /// Commits `entry_index` once `success_count` acknowledgements (the
    /// leader's own included) reach a majority; refuses otherwise.
    pub fn finish_replication(&mut self, entry_index: LogIndex, success_count: usize) -> (r: Result<(), String>)
        ensures
            r.is_ok() == (success_count >= quorum(old(self).config.peers@.len())),
            r matches Err(m) ==> m@ == "未能获得多数节点确认: "@ + decimal(success_count as nat) + "/"@ + decimal(
                quorum(old(self).config.peers@.len()),
            ),
            r.is_ok() && entry_index > old(self).commit_index ==> final(self)@ == (RaftView {
                commit_index: entry_index,
                ..old(self)@
            }),
            !(r.is_ok() && entry_index > old(self).commit_index) ==> *final(self) == *old(self),
            final(self).config == old(self).config,
    {
        let required = self.quorum_size();
        if success_count >= required {
            if entry_index > self.commit_index {
                self.commit_index = entry_index;
            }
            Ok(())
        } else {
            let mut msg = String::from_str("未能获得多数节点确认: ");
            push_decimal(&mut msg, success_count as u64);
            msg.append("/");
            push_decimal(&mut msg, required as u64);
            Err(msg)
        }
    }

    /// Marks every committed entry as applied and returns them, oldest first,
    /// for the caller to apply to the state machine.
    pub fn apply_committed_entries(&mut self) -> (applied: Vec<LogEntry>)
        requires
            old(self).commit_index <= old(self).log@.len(),
        ensures
            old(self).last_applied < old(self).commit_index ==> {
                &&& final(self)@ == (RaftView { last_applied: old(self).commit_index, ..old(self)@ })
                &&& same_entries(
                    applied@,
                    old(self).log@.subrange(old(self).last_applied as int, old(self).commit_index as int),
                )
            },
            old(self).last_applied >= old(self).commit_index ==> *final(self) == *old(self)
                && applied@.len() == 0,
            final(self).config == old(self).config,
    {
        let mut applied: Vec<LogEntry> = Vec::new();
        let ghost first = self.last_applied as int;
        while self.last_applied < self.commit_index
            invariant
                self.commit_index == old(self).commit_index,
                self.commit_index <= self.log@.len(),
                self.log == old(self).log,
                self.config == old(self).config,
                self.state == old(self).state,
                self.current_term == old(self).current_term,
                self.voted_for == old(self).voted_for,
                self.next_index == old(self).next_index,
                self.match_index == old(self).match_index,
                first == old(self).last_applied,
                old(self).last_applied <= self.last_applied || (old(self).last_applied
                    >= self.commit_index && self.last_applied == old(self).last_applied),
                self.last_applied <= self.commit_index || self.last_applied == old(self).last_applied,
                first <= self.last_applied,
                applied@.len() == self.last_applied - first,
                forall|k: int| 0 <= k < applied@.len() ==> same_entry(#[trigger] applied@[k], self.log@[first + k]),
            decreases self.commit_index - self.last_applied,
        {
            let len = self.log.len();
            self.last_applied = self.last_applied + 1;
            let entry = self.log[(self.last_applied - 1) as usize].duplicate();
            applied.push(entry);
        }
        proof {
            if old(self).last_applied < old(self).commit_index {
                assert(self@ =~= (RaftView { last_applied: old(self).commit_index, ..old(self)@ }));
            }
        }
        applied
    }

    /// Starts an election: becomes a candidate in the next term, votes for
    /// itself, and returns the request to send to the peers.
    pub fn start_election(&mut self) -> (req: VoteRequest)
        requires
            old(self).current_term < u64::MAX,
        ensures
            final(self)@ == (RaftView {
                state: RaftState::Candidate,
                current_term: (old(self).current_term + 1) as Term,
                voted_for: Some(old(self).config.node_id@),
                ..old(self)@
            }),
            req.term == old(self).current_term + 1,
            req.candidate_id@ == old(self).config.node_id@,
            (req.last_log_index, req.last_log_term) == last_entry_info(old(self).log@),
            final(self).config == old(self).config,
    {
        self.state = RaftState::Candidate;
        self.current_term = self.current_term + 1;
        self.voted_for = Some(self.config.node_id.clone());
        let (last_log_index, last_log_term) = self.last_entry_info();
        assert(self@ =~= (RaftView {
            state: RaftState::Candidate,
            current_term: (old(self).current_term + 1) as Term,
            voted_for: Some(old(self).config.node_id@),
            ..old(self)@
        }));
        VoteRequest {
            term: self.current_term,
            candidate_id: self.config.node_id.clone(),
            last_log_index,
            last_log_term,
        }
    }

    /// Takes leadership: records, for every peer, the next index past the log
    /// and no known match.
    pub fn become_leader(&mut self)
        requires
            old(self).log@.len() < u64::MAX,
        ensures
            final(self)@ == leader_step(old(self)@),
            final(self).config == old(self).config,
    {
        let log_len = self.log.len() as LogIndex;
        let mut next_index: Vec<(NodeId, LogIndex)> = Vec::new();
        let mut match_index: Vec<(NodeId, LogIndex)> = Vec::new();
        let ghost peers = self@.peers;
        let mut i: usize = 0;
        while i < self.config.peers.len()
            invariant
                self.config == old(self).config,
                peers == old(self)@.peers,
                log_len == old(self).log@.len(),
                log_len < u64::MAX,
                peers == self.config.peers@.map_values(|p: String| p@),
                i <= self.config.peers@.len(),
                pairs_view(next_index@) == leader_next_index(peers, old(self).log@.len()).subrange(0, i as int),
                pairs_view(match_index@) == leader_match_index(peers).subrange(0, i as int),
            decreases self.config.peers.len() - i,
        {
            let peer = self.config.peers[i].clone();
            let peer2 = self.config.peers[i].clone();
            assert(peers[i as int] == self.config.peers@[i as int]@);
            let ghost ni = next_index@;
            let ghost mi = match_index@;
            next_index.push((peer, log_len + 1));
            match_index.push((peer2, 0));
            assert(next_index@ == ni.push((peer, (log_len + 1) as u64)));
            assert(pairs_view(next_index@) =~= pairs_view(ni).push((peer@, (log_len + 1) as u64)));
            assert(pairs_view(match_index@) =~= pairs_view(mi).push((peer2@, 0u64)));
            assert(pairs_view(next_index@) =~= leader_next_index(peers, old(self).log@.len()).subrange(0, i + 1));
            assert(pairs_view(match_index@) =~= leader_match_index(peers).subrange(0, i + 1));
            i = i + 1;
        }
        self.state = RaftState::Leader;
        self.next_index = next_index;
        self.match_index = match_index;
        assert(pairs_view(self.next_index@) =~= leader_next_index(peers, old(self).log@.len()));
        assert(pairs_view(self.match_index@) =~= leader_match_index(peers));
        assert(self@ =~= leader_step(old(self)@));
    }

    /// Ends an election with `votes_received` votes (its own included): a
    /// majority makes the node leader; otherwise it steps down and forgets its vote.
    pub fn finish_election(&mut self, votes_received: usize) -> (won: bool)
        requires
            old(self).log@.len() < u64::MAX,
        ensures
            won == (votes_received >= quorum(old(self).config.peers@.len())),
            won ==> final(self)@ == leader_step(old(self)@),
            !won ==> final(self)@ == (RaftView {
                state: RaftState::Follower,
                voted_for: None,
                ..old(self)@
            }),
            final(self).config == old(self).config,
    {
        let required = self.quorum_size();
        if votes_received >= required {
            self.become_leader();
            true
        } else {
            self.state = RaftState::Follower;
            self.voted_for = None;
            assert(self@ =~= (RaftView { state: RaftState::Follower, voted_for: None, ..old(self)@ }));
            false
        }
    }

    /// A simulated peer's answer to a vote request: it grants a vote for a
    /// positive term with probability eight in ten.
    pub fn simulate_peer_vote(request: &VoteRequest) -> (granted: bool)
        ensures
            granted ==> request.term > 0,
            exists|roll: u8| roll < 10 && granted == #[trigger] simulated_vote(request.term, roll),
    {
        let roll = fastrand_u8_below(10);
        let granted = Self::vote_for_roll(request.term, roll);
        assert(roll < 10 && granted == simulated_vote(request.term, roll));
        granted
    }

    /// Whether a simulated peer grants a vote for `term` on dice roll `roll`.
    pub fn vote_for_roll(term: Term, roll: u8) -> (granted: bool)
        ensures
            granted == simulated_vote(term, roll),
    {
        term > 0 && roll <= 7
    }

    /// A simulated peer's answer to a replication request: it accepts a
    /// non-empty request of a positive term with probability nine in ten.
    pub fn simulate_peer_append(request: &AppendRequest) -> (accepted: bool)
        ensures
            accepted ==> request.term > 0 && request.entries@.len() > 0,
            exists|roll: u8|
                roll < 10 && accepted == #[trigger] simulated_append(request.term, request.entries@.len(), roll),
    {
        let roll = fastrand_u8_below(10);
        let accepted = Self::append_for_roll(request.term, request.entries.len(), roll);
        assert(roll < 10 && accepted == simulated_append(request.term, request.entries@.len(), roll));
        accepted
    }

    /// Whether a simulated peer accepts a request of `term` with
    /// `entry_count` entries on dice roll `roll`.
    pub fn append_for_roll(term: Term, entry_count: usize, roll: u8) -> (accepted: bool)
        ensures
            accepted == simulated_append(term, entry_count as nat, roll),
    {
        term > 0 && entry_count > 0 && roll <= 8
    }

    /// A randomised election timeout between `base` and three times `base`.
    pub fn randomized_election_timeout(base: u64) -> (timeout: u64)
        requires
            0 < base,
            base <= u64::MAX / 3,
        ensures
            base <= timeout < 3 * base,
    {
        base + fastrand_u64_below(base * 2)
    }

    /// Whether an election is due: the node does not lead and `elapsed_ms`
    /// since the last heartbeat reached `timeout_ms`.
    pub fn election_due(&self, elapsed_ms: u64, timeout_ms: u64) -> (due: bool)
        ensures
            due == (self.state != RaftState::Leader && elapsed_ms >= timeout_ms),
    {
        self.state != RaftState::Leader && elapsed_ms >= timeout_ms
    }

    /// Whether the heartbeat timer asks this node to send heartbeats: only a leader does.
    pub fn should_send_heartbeats(&self) -> (r: bool)
        ensures
            r == (self.state == RaftState::Leader),
    {
        self.state == RaftState::Leader
    }

    /// The heartbeat a leader sends: no entries, the last entry's index and
    /// term as the previous ones, and the commit index.
    pub fn heartbeat_request(&self) -> (r: AppendRequest)
        ensures
            r.term == self.current_term,
            r.leader_id@ == self.config.node_id@,
            (r.prev_log_index, r.prev_log_term) == last_entry_info(self.log@),
            r.entries@.len() == 0,
            r.leader_commit == self.commit_index,
    {
        let (prev_log_index, prev_log_term) = self.last_entry_info();
        AppendRequest {
            term: self.current_term,
            leader_id: self.config.node_id.clone(),
            prev_log_index,
            prev_log_term,
            entries: Vec::new(),
            leader_commit: self.commit_index,
        }
    }

    /// The URL to which heartbeats for `peer` are posted.
    pub fn heartbeat_url(peer: &str) -> (url: String)
        ensures
            url@ == "http://"@ + peer@ + ":8080/raft/heartbeat"@,
    {
        let mut url = String::from_str("http://");
        url.append(peer);
        url.append(":8080/raft/heartbeat");
        url
    }

    /// The state to persist: term, vote and log length.
    pub fn persistent_state(&self) -> (p: PersistentRaftState)
        ensures
            p.current_term == self.current_term,
            opt_view(p.voted_for) == opt_view(self.voted_for),
            p.last_log_index == self.log@.len(),
    {
        let voted_for = match &self.voted_for {
            Some(v) => Some(v.clone()),
            None => None,
        };
        PersistentRaftState {
            current_term: self.current_term,
            voted_for,
            last_log_index: self.log.len() as LogIndex,
        }
    }

    /// Restores term and vote from persisted state.
    pub fn restore_state(&mut self, persisted: PersistentRaftState)
        ensures
            final(self)@ == (RaftView {
                current_term: persisted.current_term,
                voted_for: opt_view(persisted.voted_for),
                ..old(self)@
            }),
            final(self).config == old(self).config,
    {
        self.current_term = persisted.current_term;
        self.voted_for = persisted.voted_for;
        assert(self@ =~= (RaftView {
            current_term: persisted.current_term,
            voted_for: opt_view(persisted.voted_for),
            ..old(self)@
        }));
    }

    /// The storage key of this node's persistent state.
    pub fn state_key(&self) -> (k: String)
        ensures
            k@ == state_key(self.config.node_id@),
    {
        concat("raft_state_", self.config.node_id.as_str())
    }

    /// The storage key of this node's entry at `index`.
    pub fn log_key(&self, index: LogIndex) -> (k: String)
        ensures
            k@ == log_key(self.config.node_id@, index as nat),
    {
        let mut k = String::from_str("raft_log_");
        k.append(self.config.node_id.as_str());
        k.append("_");
        push_decimal(&mut k, index);
        k
    }

    /// The key that recovery looks up for the entry at `index`.
    pub fn recovery_log_key(index: LogIndex) -> (k: String)
        ensures
            k@ == recovery_log_key(index as nat),
    {
        let mut k = String::from_str("raft_log_");
        push_zero_padded(&mut k, index, 20);
        k
    }

    /// Whether the recovery scan stops at a missing entry `index`: it gives up
    /// ten entries past the last one found.
    pub fn recovery_scan_exhausted(index: LogIndex, last_found: LogIndex) -> (stop: bool)
        ensures
            stop == (index > last_found + 10),
    {
        last_found <= u64::MAX - 10 && index > last_found + 10
    }

    /// Checks that terms never decrease along the log; names the first
    /// position (1-based) where one does.
    pub fn verify_log_consistency(&self) -> (r: Result<(), String>)
        ensures
            r.is_ok() == terms_nondecreasing(self.log@),
            reports_first_decrease(self.log@, r),
    {
        let mut prev_term: Term = 0;
        let mut i: usize = 0;
        while i < self.log.len()
            invariant
                i <= self.log@.len(),
                forall|a: int, b: int| 0 <= a <= b < i ==> self.log@[a].term <= self.log@[b].term,
                i > 0 ==> prev_term == self.log@[i - 1].term,
                i == 0 ==> prev_term == 0,
            decreases self.log.len() - i,
        {
            let term = self.log[i].term;
            if term < prev_term {
                let mut msg = String::from_str("日志一致性检查失败：索引 ");
                push_decimal(&mut msg, i as u64 + 1);
                msg.append(" 的任期 ");
                push_decimal(&mut msg, term);
                msg.append(" 小于前一条目的任期 ");
                push_decimal(&mut msg, prev_term);
                proof {
                    lemma_first_decrease_reported(self.log@, i as int, msg);
                }
                return Err(msg);
            }
            prev_term = term;
            i = i + 1;
        }
        proof {
            reveal(reports_first_decrease);
        }
        Ok(())
    }

    /// Rebuilds the log from the entries found on stable storage, in the order
    /// found; adopts the last entry's term if it is newer; then checks the log.
    pub fn restore_logs(&mut self, recovered: Vec<LogEntry>) -> (r: Result<(), String>)
        ensures
            final(self).log@ == recovered@,
            final(self).current_term == if last_term(recovered@) > old(self).current_term {
                last_term(recovered@)
            } else {
                old(self).current_term
            },
            final(self).state == old(self).state,
            final(self).voted_for == old(self).voted_for,
            final(self).commit_index == old(self).commit_index,
            final(self).last_applied == old(self).last_applied,
            final(self).config == old(self).config,
            r.is_ok() == terms_nondecreasing(recovered@),
    {
        self.log = recovered;
        let last = self.get_last_log_term();
        if self.log.len() > 0 && last > self.current_term {
            self.current_term = last;
        }
        self.verify_log_consistency()
    }

    /// Whether the log is due for compaction: more than 1000 entries, over
    /// half of them applied.
    pub fn should_compact_log(&self) -> (r: bool)
        ensures
            r == (self.log@.len() > 1000 && self.last_applied > self.log@.len() / 2),
    {
        self.log.len() > 1000 && self.last_applied > (self.log.len() / 2) as LogIndex
    }

    /// Where automatic compaction cuts the log, if it is due and something
    /// applied remains inside the log: the last applied entry and its term.
    pub fn auto_compaction_point(&self) -> (r: Option<(LogIndex, Term)>)
        ensures
            r.is_some() == (self.log@.len() > 1000 && self.last_applied > self.log@.len() / 2
                && self.last_applied > 0 && self.last_applied < self.log@.len()),
            r.is_some() ==> r.unwrap() == (self.last_applied, self.log@[self.last_applied - 1].term),
    {
        if !self.should_compact_log() {
            return None;
        }
        if self.last_applied > 0 && self.last_applied < self.log.len() as u64 {
            Some((self.last_applied, self.log[(self.last_applied - 1) as usize].term))
        } else {
            None
        }
    }

    /// Replaces the first `last_included_index` entries by a snapshot entry
    /// holding `snapshot_data`; refuses index 0 and indexes past the log.
    pub fn compact_log(
        &mut self,
        last_included_index: LogIndex,
        last_included_term: Term,
        snapshot_data: Vec<u8>,
        timestamp: i64,
    ) -> (r: Result<(), String>)
        ensures
            r.is_ok() == (last_included_index > 0 && last_included_index <= old(self).log@.len()),
            r.is_err() ==> *final(self) == *old(self),
            r.is_ok() ==> {
                let snap = final(self).log@[0];
                &&& final(self)@ == (RaftView {
                    log: compacted_log(old(self).log@, last_included_index as int, snap),
                    ..old(self)@
                })
                &&& snap.index == last_included_index
                &&& snap.term == last_included_term
                &&& snap.entry_type == LogEntryType::Snapshot
                &&& snap.data@ == snapshot_data@
                &&& snap.timestamp == timestamp
            },
            final(self).config == old(self).config,
    {
        if last_included_index == 0 || last_included_index > self.log.len() as LogIndex {
            let mut msg = String::from_str("无效的压缩索引: ");
            push_decimal(&mut msg, last_included_index);
            return Err(msg);
        }
        let kept = self.log.split_off(last_included_index as usize);
        let snapshot = LogEntry {
            index: last_included_index,
            term: last_included_term,
            entry_type: LogEntryType::Snapshot,
            data: snapshot_data,
            timestamp,
        };
        let mut log = Vec::new();
        log.push(snapshot);
        let mut kept = kept;
        log.append(&mut kept);
        self.log = log;
        assert(self.log@ =~= compacted_log(old(self).log@, last_included_index as int, self.log@[0]));
        assert(self@ =~= (RaftView {
            log: compacted_log(old(self).log@, last_included_index as int, self.log@[0]),
            ..old(self)@
        }));
        Ok(())
    }

    /// The positions of the applied entries of normal kind, in log order: the
    /// commands that a state-machine snapshot summarises.
    pub fn applied_normal_positions(&self) -> (r: Vec<usize>)
        ensures
            forall|k: int| 0 <= k < r@.len() ==> {
                &&& #[trigger] r@[k] < self.log@.len()
                &&& r@[k] < self.last_applied
                &&& self.log@[r@[k] as int].entry_type == LogEntryType::Normal
            },
            forall|k: int, l: int| 0 <= k < l < r@.len() ==> r@[k] < r@[l],
            forall|p: int| 0 <= p < self.log@.len() && p < self.last_applied
                && self.log@[p].entry_type == LogEntryType::Normal ==> r@.contains(p as usize),
    {
        let mut r: Vec<usize> = Vec::new();
        let mut i: usize = 0;
        while i < self.log.len() && (i as u64) < self.last_applied
            invariant
                i <= self.log@.len(),
                i <= self.last_applied,
                forall|k: int| 0 <= k < r@.len() ==> {
                    &&& #[trigger] r@[k] < i
                    &&& self.log@[r@[k] as int].entry_type == LogEntryType::Normal
                },
                forall|k: int, l: int| 0 <= k < l < r@.len() ==> r@[k] < r@[l],
                forall|p: int| 0 <= p < i && self.log@[p].entry_type == LogEntryType::Normal
                    ==> r@.contains(p as usize),
            decreases self.log.len() - i,
        {
            let ghost old_r = r@;
            if self.log[i].entry_type == LogEntryType::Normal {
                r.push(i);
                assert(r@[r@.len() - 1] == i);
            }
            proof {
                assert forall|p: int| 0 <= p < i + 1 && self.log@[p].entry_type == LogEntryType::Normal
                    implies r@.contains(p as usize) by {
                    if p < i {
                        let k = choose|k: int| 0 <= k < old_r.len() && old_r[k] == p as usize;
                        assert(r@[k] == old_r[k]);
                    } else {
                        assert(r@[r@.len() - 1] == i);
                    }
                }
            }
            i = i + 1;
        }
        r
    }

    /// The cluster membership recorded in a snapshot: this node, then its peers.
    pub fn cluster_configuration(&self) -> (r: Vec<NodeId>)
        ensures
            r@.len() == self.config.peers@.len() + 1,
            r@[0]@ == self.config.node_id@,
            forall|i: int| 0 <= i < self.config.peers@.len() ==> r@[i + 1]@ == self.config.peers@[i]@,
    {
        let mut r: Vec<NodeId> = Vec::new();
        r.push(self.config.node_id.clone());
        let mut i: usize = 0;
        while i < self.config.peers.len()
            invariant
                i <= self.config.peers@.len(),
                r@.len() == i + 1,
                r@[0]@ == self.config.node_id@,
                forall|j: int| 0 <= j < i ==> r@[j + 1]@ == self.config.peers@[j]@,
            decreases self.config.peers.len() - i,
        {
            r.push(self.config.peers[i].clone());
            i = i + 1;
        }
        r
    }

    /// The address of a node when no environment setting names one: port 9090 on its id.
    pub fn default_node_address(node_id: &str) -> (a: String)
        ensures
            a@ == node_id@ + ":9090"@,
    {
        concat(node_id, ":9090")
    }
}


/// A follower commits only what its log and the leader allow, and never goes
/// back: after an append the commit index is at least the old one and at
/// most the larger of the old one and the length of the (new) log; a
/// successful append takes it to the smaller of the leader's commit index and
/// the log's length when that is beyond the old commit index, keeps it
/// otherwise, and answers with the log's length (as far as a log index can
/// count); a refused append keeps both
/// the commit index and the log.
pub proof fn lemma_append_commits_within_the_log(s: RaftView, req: AppendRequest)
    ensures
        append_step(s, req).0.commit_index >= s.commit_index,
        append_step(s, req).0.commit_index <= s.commit_index || append_step(s, req).0.commit_index
            <= append_step(s, req).0.log.len(),
        append_step(s, req).1.success ==> {
            let n = append_step(s, req).0.log.len();
            let target: int = if req.leader_commit < n { req.leader_commit as int } else { n as int };
            &&& n <= u64::MAX ==> append_step(s, req).1.match_index == n
            &&& target > s.commit_index ==> append_step(s, req).0.commit_index == target
            &&& target <= s.commit_index ==> append_step(s, req).0.commit_index == s.commit_index
        },
        !append_step(s, req).1.success ==> append_step(s, req).0.commit_index == s.commit_index
            && append_step(s, req).0.log == s.log,
{
}

} // verus!
