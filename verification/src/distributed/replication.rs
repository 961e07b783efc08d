//! Replication: the replica group of each shard with the sync state of its
//! members, the outcome of a replication under each sync policy, the
//! consistency check, and the health records of the replicas.

use crate::distributed::shard::node_names;
use crate::text::{concat, decimal, push_decimal, str_equal};
use crate::types::{NodeId, ShardId};
use vstd::prelude::*;

verus! {

/// How many replicas must confirm a write.
#[derive(Clone, Copy, Debug, PartialEq, Eq, Structural)]
pub enum SyncPolicy {
    /// All of them.
    Synchronous,
    /// None; the copies go out without waiting.
    Asynchronous,
    /// A majority.
    Quorum,
}

/// How far a member of a replica group has caught up.
#[derive(Clone, Copy, Debug, PartialEq, Eq, Structural)]
pub enum SyncState {
    Syncing,
    Synced,
    Failed,
    Lagging,
}

/// The members of a shard's replica group and their sync states.
#[derive(Debug)]
pub struct ReplicaGroup {
    pub primary: NodeId,
    pub replicas: Vec<NodeId>,
    /// Each member once, with its state.
    pub sync_state: Vec<(NodeId, SyncState)>,
    pub version: u64,
    /// Seconds since the Unix epoch.
    pub last_updated: i64,
}

/// A task for the replication worker.
#[derive(Debug)]
pub enum SyncTask {
    ReplicateData { shard_id: ShardId, data: Vec<u8>, target_nodes: Vec<NodeId>, request_id: String },
    Heartbeat { target_node: NodeId },
    SyncCheck { shard_id: ShardId },
}

/// The health record of a replica node.
#[derive(Debug)]
pub struct ReplicaHealth {
    pub node_id: NodeId,
    pub is_healthy: bool,
    /// Seconds since the Unix epoch.
    pub last_heartbeat: i64,
    pub latency_ms: u64,
    pub error_count: u64,
}

/// The state recorded for `node` in `states`, if any.
pub open spec fn state_of(states: Seq<(NodeId, SyncState)>, node: Seq<char>) -> Option<SyncState> {
    if exists|i: int| 0 <= i < states.len() && (#[trigger] states[i]).0@ == node {
        Some(states[choose|i: int| 0 <= i < states.len() && (#[trigger] states[i]).0@ == node].1)
    } else {
        None
    }
}

/// Each member once.
pub open spec fn members_unique(states: Seq<(NodeId, SyncState)>) -> bool {
    forall|i: int, j: int| 0 <= i < j < states.len() ==> (#[trigger] states[i]).0@ != (#[trigger] states[j]).0@
}

/// The number of members that are synced.
pub open spec fn synced_count(states: Seq<(NodeId, SyncState)>) -> nat
    decreases states.len(),
{
    if states.len() == 0 {
        0
    } else {
        synced_count(states.drop_last()) + if states.last().1 == SyncState::Synced { 1nat } else { 0nat }
    }
}

/// Sets the state of `node` in `states`, adding it when it is new.
fn set_state(states: &mut Vec<(NodeId, SyncState)>, node: &NodeId, state: SyncState)
    requires
        members_unique(old(states)@),
    ensures
        members_unique(final(states)@),
        forall|n: Seq<char>| #[trigger] state_of(final(states)@, n) == if n == node@ {
            Some(state)
        } else {
            state_of(old(states)@, n)
        },
{
    let ghost s0 = states@;
    let mut i: usize = 0;
    while i < states.len()
        invariant
            states@ == s0,
            s0 == old(states)@,
            members_unique(s0),
            i <= s0.len(),
            forall|j: int| 0 <= j < i ==> (#[trigger] s0[j]).0@ != node@,
        decreases states.len() - i,
    {
        if str_equal(states[i].0.as_str(), node.as_str()) {
            let name = states[i].0.clone();
            states.set(i, (name, state));
            proof {
                let s1 = states@;
                assert forall|a: int, b: int| 0 <= a < b < s1.len() implies (#[trigger] s1[a]).0@ != (
                #[trigger] s1[b]).0@ by {
                    assert(s0[a].0@ != s0[b].0@);
                }
                assert forall|n: Seq<char>| #[trigger] state_of(s1, n) == if n == node@ {
                    Some(state)
                } else {
                    state_of(s0, n)
                } by {
                    if n == node@ {
                        assert(s1[i as int].0@ == n);
                        let c = choose|c: int| 0 <= c < s1.len() && (#[trigger] s1[c]).0@ == n;
                        if c != i {
                            if c < i {
                                assert(s0[c].0@ != s0[i as int].0@);
                            } else {
                                assert(s0[i as int].0@ != s0[c].0@);
                            }
                        }
                    } else {
                        if exists|c: int| 0 <= c < s0.len() && (#[trigger] s0[c]).0@ == n {
                            let c = choose|c: int| 0 <= c < s0.len() && (#[trigger] s0[c]).0@ == n;
                            assert(s1[c].0@ == n);
                            let d = choose|d: int| 0 <= d < s1.len() && (#[trigger] s1[d]).0@ == n;
                            if d != c {
                                if d < c {
                                    assert(s1[d].0@ != s1[c].0@);
                                } else {
                                    assert(s1[c].0@ != s1[d].0@);
                                }
                            }
                        } else {
                            assert(!exists|c: int| 0 <= c < s1.len() && (#[trigger] s1[c]).0@ == n) by {
                                if exists|c: int| 0 <= c < s1.len() && (#[trigger] s1[c]).0@ == n {
                                    let c = choose|c: int| 0 <= c < s1.len() && (#[trigger] s1[c]).0@ == n;
                                    assert(s0[c].0@ == n);
                                }
                            }
                        }
                    }
                }
            }
            return;
        }
        i = i + 1;
    }
    states.push((node.clone(), state));
    proof {
        let s1 = states@;
        assert forall|a: int, b: int| 0 <= a < b < s1.len() implies (#[trigger] s1[a]).0@ != (#[trigger] s1[b]).0@ by {
            if b < s0.len() {
                assert(s0[a].0@ != s0[b].0@);
            }
        }
        assert forall|n: Seq<char>| #[trigger] state_of(s1, n) == if n == node@ {
            Some(state)
        } else {
            state_of(s0, n)
        } by {
            if n == node@ {
                assert(s1[s0.len() as int].0@ == n);
                let c = choose|c: int| 0 <= c < s1.len() && (#[trigger] s1[c]).0@ == n;
                if c < s0.len() {
                    assert(s0[c].0@ == n);
                }
            } else {
                if exists|c: int| 0 <= c < s0.len() && (#[trigger] s0[c]).0@ == n {
                    let c = choose|c: int| 0 <= c < s0.len() && (#[trigger] s0[c]).0@ == n;
                    assert(s1[c].0@ == n);
                    let d = choose|d: int| 0 <= d < s1.len() && (#[trigger] s1[d]).0@ == n;
                    if d != c {
                        if d < c {
                            assert(s1[d].0@ != s1[c].0@);
                        } else {
                            assert(s1[c].0@ != s1[d].0@);
                        }
                    }
                } else {
                    assert(!exists|c: int| 0 <= c < s1.len() && (#[trigger] s1[c]).0@ == n) by {
                        if exists|c: int| 0 <= c < s1.len() && (#[trigger] s1[c]).0@ == n {
                            let c = choose|c: int| 0 <= c < s1.len() && (#[trigger] s1[c]).0@ == n;
                            if c < s0.len() {
                                assert(s0[c].0@ == n);
                            }
                        }
                    }
                }
            }
        }
    }
}

impl ReplicaGroup {
    /// A group of `primary` and `replicas` at version 1, updated at `now`:
    /// the primary synced, each replica syncing.
    pub fn new(primary: NodeId, replicas: Vec<NodeId>, now: i64) -> (g: ReplicaGroup)
        ensures
            g.primary == primary,
            g.replicas == replicas,
            g.version == 1,
            g.last_updated == now,
            members_unique(g.sync_state@),
            forall|n: Seq<char>| #[trigger] state_of(g.sync_state@, n) == if node_names(replicas@).contains(n) {
                Some(SyncState::Syncing)
            } else if n == primary@ {
                Some(SyncState::Synced)
            } else {
                None
            },
    {
        let mut sync_state: Vec<(NodeId, SyncState)> = Vec::new();
        set_state(&mut sync_state, &primary, SyncState::Synced);
        let mut i: usize = 0;
        while i < replicas.len()
            invariant
                i <= replicas@.len(),
                members_unique(sync_state@),
                forall|n: Seq<char>| #[trigger] state_of(sync_state@, n) == if node_names(replicas@).subrange(0, i as int).contains(n) {
                    Some(SyncState::Syncing)
                } else if n == primary@ {
                    Some(SyncState::Synced)
                } else {
                    None
                },
            decreases replicas.len() - i,
        {
            set_state(&mut sync_state, &replicas[i], SyncState::Syncing);
            proof {
                let names = node_names(replicas@);
                assert(names.subrange(0, i + 1) =~= names.subrange(0, i as int).push(replicas@[i as int]@));
                assert forall|n: Seq<char>| #[trigger] state_of(sync_state@, n) == if names.subrange(0, i + 1).contains(n) {
                    Some(SyncState::Syncing)
                } else if n == primary@ {
                    Some(SyncState::Synced)
                } else {
                    None
                } by {
                    if names.subrange(0, i as int).contains(n) {
                        let k = choose|k: int| 0 <= k < i && #[trigger] names.subrange(0, i as int)[k] == n;
                        assert(names.subrange(0, i + 1)[k] == n);
                    }
                    if n == replicas@[i as int]@ {
                        assert(names.subrange(0, i + 1)[i as int] == n);
                    }
                    if names.subrange(0, i + 1).contains(n) && n != replicas@[i as int]@ {
                        let k = choose|k: int| 0 <= k < i + 1 && #[trigger] names.subrange(0, i + 1)[k] == n;
                        assert(names.subrange(0, i as int)[k] == n);
                    }
                }
            }
            i = i + 1;
        }
        proof {
            assert(node_names(replicas@).subrange(0, replicas@.len() as int) =~= node_names(replicas@));
        }
        ReplicaGroup { primary, replicas, sync_state, version: 1, last_updated: now }
    }
}


/// The replica group of `shard`, the first kept under that id.
pub open spec fn group_of(gs: Seq<(ShardId, ReplicaGroup)>, shard: ShardId) -> Option<ReplicaGroup>
    decreases gs.len(),
{
    if gs.len() == 0 {
        None
    } else if gs[0].0 == shard {
        Some(gs[0].1)
    } else {
        group_of(gs.drop_first(), shard)
    }
}

proof fn lemma_group_of_at(gs: Seq<(ShardId, ReplicaGroup)>, k: int, shard: ShardId)
    requires
        0 <= k < gs.len(),
        gs[k].0 == shard,
        forall|j: int| 0 <= j < k ==> (#[trigger] gs[j]).0 != shard,
    ensures
        group_of(gs, shard) == Some(gs[k].1),
    decreases gs.len(),
{
    if k > 0 {
        lemma_group_of_at(gs.drop_first(), k - 1, shard);
    }
}

proof fn lemma_group_of_absent(gs: Seq<(ShardId, ReplicaGroup)>, shard: ShardId)
    requires
        forall|j: int| 0 <= j < gs.len() ==> (#[trigger] gs[j]).0 != shard,
    ensures
        group_of(gs, shard) is None,
    decreases gs.len(),
{
    if gs.len() > 0 {
        lemma_group_of_absent(gs.drop_first(), shard);
    }
}

proof fn lemma_group_of_other(gs: Seq<(ShardId, ReplicaGroup)>, hs: Seq<(ShardId, ReplicaGroup)>, shard: ShardId, other: ShardId)
    requires
        shard != other,
        hs.len() >= gs.len(),
        forall|j: int| 0 <= j < gs.len() && gs[j].0 != shard ==> hs[j] == gs[j],
        forall|j: int| 0 <= j < gs.len() && gs[j].0 == shard ==> hs[j].0 == shard,
        forall|j: int| gs.len() <= j < hs.len() ==> hs[j].0 == shard,
    ensures
        group_of(hs, other) == group_of(gs, other),
    decreases hs.len(),
{
    if gs.len() == 0 {
        lemma_group_of_absent(hs, other);
    } else {
        lemma_group_of_other(gs.drop_first(), hs.drop_first(), shard, other);
    }
}

/// The outcome of replicating to the replicas whose answers are `acks`, in
/// order, under `policy`: synchronous replication needs every replica,
/// asynchronous needs none, and quorum replication is done once a majority
/// of the replicas (half and one) has confirmed.
pub open spec fn replication_succeeds(policy: SyncPolicy, acks: Seq<bool>) -> bool {
    match policy {
        SyncPolicy::Synchronous => ack_count(acks) == acks.len(),
        SyncPolicy::Asynchronous => true,
        SyncPolicy::Quorum => ack_count(acks) >= acks.len() / 2 + 1,
    }
}

/// The number of confirmations among `acks`.
pub open spec fn ack_count(acks: Seq<bool>) -> nat
    decreases acks.len(),
{
    if acks.len() == 0 {
        0
    } else {
        ack_count(acks.drop_last()) + if acks.last() { 1nat } else { 0nat }
    }
}

proof fn lemma_ack_count_monotone(acks: Seq<bool>, i: int)
    requires
        0 <= i <= acks.len(),
    ensures
        ack_count(acks.subrange(0, i)) <= ack_count(acks),
        ack_count(acks) <= acks.len(),
    decreases acks.len(),
{
    if acks.len() > 0 {
        if i < acks.len() {
            assert(acks.drop_last().subrange(0, i) =~= acks.subrange(0, i));
            lemma_ack_count_monotone(acks.drop_last(), i);
        } else {
            assert(acks.subrange(0, i) =~= acks);
            lemma_ack_count_monotone(acks.drop_last(), i - 1);
        }
    }
}

/// Whether a quorum write may stop: `successes` confirmations out of
/// `total` replicas reach a majority.
pub fn quorum_reached(successes: usize, total: usize) -> (r: bool)
    ensures
        r == (successes >= total / 2 + 1),
{
    successes >= total / 2 + 1
}

/// The outcome of a replication under `policy` with the replicas' answers
/// `acks` (see [`replication_succeeds`]); a failure says how many confirmed
/// out of how many were needed.
pub fn replication_outcome(policy: SyncPolicy, acks: &Vec<bool>) -> (r: Result<(), String>)
    ensures
        r.is_ok() == replication_succeeds(policy, acks@),
        policy == SyncPolicy::Synchronous ==> (r matches Err(m) ==> m@ == "同步复制失败，成功: "@ + decimal(
            ack_count(acks@),
        ) + "/"@ + decimal(acks@.len())),
        policy == SyncPolicy::Quorum ==> (r matches Err(m) ==> m@ == "法定人数复制失败，确认数: "@ + decimal(
            ack_count(acks@),
        ) + "/"@ + decimal(acks@.len() / 2 + 1)),
{
    let total = acks.len();
    let mut successes: usize = 0;
    let mut i: usize = 0;
    while i < acks.len()
        invariant
            i <= acks@.len(),
            total == acks@.len(),
            successes == ack_count(acks@.subrange(0, i as int)),
            successes <= i,
        decreases acks.len() - i,
    {
        proof {
            assert(acks@.subrange(0, i + 1).drop_last() =~= acks@.subrange(0, i as int));
        }
        if acks[i] {
            successes = successes + 1;
        }
        i = i + 1;
    }
    proof {
        assert(acks@.subrange(0, total as int) =~= acks@);
    }
    match policy {
        SyncPolicy::Synchronous => {
            if successes == total {
                Ok(())
            } else {
                let mut m = String::from_str("同步复制失败，成功: ");
                push_decimal(&mut m, successes as u64);
                m.append("/");
                push_decimal(&mut m, total as u64);
                Err(m)
            }
        },
        SyncPolicy::Asynchronous => Ok(()),
        SyncPolicy::Quorum => {
            let required = total / 2 + 1;
            if quorum_reached(successes, total) {
                Ok(())
            } else {
                let mut m = String::from_str("法定人数复制失败，确认数: ");
                push_decimal(&mut m, successes as u64);
                m.append("/");
                push_decimal(&mut m, required as u64);
                Err(m)
            }
        },
    }
}

/// Whether a replica group counts as consistent: the primary, and every
/// member recorded synced, make at least 99% of the primary and replicas.
pub open spec fn group_consistent(g: ReplicaGroup) -> bool {
    100 * (1 + synced_count(g.sync_state@)) >= 99 * (g.replicas@.len() + 1)
}

/// The replica groups of the shards and the health of the replica nodes.
#[derive(Debug)]
pub struct ReplicationManager {
    pub replication_factor: usize,
    pub sync_policy: SyncPolicy,
    pub local_node_id: NodeId,
    pub groups: Vec<(ShardId, ReplicaGroup)>,
    pub health: Vec<ReplicaHealth>,
}

impl ReplicationManager {
    /// A manager with no groups and no health records.
    pub fn new(replication_factor: usize, sync_policy: SyncPolicy, local_node_id: NodeId) -> (m: ReplicationManager)
        ensures
            m.replication_factor == replication_factor,
            m.sync_policy == sync_policy,
            m.local_node_id == local_node_id,
            m.groups@.len() == 0,
            m.health@.len() == 0,
    {
        ReplicationManager { replication_factor, sync_policy, local_node_id, groups: Vec::new(), health: Vec::new() }
    }

    fn group_index(&self, shard_id: ShardId) -> (r: Option<usize>)
        ensures
            r is None ==> forall|j: int| 0 <= j < self.groups@.len() ==> (#[trigger] self.groups@[j]).0 != shard_id,
            r matches Some(k) ==> k < self.groups@.len() && self.groups@[k as int].0 == shard_id && forall|j: int|
                0 <= j < k ==> (#[trigger] self.groups@[j]).0 != shard_id,
    {
        let mut i: usize = 0;
        while i < self.groups.len()
            invariant
                i <= self.groups@.len(),
                forall|j: int| 0 <= j < i ==> (#[trigger] self.groups@[j]).0 != shard_id,
            decreases self.groups.len() - i,
        {
            if self.groups[i].0 == shard_id {
                return Some(i);
            }
            i = i + 1;
        }
        None
    }

    /// Sets the replica group of `shard_id` to `primary` and `replicas`
    /// (see [`ReplicaGroup::new`]), updated at `now`.
    pub fn add_replica_group(&mut self, shard_id: ShardId, primary: NodeId, replicas: Vec<NodeId>, now: i64)
        ensures
            group_of(final(self).groups@, shard_id) matches Some(g) && g.primary == primary && g.replicas == replicas
                && g.version == 1 && g.last_updated == now,
            group_of(final(self).groups@, shard_id) matches Some(g) && members_unique(g.sync_state@) && forall|n: Seq<char>|
                #[trigger] state_of(g.sync_state@, n) == if node_names(replicas@).contains(n) {
                    Some(SyncState::Syncing)
                } else if n == primary@ {
                    Some(SyncState::Synced)
                } else {
                    None
                },
            forall|s: ShardId| s != shard_id ==> #[trigger] group_of(final(self).groups@, s) == group_of(old(self).groups@, s),
            final(self).health == old(self).health,
            final(self).sync_policy == old(self).sync_policy,
    {
        let ghost p = primary;
        let ghost r = replicas;
        let group = ReplicaGroup::new(primary, replicas, now);
        let ghost gs = self.groups@;
        match self.group_index(shard_id) {
            Some(k) => {
                self.groups.set(k, (shard_id, group));
                proof {
                    lemma_group_of_at(self.groups@, k as int, shard_id);
                }
            },
            None => {
                self.groups.push((shard_id, group));
                proof {
                    lemma_group_of_at(self.groups@, gs.len() as int, shard_id);
                }
            },
        }
        proof {
            assert forall|s: ShardId| s != shard_id implies #[trigger] group_of(self.groups@, s) == group_of(gs, s) by {
                lemma_group_of_other(gs, self.groups@, shard_id, s);
            }
        }
    }

    /// Removes the replica group of `shard_id`; there must be one.
    pub fn remove_replica_group(&mut self, shard_id: ShardId) -> (r: Result<(), String>)
        ensures
            r.is_ok() == group_of(old(self).groups@, shard_id) is Some,
            r matches Err(e) ==> e@ == "副本组不存在"@,
            r.is_err() ==> final(self).groups@ == old(self).groups@,
            r.is_ok() ==> exists|k: int|
                0 <= k < old(self).groups@.len() && (#[trigger] old(self).groups@[k]).0 == shard_id && final(self).groups@
                    == old(self).groups@.remove(k),
            final(self).health == old(self).health,
    {
        match self.group_index(shard_id) {
            Some(k) => {
                proof { lemma_group_of_at(self.groups@, k as int, shard_id); }
                self.groups.remove(k);
                Ok(())
            },
            None => {
                proof {
                    lemma_group_of_absent(self.groups@, shard_id);
                    reveal_strlit("副本组不存在");
                }
                Err(String::from_str("副本组不存在"))
            },
        }
    }

    /// The replica group of `shard_id`, if there is one.
    pub fn get_replica_group(&self, shard_id: ShardId) -> (r: Option<&ReplicaGroup>)
        ensures
            match r {
                Some(g) => group_of(self.groups@, shard_id) == Some(*g),
                None => group_of(self.groups@, shard_id) is None,
            },
    {
        match self.group_index(shard_id) {
            Some(k) => {
                proof { lemma_group_of_at(self.groups@, k as int, shard_id); }
                Some(&self.groups[k].1)
            },
            None => {
                proof { lemma_group_of_absent(self.groups@, shard_id); }
                None
            },
        }
    }

    /// The error of a replication to a shard without a replica group.
    pub fn check_group_exists(&self, shard_id: ShardId) -> (r: Result<(), String>)
        ensures
            r.is_ok() == group_of(self.groups@, shard_id) is Some,
            r matches Err(e) ==> e@ == "副本组不存在，分片ID: "@ + decimal(shard_id as nat),
    {
        match self.get_replica_group(shard_id) {
            Some(_) => Ok(()),
            None => {
                let mut m = String::from_str("副本组不存在，分片ID: ");
                push_decimal(&mut m, shard_id as u64);
                proof { reveal_strlit("副本组不存在，分片ID: "); }
                Err(m)
            },
        }
    }

    /// Sets the sync state of `node_id` in the group of `shard_id` at `now`;
    /// the group's version rises. There must be such a group.
    pub fn update_sync_state(&mut self, shard_id: ShardId, node_id: NodeId, new_state: SyncState, now: i64) -> (r: Result<(), String>)
        requires
            forall|j: int| 0 <= j < old(self).groups@.len() ==> members_unique((#[trigger] old(self).groups@[j]).1.sync_state@),
            forall|j: int| 0 <= j < old(self).groups@.len() ==> (#[trigger] old(self).groups@[j]).1.version < u64::MAX,
        ensures
            r.is_ok() == group_of(old(self).groups@, shard_id) is Some,
            r matches Err(e) ==> e@ == "副本组不存在，分片ID: "@ + decimal(shard_id as nat),
            r.is_err() ==> final(self).groups@ == old(self).groups@,
            r.is_ok() ==> ({
                let g0 = group_of(old(self).groups@, shard_id).unwrap();
                let g1 = group_of(final(self).groups@, shard_id).unwrap();
                &&& group_of(final(self).groups@, shard_id) is Some
                &&& g1.primary == g0.primary
                &&& g1.replicas == g0.replicas
                &&& g1.version == g0.version + 1
                &&& g1.last_updated == now
                &&& members_unique(g1.sync_state@)
                &&& forall|n: Seq<char>| #[trigger] state_of(g1.sync_state@, n) == if n == node_id@ {
                    Some(new_state)
                } else {
                    state_of(g0.sync_state@, n)
                }
            }),
            forall|s: ShardId| s != shard_id ==> #[trigger] group_of(final(self).groups@, s) == group_of(old(self).groups@, s),
    {
        match self.group_index(shard_id) {
            Some(k) => {
                proof { lemma_group_of_at(self.groups@, k as int, shard_id); }
                let ghost gs = self.groups@;
                let (sid, mut g) = self.groups.remove(k);
                set_state(&mut g.sync_state, &node_id, new_state);
                g.version = g.version + 1;
                g.last_updated = now;
                self.groups.insert(k, (sid, g));
                proof {
                    assert forall|j: int| 0 <= j < k implies (#[trigger] self.groups@[j]).0 != shard_id by {
                        assert(self.groups@[j] == gs[j]);
                    }
                    lemma_group_of_at(self.groups@, k as int, shard_id);
                    assert forall|s: ShardId| s != shard_id implies #[trigger] group_of(self.groups@, s) == group_of(gs, s) by {
                        lemma_group_of_other(gs, self.groups@, shard_id, s);
                    }
                }
                Ok(())
            },
            None => {
                proof { lemma_group_of_absent(self.groups@, shard_id); }
                let mut m = String::from_str("副本组不存在，分片ID: ");
                push_decimal(&mut m, shard_id as u64);
                proof { reveal_strlit("副本组不存在，分片ID: "); }
                Err(m)
            },
        }
    }

    /// Whether the group of `shard_id` is consistent (see [`group_consistent`]).
    pub fn check_replica_consistency(&self, shard_id: ShardId) -> (r: Result<bool, String>)
        ensures
            match group_of(self.groups@, shard_id) {
                Some(g) => r == Ok::<bool, String>(group_consistent(g)),
                None => r is Err,
            },
            r matches Err(e) ==> e@ == "副本组不存在，分片ID: "@ + decimal(shard_id as nat),
    {
        match self.get_replica_group(shard_id) {
            Some(g) => {
                let mut synced: usize = 0;
                let mut i: usize = 0;
                while i < g.sync_state.len()
                    invariant
                        i <= g.sync_state@.len(),
                        synced == synced_count(g.sync_state@.subrange(0, i as int)),
                        synced <= i,
                    decreases g.sync_state.len() - i,
                {
                    proof {
                        assert(g.sync_state@.subrange(0, i + 1).drop_last() =~= g.sync_state@.subrange(0, i as int));
                    }
                    if g.sync_state[i].1 == SyncState::Synced {
                        synced = synced + 1;
                    }
                    i = i + 1;
                }
                proof {
                    assert(g.sync_state@.subrange(0, g.sync_state@.len() as int) =~= g.sync_state@);
                }
                let consistent = synced as u128 + 1;
                let total = g.replicas.len() as u128 + 1;
                Ok(100 * consistent >= 99 * total)
            },
            None => {
                let mut m = String::from_str("副本组不存在，分片ID: ");
                push_decimal(&mut m, shard_id as u64);
                proof { reveal_strlit("副本组不存在，分片ID: "); }
                Err(m)
            },
        }
    }

    /// Starts watching `node_id`: healthy, heard from at `now`, no latency
    /// and no errors yet.
    pub fn add_node_to_monitoring(&mut self, node_id: NodeId, now: i64)
        ensures
            final(self).health@.len() >= 1,
            final(self).groups == old(self).groups,
    {
        let mut i: usize = 0;
        while i < self.health.len()
            invariant
                i <= self.health@.len(),
                self.groups == old(self).groups,
            decreases self.health.len() - i,
        {
            if str_equal(self.health[i].node_id.as_str(), node_id.as_str()) {
                self.health.remove(i);
                break;
            }
            i = i + 1;
        }
        self.health.push(ReplicaHealth { node_id, is_healthy: true, last_heartbeat: now, latency_ms: 0, error_count: 0 });
    }

    /// The health record of `node_id`, if it is watched.
    pub fn get_node_health(&self, node_id: &str) -> (r: Option<&ReplicaHealth>)
        ensures
            match r {
                Some(h) => first_health(self.health@, node_id@) == Some(*h),
                None => first_health(self.health@, node_id@) is None,
            },
    {
        let ghost hs = self.health@;
        let mut i: usize = 0;
        assert(hs.subrange(0, hs.len() as int) =~= hs);
        while i < self.health.len()
            invariant
                hs == self.health@,
                i <= hs.len(),
                first_health(hs, node_id@) == first_health(hs.subrange(i as int, hs.len() as int), node_id@),
            decreases self.health.len() - i,
        {
            proof {
                assert(hs.subrange(i as int, hs.len() as int).drop_first() =~= hs.subrange(i + 1, hs.len() as int));
            }
            if str_equal(self.health[i].node_id.as_str(), node_id) {
                return Some(&self.health[i]);
            }
            i = i + 1;
        }
        None
    }
}


/// The first health record of `node` among `hs`.
pub open spec fn first_health(hs: Seq<ReplicaHealth>, node: Seq<char>) -> Option<ReplicaHealth>
    decreases hs.len(),
{
    if hs.len() == 0 {
        None
    } else if hs[0].node_id@ == node {
        Some(hs[0])
    } else {
        first_health(hs.drop_first(), node)
    }
}

/// Whether `c` is alphabetic or numeric in the Unicode sense.
pub uninterp spec fn unicode_alphanumeric(c: char) -> bool;

/// Calls `char::is_alphanumeric`.
#[verifier::external_body]
fn char_is_alphanumeric(c: char) -> (r: bool)
    ensures
        r == unicode_alphanumeric(c),
{
    c.is_alphanumeric()
}

/// Whether `id` can be a host name: only letters, digits and hyphens.
pub open spec fn host_name_like(id: Seq<char>) -> bool {
    forall|i: int| 0 <= i < id.len() ==> unicode_alphanumeric(#[trigger] id[i]) || id[i] == '-'
}

/// The address of a node by the cluster's naming convention,
/// "id.grape-cluster.internal:8080", for an id that can be a host name.
pub fn dns_node_address(node_id: &str) -> (r: Option<String>)
    ensures
        r is Some == host_name_like(node_id@),
        r matches Some(a) ==> a@ == node_id@ + ".grape-cluster.internal:8080"@,
{
    let n = node_id.unicode_len();
    let mut i: usize = 0;
    while i < n
        invariant
            n == node_id@.len(),
            i <= n,
            forall|j: int| 0 <= j < i ==> unicode_alphanumeric(#[trigger] node_id@[j]) || node_id@[j] == '-',
        decreases n - i,
    {
        let c = node_id.get_char(i);
        if !(char_is_alphanumeric(c) || c == '-') {
            return None;
        }
        i = i + 1;
    }
    proof { reveal_strlit(".grape-cluster.internal:8080"); }
    Some(concat(node_id, ".grape-cluster.internal:8080"))
}

/// The address of a node when nothing better is known: "id:8080".
pub fn fallback_node_address(node_id: &str) -> (a: String)
    ensures
        a@ == node_id@ + ":8080"@,
{
    proof { reveal_strlit(":8080"); }
    concat(node_id, ":8080")
}


proof fn lemma_ack_count_all(acks: Seq<bool>)
    ensures
        ack_count(acks) <= acks.len(),
        ack_count(acks) == acks.len() <==> forall|i: int| 0 <= i < acks.len() ==> #[trigger] acks[i],
    decreases acks.len(),
{
    if acks.len() > 0 {
        let p = acks.drop_last();
        lemma_ack_count_all(p);
        if forall|i: int| 0 <= i < acks.len() ==> #[trigger] acks[i] {
            assert forall|i: int| 0 <= i < p.len() implies #[trigger] p[i] by {
                assert(acks[i]);
            }
        }
        if ack_count(acks) == acks.len() {
            assert forall|i: int| 0 <= i < acks.len() implies #[trigger] acks[i] by {
                if i < p.len() {
                    assert(p[i] == acks[i]);
                }
            }
        }
    }
}

/// What each policy asks of the replicas' answers: synchronous replication
/// succeeds only when every replica confirmed, quorum replication when the
/// confirmations are a strict majority of the replicas (more than half of
/// them), and asynchronous replication always.
pub proof fn lemma_replication_policies(acks: Seq<bool>)
    ensures
        replication_succeeds(SyncPolicy::Synchronous, acks) <==> forall|i: int| 0 <= i < acks.len() ==> #[trigger] acks[i],
        replication_succeeds(SyncPolicy::Quorum, acks) <==> 2 * ack_count(acks) > acks.len(),
        replication_succeeds(SyncPolicy::Asynchronous, acks),
        ack_count(acks) <= acks.len(),
{
    lemma_ack_count_all(acks);
}

} // verus!
