use vstd::prelude::*;

use crate::hash::{hash_eq, to_hex, FixedHash};
use crate::store::{has_id, ids_contain, not_found, QueryErrorReason, StorageError, StoreState};

verus! {

/// How a block's transaction holds a substate version.
#[derive(Clone, Copy, Debug, PartialEq, Eq, Structural)]
pub enum SubstateLockType {
    /// Shared.
    Read,
    /// Exclusive.
    Write,
    /// Exclusive; claims a version that does not exist yet.
    Output,
}

/// A lock held by a block's transaction on one substate version.
#[derive(Clone, Copy, Debug)]
pub struct SubstateLockRecord {
    pub block_id: FixedHash,
    pub transaction_id: FixedHash,
    pub substate_id: FixedHash,
    pub version: u32,
    pub lock: SubstateLockType,
    pub is_local_only: bool,
}

/// Who destroyed a substate.
#[derive(Clone, Copy, Debug)]
pub struct SubstateDestroyed {
    /// When the DOWN was recorded, in milliseconds.
    pub at_ms: u64,
    pub by_transaction: FixedHash,
    pub justify: FixedHash,
    pub by_block: u64,
    pub at_epoch: u64,
    pub by_shard: u32,
}

/// A versioned substate with where it was created, and destroyed.
#[derive(Clone, Debug)]
pub struct SubstateRecord {
    pub substate_id: FixedHash,
    pub version: u32,
    pub value: Vec<u8>,
    pub state_hash: FixedHash,
    pub created_by_transaction: FixedHash,
    pub created_justify: FixedHash,
    pub created_block: FixedHash,
    pub created_height: u64,
    pub created_at_epoch: u64,
    pub created_by_shard: u32,
    pub destroyed: Option<SubstateDestroyed>,
}

/// The direction of a state transition.
#[derive(Clone, Copy, Debug, PartialEq, Eq, Structural)]
pub enum Transition {
    Up,
    Down,
}

/// One entry of a shard's append-only log of substate changes.
#[derive(Clone, Copy, Debug)]
pub struct StateTransition {
    pub seq: u64,
    pub epoch: u64,
    pub shard: u32,
    pub substate_id: FixedHash,
    pub version: u32,
    pub transition: Transition,
    pub state_hash: Option<FixedHash>,
    pub state_version: u64,
}

/// The state tree version a shard has reached.
#[derive(Clone, Copy, Debug)]
pub struct ShardVersion {
    pub shard: u32,
    pub version: u64,
}

/// Number of transitions of `shard` in `ts`.
pub open spec fn shard_count(ts: Seq<StateTransition>, shard: u32) -> nat
    decreases ts.len(),
{
    if ts.len() == 0 {
        0
    } else {
        shard_count(ts.drop_last(), shard) + if ts.last().shard == shard {
            1nat
        } else {
            0nat
        }
    }
}

/// Each transition's `seq` counts the transitions of its shard before it: per shard the log
/// is numbered 0, 1, 2, ... with no gap.
pub open spec fn transitions_wf(ts: Seq<StateTransition>) -> bool {
    forall|i: int| 0 <= i < ts.len() ==> (#[trigger] ts[i]).seq == shard_count(ts.subrange(0, i), ts[i].shard)
}

/// A substate version is created at most once.
pub open spec fn substates_wf(rows: Seq<SubstateRecord>) -> bool {
    forall|i: int, j: int|
        0 <= i < j < rows.len() ==> !(rows[i].substate_id == rows[j].substate_id && rows[i].version
            == rows[j].version)
}

/// Two locks on one substate version can stand together only when both only read.
pub open spec fn locks_compatible(a: SubstateLockRecord, b: SubstateLockRecord) -> bool {
    !(a.substate_id == b.substate_id && a.version == b.version) || (a.lock == SubstateLockType::Read
        && b.lock == SubstateLockType::Read)
}

/// No two locks on the same substate version where one writes or claims an output.
pub open spec fn locks_exclusive(locks: Seq<SubstateLockRecord>) -> bool {
    forall|i: int, j: int| 0 <= i < locks.len() && 0 <= j < locks.len() && i != j ==> locks_compatible(
        #[trigger] locks[i],
        #[trigger] locks[j],
    )
}

/// The locks that remain once the transactions `tx_ids` release theirs.
pub open spec fn locks_without(locks: Seq<SubstateLockRecord>, tx_ids: Seq<FixedHash>) -> Seq<SubstateLockRecord>
    decreases locks.len(),
{
    if locks.len() == 0 {
        seq![]
    } else {
        let rest = locks_without(locks.drop_last(), tx_ids);
        if has_id(tx_ids, locks.last().transaction_id) {
            rest
        } else {
            rest.push(locks.last())
        }
    }
}

/// The state tree version of `shard`, if it has one.
pub open spec fn shard_version_of(vs: Seq<ShardVersion>, shard: u32) -> Option<u64>
    decreases vs.len(),
{
    if vs.len() == 0 {
        None
    } else if vs.last().shard == shard {
        Some(vs.last().version)
    } else {
        shard_version_of(vs.drop_last(), shard)
    }
}

/// The invariants of the substate tables.
pub open spec fn substate_tables_wf(st: &StoreState) -> bool {
    &&& substates_wf(st.substates@)
    &&& transitions_wf(st.state_transitions@)
    &&& locks_exclusive(st.substate_locks@)
    &&& shard_versions_unique(st.state_tree_shard_versions@)
}

/// The shard version table keeps one row per shard.
pub open spec fn shard_versions_unique(vs: Seq<ShardVersion>) -> bool {
    forall|i: int, j: int| 0 <= i < j < vs.len() ==> vs[i].shard != vs[j].shard
}

proof fn lemma_shard_version_update(vs: Seq<ShardVersion>, i: int, e: ShardVersion)
    requires
        shard_versions_unique(vs),
        0 <= i < vs.len(),
        vs[i].shard == e.shard,
    ensures
        forall|s: u32| #[trigger] shard_version_of(vs.update(i, e), s) == if s == e.shard {
            Some(e.version)
        } else {
            shard_version_of(vs, s)
        },
        shard_versions_unique(vs.update(i, e)),
    decreases vs.len(),
{
    let t = vs.update(i, e);
    assert forall|a: int, b: int| 0 <= a < b < t.len() implies t[a].shard != t[b].shard by {}
    if i == vs.len() - 1 {
        assert(t.drop_last() =~= vs.drop_last());
        assert forall|s: u32| #[trigger] shard_version_of(t, s) == if s == e.shard {
            Some(e.version)
        } else {
            shard_version_of(vs, s)
        } by {}
    } else {
        let d = vs.drop_last();
        assert(t.drop_last() =~= d.update(i, e));
        assert forall|a: int, b: int| 0 <= a < b < d.len() implies d[a].shard != d[b].shard by {
            assert(d[a] == vs[a] && d[b] == vs[b]);
        }
        lemma_shard_version_update(d, i, e);
        assert(t.last() == vs.last());
        assert(vs.last().shard != e.shard);
        assert forall|s: u32| #[trigger] shard_version_of(t, s) == if s == e.shard {
            Some(e.version)
        } else {
            shard_version_of(vs, s)
        } by {
            if t.last().shard != s {
                assert(shard_version_of(t, s) == shard_version_of(d.update(i, e), s));
            }
        }
    }
}

/// In every state of the substate tables, no two held locks on the same substate version have
/// a write or output lock among them.
pub proof fn lemma_locks_exclusive(st: &StoreState, i: int, j: int)
    requires
        substate_tables_wf(st),
        0 <= i < st.substate_locks@.len(),
        0 <= j < st.substate_locks@.len(),
        i != j,
        st.substate_locks@[i].substate_id == st.substate_locks@[j].substate_id,
        st.substate_locks@[i].version == st.substate_locks@[j].version,
    ensures
        st.substate_locks@[i].lock == SubstateLockType::Read,
        st.substate_locks@[j].lock == SubstateLockType::Read,
{
    assert(locks_compatible(st.substate_locks@[i], st.substate_locks@[j]));
}

proof fn lemma_shard_count_prefix(ts: Seq<StateTransition>, shard: u32, i: int)
    requires
        0 <= i <= ts.len(),
    ensures
        shard_count(ts.subrange(0, i), shard) <= shard_count(ts, shard),
        shard_count(ts, shard) <= ts.len(),
    decreases ts.len(),
{
    if ts.len() > 0 {
        if i == ts.len() {
            assert(ts.subrange(0, i) =~= ts);
            lemma_shard_count_prefix(ts.drop_last(), shard, i - 1);
        } else {
            assert(ts.drop_last().subrange(0, i) =~= ts.subrange(0, i));
            lemma_shard_count_prefix(ts.drop_last(), shard, i);
        }
    }
}

/// Per shard, the log is numbered without gaps: a later transition of a shard has a higher
/// `seq`, and the transitions of a shard are numbered from 0 to one below their count.
pub proof fn lemma_state_transitions_gapless(ts: Seq<StateTransition>, i: int, j: int)
    requires
        transitions_wf(ts),
        0 <= i < j < ts.len(),
        ts[i].shard == ts[j].shard,
    ensures
        ts[i].seq < ts[j].seq,
        ts[j].seq < shard_count(ts, ts[j].shard),
{
    let s = ts[i].shard;
    let pj = ts.subrange(0, j);
    lemma_shard_count_prefix(pj, s, i + 1);
    assert(pj.subrange(0, i + 1) =~= ts.subrange(0, i + 1));
    assert(ts.subrange(0, i + 1).drop_last() =~= ts.subrange(0, i));
    assert(shard_count(ts.subrange(0, i + 1), s) == shard_count(ts.subrange(0, i), s) + 1);
    lemma_shard_count_prefix(ts, s, j + 1);
    assert(ts.subrange(0, j + 1).drop_last() =~= pj);
}

fn count_shard(ts: &Vec<StateTransition>, shard: u32) -> (r: u64)
    ensures
        r == shard_count(ts@, shard),
{
    let mut n: u64 = 0;
    let mut i: usize = 0;
    while i < ts.len()
        invariant
            i <= ts@.len(),
            n == shard_count(ts@.subrange(0, i as int), shard),
            n <= i,
        decreases ts@.len() - i,
    {
        proof {
            assert(ts@.subrange(0, i as int + 1).drop_last() =~= ts@.subrange(0, i as int));
        }
        if ts[i].shard == shard {
            n = n + 1;
        }
        i = i + 1;
    }
    assert(ts@.subrange(0, ts@.len() as int) =~= ts@);
    n
}

fn find_substate(rows: &Vec<SubstateRecord>, id: &FixedHash, version: u32) -> (r: Option<usize>)
    ensures
        r matches Some(i) ==> i < rows@.len() && rows@[i as int].substate_id == *id && rows@[i as int].version
            == version,
        r is None ==> forall|j: int|
            0 <= j < rows@.len() ==> !(rows@[j].substate_id == *id && rows@[j].version == version),
{
    let mut i: usize = 0;
    while i < rows.len()
        invariant
            i <= rows@.len(),
            forall|j: int| 0 <= j < i ==> !(rows@[j].substate_id == *id && rows@[j].version == version),
        decreases rows@.len() - i,
    {
        if rows[i].version == version && hash_eq(&rows[i].substate_id, id) {
            assert(rows@[i as int].substate_id =~= *id);
            return Some(i);
        }
        i = i + 1;
    }
    None
}

fn lookup_shard_version(vs: &Vec<ShardVersion>, shard: u32) -> (r: Option<u64>)
    ensures
        r == shard_version_of(vs@, shard),
{
    let mut i: usize = vs.len();
    assert(vs@.subrange(0, vs@.len() as int) =~= vs@);
    while i > 0
        invariant
            i <= vs@.len(),
            shard_version_of(vs@, shard) == shard_version_of(vs@.subrange(0, i as int), shard),
        decreases i,
    {
        proof {
            assert(vs@.subrange(0, i as int).drop_last() =~= vs@.subrange(0, i as int - 1));
        }
        if vs[i - 1].shard == shard {
            return Some(vs[i - 1].version);
        }
        i = i - 1;
    }
    None
}

fn lock_compatible(a: &SubstateLockRecord, b: &SubstateLockRecord) -> (r: bool)
    ensures
        r == locks_compatible(*a, *b),
{
    if a.version != b.version || !hash_eq(&a.substate_id, &b.substate_id) {
        return true;
    }
    assert(a.substate_id =~= b.substate_id);
    matches!(a.lock, SubstateLockType::Read) && matches!(b.lock, SubstateLockType::Read)
}

fn compatible_with_all(locks: &Vec<SubstateLockRecord>, end: usize, l: &SubstateLockRecord) -> (r: bool)
    requires
        end <= locks@.len(),
    ensures
        r == forall|j: int| 0 <= j < end ==> locks_compatible(#[trigger] locks@[j], *l) && locks_compatible(
            *l,
            locks@[j],
        ),
{
    let mut i: usize = 0;
    while i < end
        invariant
            i <= end <= locks@.len(),
            forall|j: int| 0 <= j < i ==> locks_compatible(#[trigger] locks@[j], *l) && locks_compatible(
                *l,
                locks@[j],
            ),
        decreases end - i,
    {
        if !(lock_compatible(&locks[i], l) && lock_compatible(l, &locks[i])) {
            return false;
        }
        i = i + 1;
    }
    true
}

fn keep_locks_without(locks: &Vec<SubstateLockRecord>, tx_ids: &Vec<FixedHash>) -> (r: Vec<SubstateLockRecord>)
    ensures
        r@ == locks_without(locks@, tx_ids@),
{
    let mut out: Vec<SubstateLockRecord> = Vec::new();
    let mut i: usize = 0;
    while i < locks.len()
        invariant
            i <= locks@.len(),
            out@ == locks_without(locks@.subrange(0, i as int), tx_ids@),
        decreases locks@.len() - i,
    {
        let l = locks[i];
        proof {
            assert(locks@.subrange(0, i as int + 1).drop_last() =~= locks@.subrange(0, i as int));
        }
        if !ids_contain(tx_ids, &l.transaction_id) {
            out.push(l);
        }
        i = i + 1;
    }
    assert(locks@.subrange(0, locks@.len() as int) =~= locks@);
    out
}

proof fn lemma_locks_without_subset(locks: Seq<SubstateLockRecord>, tx_ids: Seq<FixedHash>)
    requires
        locks_exclusive(locks),
    ensures
        locks_exclusive(locks_without(locks, tx_ids)),
        forall|x: SubstateLockRecord| #[trigger] locks_without(locks, tx_ids).contains(x) ==> locks.contains(x),
    decreases locks.len(),
{
    if locks.len() > 0 {
        let init = locks.drop_last();
        assert forall|i: int, j: int| 0 <= i < init.len() && 0 <= j < init.len() && i != j implies locks_compatible(
            #[trigger] init[i],
            #[trigger] init[j],
        ) by {
            assert(init[i] == locks[i] && init[j] == locks[j]);
        }
        lemma_locks_without_subset(init, tx_ids);
        let rest = locks_without(init, tx_ids);
        if !has_id(tx_ids, locks.last().transaction_id) {
            let out = rest.push(locks.last());
            assert forall|x: SubstateLockRecord| out.contains(x) implies locks.contains(x) by {
                if x == locks.last() {
                    assert(locks[locks.len() - 1] == x);
                } else {
                    let k = choose|k: int| 0 <= k < out.len() && out[k] == x;
                    assert(rest[k] == x);
                    assert(rest.contains(x));
                    let m = choose|m: int| 0 <= m < init.len() && init[m] == x;
                    assert(locks[m] == x);
                }
            }
            assert forall|i: int, j: int| 0 <= i < out.len() && 0 <= j < out.len() && i != j implies locks_compatible(
                #[trigger] out[i],
                #[trigger] out[j],
            ) by {
                let last = locks.len() - 1;
                if i == out.len() - 1 {
                    assert(rest.contains(out[j]));
                    let m = choose|m: int| 0 <= m < init.len() && init[m] == out[j];
                    assert(locks[m] == out[j]);
                    assert(locks_compatible(locks[last], locks[m]));
                } else if j == out.len() - 1 {
                    assert(rest.contains(out[i]));
                    let m = choose|m: int| 0 <= m < init.len() && init[m] == out[i];
                    assert(locks[m] == out[i]);
                    assert(locks_compatible(locks[m], locks[last]));
                } else {
                    assert(out[i] == rest[i] && out[j] == rest[j]);
                }
            }
        } else {
            assert forall|x: SubstateLockRecord| rest.contains(x) implies locks.contains(x) by {
                let m = choose|m: int| 0 <= m < init.len() && init[m] == x;
                assert(locks[m] == x);
            }
        }
    }
}

impl StoreState {
    /// The state tree version a shard has reached, if any.
    pub fn state_tree_versions_get_latest(&self, shard: u32) -> (r: Option<u64>)
        ensures
            r == shard_version_of(self.state_tree_shard_versions@, shard),
    {
        lookup_shard_version(&self.state_tree_shard_versions, shard)
    }

    /// Sets the state tree version of a shard.
    pub fn state_tree_shard_versions_set(&mut self, shard: u32, version: u64)
        requires
            substate_tables_wf(old(self)),
        ensures
            substate_tables_wf(final(self)),
            forall|i: int|
                0 <= i < old(self).state_tree_shard_versions@.len()
                    && #[trigger] old(self).state_tree_shard_versions@[i].shard == shard
                    ==> final(self).state_tree_shard_versions@ == old(self).state_tree_shard_versions@.update(
                    i,
                    ShardVersion { shard, version },
                ),
            (forall|i: int|
                0 <= i < old(self).state_tree_shard_versions@.len() ==> #[trigger] old(
                    self,
                ).state_tree_shard_versions@[i].shard != shard) ==> final(self).state_tree_shard_versions@ == old(
                self,
            ).state_tree_shard_versions@.push(ShardVersion { shard, version }),
            shard_version_of(final(self).state_tree_shard_versions@, shard) == Some(version),
            forall|s: u32| s != shard ==> shard_version_of(final(self).state_tree_shard_versions@, s)
                == shard_version_of(old(self).state_tree_shard_versions@, s),
            final(self).substates == old(self).substates,
            final(self).state_transitions == old(self).state_transitions,
            final(self).substate_locks == old(self).substate_locks,
    {
        let ghost vs = self.state_tree_shard_versions@;
        let e = ShardVersion { shard, version };
        let mut i: usize = 0;
        while i < self.state_tree_shard_versions.len()
            invariant
                i <= vs.len(),
                self.state_tree_shard_versions@ == vs,
                vs == old(self).state_tree_shard_versions@,
                e == (ShardVersion { shard, version }),
                substate_tables_wf(old(self)),
                self.substates == old(self).substates,
                self.state_transitions == old(self).state_transitions,
                self.substate_locks == old(self).substate_locks,
                forall|j: int| 0 <= j < i ==> vs[j].shard != shard,
            decreases vs.len() - i,
        {
            if self.state_tree_shard_versions[i].shard == shard {
                proof {
                    assert(vs[i as int] == self.state_tree_shard_versions@[i as int]);
                    assert(vs[i as int].shard == e.shard);
                    lemma_shard_version_update(vs, i as int, e);
                    assert forall|x: int| 0 <= x < vs.len() && vs[x].shard == shard implies x == i as int by {}
                }
                self.state_tree_shard_versions.set(i, e);
                return;
            }
            i = i + 1;
        }
        self.state_tree_shard_versions.push(e);
        proof {
            let t = self.state_tree_shard_versions@;
            assert(t.drop_last() =~= vs);
            assert forall|a: int, b: int| 0 <= a < b < t.len() implies t[a].shard != t[b].shard by {
                if b < vs.len() {
                    assert(t[a] == vs[a] && t[b] == vs[b]);
                } else {
                    assert(t[a] == vs[a]);
                }
            }
        }
    }

    /// Creates a substate (an UP) and appends an UP transition to its shard's log, numbered
    /// next in that shard and stamped with the shard's state tree version (0 if none). A
    /// destroyed record, or a substate version that already exists, is refused.
    pub fn substates_create(&mut self, substate: SubstateRecord) -> (r: Result<(), StorageError>)
        requires
            substate_tables_wf(old(self)),
        ensures
            substate_tables_wf(final(self)),
            final(self).substate_locks == old(self).substate_locks,
            final(self).state_tree_shard_versions == old(self).state_tree_shard_versions,
            substate.destroyed is Some ==> r == Err::<(), StorageError>(
                StorageError::QueryError { reason: QueryErrorReason::SubstateAlreadyDestroyed },
            ) && *final(self) == *old(self),
            substate.destroyed is None && (exists|j: int|
                0 <= j < old(self).substates@.len() && old(self).substates@[j].substate_id
                    == substate.substate_id && old(self).substates@[j].version == substate.version) ==> r
                == Err::<(), StorageError>(StorageError::QueryError { reason: QueryErrorReason::DuplicateKey })
                && *final(self) == *old(self),
            r is Ok ==> substate.destroyed is None && final(self).substates@ == old(self).substates@.push(substate)
                && final(self).state_transitions@ == old(self).state_transitions@.push(
                StateTransition {
                    seq: shard_count(old(self).state_transitions@, substate.created_by_shard) as u64,
                    epoch: substate.created_at_epoch,
                    shard: substate.created_by_shard,
                    substate_id: substate.substate_id,
                    version: substate.version,
                    transition: Transition::Up,
                    state_hash: Some(substate.state_hash),
                    state_version: match shard_version_of(
                        old(self).state_tree_shard_versions@,
                        substate.created_by_shard,
                    ) {
                        Some(v) => v,
                        None => 0,
                    },
                },
            ),
            substate.destroyed is None && !(exists|j: int|
                0 <= j < old(self).substates@.len() && old(self).substates@[j].substate_id
                    == substate.substate_id && old(self).substates@[j].version == substate.version) ==> r is Ok,
    {
        if substate.destroyed.is_some() {
            return Err(StorageError::QueryError { reason: QueryErrorReason::SubstateAlreadyDestroyed });
        }
        if let Some(_) = find_substate(&self.substates, &substate.substate_id, substate.version) {
            return Err(StorageError::QueryError { reason: QueryErrorReason::DuplicateKey });
        }
        let seq = count_shard(&self.state_transitions, substate.created_by_shard);
        let state_version = match self.state_tree_versions_get_latest(substate.created_by_shard) {
            Some(v) => v,
            None => 0,
        };
        let transition = StateTransition {
            seq,
            epoch: substate.created_at_epoch,
            shard: substate.created_by_shard,
            substate_id: substate.substate_id,
            version: substate.version,
            transition: Transition::Up,
            state_hash: Some(substate.state_hash),
            state_version,
        };
        self.substates.push(substate);
        self.push_transition(transition);
        Ok(())
    }

    fn push_transition(&mut self, t: StateTransition)
        requires
            transitions_wf(old(self).state_transitions@),
            t.seq == shard_count(old(self).state_transitions@, t.shard),
        ensures
            transitions_wf(final(self).state_transitions@),
            final(self).state_transitions@ == old(self).state_transitions@.push(t),
            final(self).substates == old(self).substates,
            final(self).substate_locks == old(self).substate_locks,
            final(self).state_tree_shard_versions == old(self).state_tree_shard_versions,
    {
        let ghost ts = self.state_transitions@;
        self.state_transitions.push(t);
        proof {
            let n = self.state_transitions@;
            assert forall|i: int| 0 <= i < n.len() implies (#[trigger] n[i]).seq == shard_count(
                n.subrange(0, i),
                n[i].shard,
            ) by {
                if i < ts.len() {
                    assert(n.subrange(0, i) =~= ts.subrange(0, i));
                    assert(n[i] == ts[i]);
                } else {
                    assert(n.subrange(0, i) =~= ts);
                }
            }
        }
    }

    /// Marks a substate version destroyed (a DOWN) at time `now_ms` and appends a DOWN
    /// transition to the shard's log. A substate version that does not exist is not found.
    pub fn substates_down(
        &mut self,
        substate_id: &FixedHash,
        version: u32,
        shard: u32,
        epoch: u64,
        destroyed_block_height: u64,
        destroyed_transaction_id: &FixedHash,
        destroyed_qc_id: &FixedHash,
        now_ms: u64,
    ) -> (r: Result<(), StorageError>)
        requires
            substate_tables_wf(old(self)),
        ensures
            substate_tables_wf(final(self)),
            final(self).substate_locks == old(self).substate_locks,
            final(self).state_tree_shard_versions == old(self).state_tree_shard_versions,
            (forall|j: int|
                0 <= j < old(self).substates@.len() ==> !(old(self).substates@[j].substate_id == *substate_id
                    && old(self).substates@[j].version == version)) ==> not_found(r, "substate", *substate_id)
                && *final(self) == *old(self),
            forall|j: int|
                0 <= j < old(self).substates@.len() && old(self).substates@[j].substate_id == *substate_id
                    && old(self).substates@[j].version == version ==> r is Ok && final(self).substates@
                    == old(self).substates@.update(
                    j,
                    SubstateRecord {
                        destroyed: Some(
                            SubstateDestroyed {
                                at_ms: now_ms,
                                by_transaction: *destroyed_transaction_id,
                                justify: *destroyed_qc_id,
                                by_block: destroyed_block_height,
                                at_epoch: epoch,
                                by_shard: shard,
                            },
                        ),
                        ..old(self).substates@[j]
                    },
                ) && final(self).state_transitions@ == old(self).state_transitions@.push(
                    StateTransition {
                        seq: shard_count(old(self).state_transitions@, shard) as u64,
                        epoch,
                        shard,
                        substate_id: *substate_id,
                        version,
                        transition: Transition::Down,
                        state_hash: None,
                        state_version: match shard_version_of(old(self).state_tree_shard_versions@, shard) {
                            Some(v) => v,
                            None => 0,
                        },
                    },
                ),
    {
        let i = match find_substate(&self.substates, substate_id, version) {
            Some(i) => i,
            None => {
                return Err(StorageError::NotFound { item: "substate", key: to_hex(substate_id) });
            },
        };
        proof {
            assert forall|j: int|
                0 <= j < self.substates@.len() && self.substates@[j].substate_id == *substate_id
                    && self.substates@[j].version == version implies j == i by {}
        }
        let destroyed = SubstateDestroyed {
            at_ms: now_ms,
            by_transaction: *destroyed_transaction_id,
            justify: *destroyed_qc_id,
            by_block: destroyed_block_height,
            at_epoch: epoch,
            by_shard: shard,
        };
        let ghost rows = self.substates@;
        let mut rec = self.substates.remove(i);
        rec.destroyed = Some(destroyed);
        self.substates.insert(i, rec);
        proof {
            assert(self.substates@ =~= rows.update(i as int, SubstateRecord { destroyed: Some(destroyed), ..rows[i as int] }));
            assert forall|a: int, b: int|
                0 <= a < b < self.substates@.len() implies !(self.substates@[a].substate_id
                == self.substates@[b].substate_id && self.substates@[a].version == self.substates@[b].version) by {
                assert(self.substates@[a].substate_id == rows[a].substate_id);
                assert(self.substates@[b].substate_id == rows[b].substate_id);
            }
        }
        let seq = count_shard(&self.state_transitions, shard);
        let state_version = match self.state_tree_versions_get_latest(shard) {
            Some(v) => v,
            None => 0,
        };
        self.push_transition(
            StateTransition {
                seq,
                epoch,
                shard,
                substate_id: *substate_id,
                version,
                transition: Transition::Down,
                state_hash: None,
                state_version,
            },
        );
        Ok(())
    }

    /// Takes the locks of a block. Nothing is taken when one of them conflicts with a lock
    /// already held, or with another of them: a write or output lock excludes every other lock
    /// on the same substate version.
    pub fn substate_locks_insert_all(&mut self, locks: &Vec<SubstateLockRecord>) -> (r: Result<(), StorageError>)
        requires
            substate_tables_wf(old(self)),
        ensures
            substate_tables_wf(final(self)),
            final(self).substates == old(self).substates,
            final(self).state_transitions == old(self).state_transitions,
            locks_exclusive(old(self).substate_locks@ + locks@) <==> r is Ok,
            r is Ok ==> final(self).substate_locks@ == old(self).substate_locks@ + locks@,
            r is Err ==> r == Err::<(), StorageError>(
                StorageError::QueryError { reason: QueryErrorReason::LockConflict },
            ) && *final(self) == *old(self),
    {
        let ghost held = self.substate_locks@;
        let mut all = self.substate_locks.clone();
        proof {
            assert(all@ =~= held);
        }
        let mut i: usize = 0;
        while i < locks.len()
            invariant
                i <= locks@.len(),
                self.substate_locks@ == held,
                substate_tables_wf(self),
                all@ == held + locks@.subrange(0, i as int),
                locks_exclusive(all@),
            decreases locks@.len() - i,
        {
            let l = locks[i];
            if !compatible_with_all(&all, all.len(), &l) {
                proof {
                    let j = choose|j: int|
                        0 <= j < all@.len() && !(locks_compatible(all@[j], l) && locks_compatible(l, all@[j]));
                    let whole = held + locks@;
                    let k = held.len() + i;
                    assert(whole[k] == l);
                    assert(whole[j] == all@[j]);
                    assert(j != k);
                    if !locks_compatible(whole[j], whole[k]) {
                        assert(!locks_exclusive(whole));
                    } else {
                        assert(!locks_compatible(whole[k], whole[j]));
                        assert(!locks_exclusive(whole));
                    }
                }
                return Err(StorageError::QueryError { reason: QueryErrorReason::LockConflict });
            }
            let ghost before = all@;
            all.push(l);
            proof {
                assert(locks@.subrange(0, i as int + 1) =~= locks@.subrange(0, i as int).push(l));
                assert(all@ =~= held + locks@.subrange(0, i as int + 1));
                assert forall|a: int, b: int| 0 <= a < all@.len() && 0 <= b < all@.len() && a != b implies locks_compatible(
                    #[trigger] all@[a],
                    #[trigger] all@[b],
                ) by {
                    let last = before.len() as int;
                    if a == last {
                        assert(locks_compatible(l, before[b]));
                    } else if b == last {
                        assert(locks_compatible(before[a], l));
                    } else {
                        assert(all@[a] == before[a] && all@[b] == before[b]);
                    }
                }
            }
            i = i + 1;
        }
        assert(locks@.subrange(0, locks@.len() as int) =~= locks@);
        self.substate_locks = all;
        Ok(())
    }

    /// Releases every lock held by the given transactions.
    pub fn substate_locks_remove_many_for_transactions(&mut self, transaction_ids: &Vec<FixedHash>)
        requires
            substate_tables_wf(old(self)),
        ensures
            substate_tables_wf(final(self)),
            final(self).substates == old(self).substates,
            final(self).state_transitions == old(self).state_transitions,
            final(self).substate_locks@ == locks_without(old(self).substate_locks@, transaction_ids@),
    {
        proof {
            lemma_locks_without_subset(self.substate_locks@, transaction_ids@);
        }
        self.substate_locks = keep_locks_without(&self.substate_locks, transaction_ids);
    }
}

/// One change of a block's diff.
#[derive(Debug)]
pub enum SubstateChange {
    /// A substate version comes into existence.
    Up(SubstateRecord),
    /// A substate version is destroyed.
    Down {
        substate_id: FixedHash,
        version: u32,
        shard: u32,
        epoch: u64,
        block_height: u64,
        transaction_id: FixedHash,
        qc_id: FixedHash,
    },
}

/// Why a diff was refused: the first change that could not be applied.
#[derive(Clone, Copy, Debug, PartialEq, Eq)]
pub enum DiffRefusal {
    /// An UP carried a destroyed record.
    AlreadyDestroyed,
    /// An UP's substate version already exists.
    Duplicate,
    /// A DOWN's substate version does not exist.
    Missing { substate_id: FixedHash },
}

/// What applying a diff comes to: the new substates and transition log, or the refusal.
pub enum DiffOutcome {
    Applied { substates: Seq<SubstateRecord>, transitions: Seq<StateTransition> },
    Refused { refusal: DiffRefusal },
}

/// The UP transition `substates_create` appends for `rec`.
pub open spec fn up_transition(ts: Seq<StateTransition>, vs: Seq<ShardVersion>, rec: SubstateRecord) -> StateTransition {
    StateTransition {
        seq: shard_count(ts, rec.created_by_shard) as u64,
        epoch: rec.created_at_epoch,
        shard: rec.created_by_shard,
        substate_id: rec.substate_id,
        version: rec.version,
        transition: Transition::Up,
        state_hash: Some(rec.state_hash),
        state_version: match shard_version_of(vs, rec.created_by_shard) {
            Some(v) => v,
            None => 0,
        },
    }
}

/// The DOWN transition `substates_down` appends.
pub open spec fn down_transition(
    ts: Seq<StateTransition>,
    vs: Seq<ShardVersion>,
    substate_id: FixedHash,
    version: u32,
    shard: u32,
    epoch: u64,
) -> StateTransition {
    StateTransition {
        seq: shard_count(ts, shard) as u64,
        epoch,
        shard,
        substate_id,
        version,
        transition: Transition::Down,
        state_hash: None,
        state_version: match shard_version_of(vs, shard) {
            Some(v) => v,
            None => 0,
        },
    }
}

/// The position of a substate version, if stored.
pub open spec fn substate_index(subs: Seq<SubstateRecord>, id: FixedHash, version: u32) -> Option<int> {
    if exists|j: int| 0 <= j < subs.len() && subs[j].substate_id == id && subs[j].version == version {
        Some(choose|j: int| 0 <= j < subs.len() && subs[j].substate_id == id && subs[j].version == version)
    } else {
        None
    }
}

/// Applies the changes one at a time, in order, as `substates_create` and `substates_down` do.
pub open spec fn diff_outcome(
    subs: Seq<SubstateRecord>,
    ts: Seq<StateTransition>,
    vs: Seq<ShardVersion>,
    cs: Seq<SubstateChange>,
    now_ms: u64,
) -> DiffOutcome
    decreases cs.len(),
{
    if cs.len() == 0 {
        DiffOutcome::Applied { substates: subs, transitions: ts }
    } else {
        let rest = cs.subrange(1, cs.len() as int);
        match cs[0] {
            SubstateChange::Up(rec) => {
                if rec.destroyed is Some {
                    DiffOutcome::Refused { refusal: DiffRefusal::AlreadyDestroyed }
                } else if substate_index(subs, rec.substate_id, rec.version) is Some {
                    DiffOutcome::Refused { refusal: DiffRefusal::Duplicate }
                } else {
                    diff_outcome(subs.push(rec), ts.push(up_transition(ts, vs, rec)), vs, rest, now_ms)
                }
            },
            SubstateChange::Down { substate_id, version, shard, epoch, block_height, transaction_id, qc_id } => {
                match substate_index(subs, substate_id, version) {
                    None => DiffOutcome::Refused { refusal: DiffRefusal::Missing { substate_id } },
                    Some(j) => diff_outcome(
                        subs.update(
                            j,
                            SubstateRecord {
                                destroyed: Some(
                                    SubstateDestroyed {
                                        at_ms: now_ms,
                                        by_transaction: transaction_id,
                                        justify: qc_id,
                                        by_block: block_height,
                                        at_epoch: epoch,
                                        by_shard: shard,
                                    },
                                ),
                                ..subs[j]
                            },
                        ),
                        ts.push(down_transition(ts, vs, substate_id, version, shard, epoch)),
                        vs,
                        rest,
                        now_ms,
                    ),
                }
            },
        }
    }
}

/// The result of applying a diff: on success the substates and transitions it describes, on
/// refusal the matching error.
pub open spec fn diff_result(
    r: Result<(), StorageError>,
    outcome: DiffOutcome,
    subs: Seq<SubstateRecord>,
    ts: Seq<StateTransition>,
) -> bool {
    match outcome {
        DiffOutcome::Applied { substates, transitions } => r is Ok && subs == substates && ts == transitions,
        DiffOutcome::Refused { refusal } => refusal_error(r, refusal),
    }
}

/// `r` is the error the refusal is reported with.
pub open spec fn refusal_error(r: Result<(), StorageError>, refusal: DiffRefusal) -> bool {
    match refusal {
        DiffRefusal::AlreadyDestroyed => r == Err::<(), StorageError>(
            StorageError::QueryError { reason: QueryErrorReason::SubstateAlreadyDestroyed },
        ),
        DiffRefusal::Duplicate => r == Err::<(), StorageError>(
            StorageError::QueryError { reason: QueryErrorReason::DuplicateKey },
        ),
        DiffRefusal::Missing { substate_id } => not_found(r, "substate", substate_id),
    }
}

impl StoreState {
    /// Applies a committed block's diff in order, at time `now_ms`: each UP creates a substate,
    /// each DOWN destroys one, and each appends one transition to its shard's log. It stops at
    /// the first change that is refused, with that change's error.
    pub fn substates_apply_diff(&mut self, changes: Vec<SubstateChange>, now_ms: u64) -> (r: Result<(), StorageError>)
        requires
            substate_tables_wf(old(self)),
        ensures
            substate_tables_wf(final(self)),
            final(self).substate_locks == old(self).substate_locks,
            final(self).state_tree_shard_versions == old(self).state_tree_shard_versions,
            diff_result(
                r,
                diff_outcome(
                    old(self).substates@,
                    old(self).state_transitions@,
                    old(self).state_tree_shard_versions@,
                    changes@,
                    now_ms,
                ),
                final(self).substates@,
                final(self).state_transitions@,
            ),
            r is Ok ==> final(self).state_transitions@.len() == old(self).state_transitions@.len()
                + changes@.len(),
            r is Ok ==> final(self).state_transitions@.subrange(0, old(self).state_transitions@.len() as int)
                == old(self).state_transitions@,
    {
        let ghost n = changes@.len();
        let ghost start = self.state_transitions@;
        let ghost vs = self.state_tree_shard_versions@;
        let ghost whole = diff_outcome(self.substates@, self.state_transitions@, vs, changes@, now_ms);
        let ghost orig = changes@;
        let mut todo = changes;
        while todo.len() > 0
            invariant
                substate_tables_wf(self),
                self.substate_locks == old(self).substate_locks,
                self.state_tree_shard_versions == old(self).state_tree_shard_versions,
                vs == old(self).state_tree_shard_versions@,
                self.state_transitions@.len() == start.len() + (n - todo@.len()),
                self.state_transitions@.subrange(0, start.len() as int) == start,
                todo@.len() <= n,
                whole == diff_outcome(self.substates@, self.state_transitions@, vs, todo@, now_ms),
                orig == changes@,
                whole == diff_outcome(
                    old(self).substates@,
                    old(self).state_transitions@,
                    old(self).state_tree_shard_versions@,
                    orig,
                    now_ms,
                ),
            decreases todo@.len(),
        {
            let ghost before = self.state_transitions@;
            let ghost subs0 = self.substates@;
            let ghost cs = todo@;
            let c = todo.remove(0);
            proof {
                assert(c == cs[0]);
                assert(todo@ =~= cs.subrange(1, cs.len() as int));
            }
            match c {
                SubstateChange::Up(rec) => {
                    proof {
                        if let Some(j) = substate_index(subs0, rec.substate_id, rec.version) {
                            assert(subs0[j].substate_id == rec.substate_id && subs0[j].version == rec.version);
                        }
                    }
                    let ghost recg = rec;
                    let res = self.substates_create(rec);
                    if res.is_err() {
                        proof {
                            assert(cs[0] == SubstateChange::Up(recg));
                            if recg.destroyed is Some {
                                assert(whole == DiffOutcome::Refused { refusal: DiffRefusal::AlreadyDestroyed });
                                assert(refusal_error(res, DiffRefusal::AlreadyDestroyed));
                            } else {
                                let j = choose|j: int|
                                    0 <= j < subs0.len() && subs0[j].substate_id == recg.substate_id
                                        && subs0[j].version == recg.version;
                                assert(substate_index(subs0, recg.substate_id, recg.version) is Some);
                                assert(whole == DiffOutcome::Refused { refusal: DiffRefusal::Duplicate });
                                assert(refusal_error(res, DiffRefusal::Duplicate));
                            }
                        }
                        return res;
                    }
                },
                SubstateChange::Down {
                    substate_id,
                    version,
                    shard,
                    epoch,
                    block_height,
                    transaction_id,
                    qc_id,
                } => {
                    proof {
                        if let Some(j) = substate_index(subs0, substate_id, version) {
                            assert(subs0[j].substate_id == substate_id && subs0[j].version == version);
                        }
                    }
                    let res = self.substates_down(
                        &substate_id,
                        version,
                        shard,
                        epoch,
                        block_height,
                        &transaction_id,
                        &qc_id,
                        now_ms,
                    );
                    if res.is_err() {
                        proof {
                            assert(substate_index(subs0, substate_id, version) is None);
                            assert(whole == DiffOutcome::Refused { refusal: DiffRefusal::Missing { substate_id } });
                            assert(refusal_error(res, DiffRefusal::Missing { substate_id }));
                        }
                        return res;
                    }
                },
            }
            proof {
                assert(self.state_transitions@.subrange(0, start.len() as int) =~= before.subrange(
                    0,
                    start.len() as int,
                ));
            }
        }
        Ok(())
    }
}

} // verus!
