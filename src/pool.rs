use vstd::prelude::*;

use crate::hash::{hash_eq, FixedHash};
use crate::model::{Decision, TransactionAtom};
use crate::store::{has_id, ids_contain, not_found, StorageError, StoreState, QueryErrorReason};
use crate::hash::to_hex;

verus! {

/// Where a transaction stands in the pool's lifecycle.
#[derive(Clone, Copy, Debug, PartialEq, Eq, Structural)]
pub enum TransactionPoolStage {
    New,
    Prepared,
    LocalPrepared,
    AllPrepared,
    SomePrepared,
    LocalAccepted,
    AllAccepted,
    SomeAccepted,
    Complete,
}

/// Position of a stage in the canonical order
/// `New, Prepared, LocalPrepared, (All|Some)Prepared, LocalAccepted, (All|Some)Accepted, Complete`.
pub open spec fn stage_rank(s: TransactionPoolStage) -> int {
    match s {
        TransactionPoolStage::New => 0,
        TransactionPoolStage::Prepared => 1,
        TransactionPoolStage::LocalPrepared => 2,
        TransactionPoolStage::AllPrepared => 3,
        TransactionPoolStage::SomePrepared => 3,
        TransactionPoolStage::LocalAccepted => 4,
        TransactionPoolStage::AllAccepted => 5,
        TransactionPoolStage::SomeAccepted => 5,
        TransactionPoolStage::Complete => 6,
    }
}

/// A step that a pending update may make: to the next stage in the canonical order, or
/// restating the same stage.
pub open spec fn allowed_step(from: TransactionPoolStage, to: TransactionPoolStage) -> bool {
    stage_rank(to) == stage_rank(from) + 1 || to == from
}

/// Promotion never moves a transaction's stage back in the canonical order.
pub proof fn lemma_promote_never_lowers(
    r: TransactionPoolRecord,
    updates: Seq<TransactionPoolStatusUpdate>,
    tx_ids: Seq<FixedHash>,
    lo: u64,
    hi: u64,
)
    ensures
        stage_rank(r.stage) <= stage_rank(promote(r, updates, tx_ids, lo, hi).stage),
{
}

/// Rank `r` occurs in `path` at or before position `i`.
pub open spec fn visited(path: Seq<TransactionPoolStage>, i: int, r: int) -> bool {
    exists|j: int| 0 <= j <= i && stage_rank(path[j]) == r
}

/// The stages a transaction passes through, starting at `New` and moving by allowed steps, are
/// a prefix of the canonical order: ranks never go down, and every rank below the current one
/// was visited on the way.
pub proof fn lemma_stage_path_is_prefix(path: Seq<TransactionPoolStage>)
    requires
        path.len() > 0,
        path[0] == TransactionPoolStage::New,
        forall|i: int| 0 < i < path.len() ==> allowed_step(path[i - 1], #[trigger] path[i]),
    ensures
        forall|i: int, j: int| 0 <= i <= j < path.len() ==> stage_rank(path[i]) <= stage_rank(path[j]),
        forall|i: int, r: int|
            0 <= i < path.len() && 0 <= r <= stage_rank(path[i]) ==> #[trigger] visited(path, i, r),
    decreases path.len(),
{
    if path.len() > 1 {
        let init = path.drop_last();
        assert forall|i: int| 0 < i < init.len() implies allowed_step(init[i - 1], #[trigger] init[i]) by {
            assert(init[i] == path[i] && init[i - 1] == path[i - 1]);
        }
        lemma_stage_path_is_prefix(init);
        let n = path.len() - 1;
        assert(allowed_step(path[n - 1], path[n]));
        assert forall|i: int, j: int| 0 <= i <= j < path.len() implies stage_rank(path[i]) <= stage_rank(path[j]) by {
            if j < n {
                assert(init[i] == path[i] && init[j] == path[j]);
            } else if i < n {
                assert(init[i] == path[i] && init[n - 1] == path[n - 1]);
            }
        }
        assert forall|i: int, r: int|
            0 <= i < path.len() && 0 <= r <= stage_rank(path[i]) implies #[trigger] visited(path, i, r) by {
            if i < n {
                assert(init[i] == path[i]);
                assert(visited(init, i, r));
                let j = choose|j: int| 0 <= j <= i && stage_rank(init[j]) == r;
                assert(init[j] == path[j]);
            } else if r == stage_rank(path[n]) {
                assert(stage_rank(path[n]) == r);
            } else {
                assert(r <= stage_rank(path[n - 1]));
                assert(init[n - 1] == path[n - 1]);
                assert(visited(init, n - 1, r));
                let j = choose|j: int| 0 <= j <= n - 1 && stage_rank(init[j]) == r;
                assert(init[j] == path[j]);
            }
        }
    }
}

impl TransactionPoolStage {
    pub fn rank(&self) -> (r: u8)
        ensures
            r == stage_rank(*self),
    {
        match self {
            TransactionPoolStage::New => 0,
            TransactionPoolStage::Prepared => 1,
            TransactionPoolStage::LocalPrepared => 2,
            TransactionPoolStage::AllPrepared => 3,
            TransactionPoolStage::SomePrepared => 3,
            TransactionPoolStage::LocalAccepted => 4,
            TransactionPoolStage::AllAccepted => 5,
            TransactionPoolStage::SomeAccepted => 5,
            TransactionPoolStage::Complete => 6,
        }
    }

    /// `next` is the stage that follows `self` in the canonical order.
    pub fn can_transition_to(&self, next: TransactionPoolStage) -> (r: bool)
        ensures
            r == (stage_rank(next) == stage_rank(*self) + 1),
    {
        next.rank() == self.rank() + 1
    }
}

/// The pool's row for one transaction.
#[derive(Clone, Copy, Debug)]
pub struct TransactionPoolRecord {
    pub transaction_id: FixedHash,
    pub original_decision: Decision,
    pub local_decision: Option<Decision>,
    pub remote_decision: Option<Decision>,
    pub transaction_fee: u64,
    pub leader_fee: Option<u64>,
    pub stage: TransactionPoolStage,
    pub pending_stage: Option<TransactionPoolStage>,
    pub is_ready: bool,
}

/// The decision a record stands for: a remote abort wins, then the local decision, then the
/// original one.
pub open spec fn current_decision_spec(r: TransactionPoolRecord) -> Decision {
    if r.remote_decision == Some(Decision::Abort) {
        Decision::Abort
    } else if r.local_decision is Some {
        r.local_decision->Some_0
    } else {
        r.original_decision
    }
}

/// The stage the record is headed for: its pending stage, else its stage.
pub open spec fn effective_stage(r: TransactionPoolRecord) -> TransactionPoolStage {
    match r.pending_stage {
        Some(s) => s,
        None => r.stage,
    }
}

impl TransactionPoolRecord {
    pub fn current_decision(&self) -> (r: Decision)
        ensures
            r == current_decision_spec(*self),
    {
        if let Some(Decision::Abort) = self.remote_decision {
            return Decision::Abort;
        }
        match self.local_decision {
            Some(d) => d,
            None => self.original_decision,
        }
    }

    pub fn current_stage(&self) -> (r: TransactionPoolStage)
        ensures
            r == effective_stage(*self),
    {
        match self.pending_stage {
            Some(s) => s,
            None => self.stage,
        }
    }
}

/// A pending stage move of a transaction, recorded by the block that made it.
#[derive(Clone, Copy, Debug)]
pub struct TransactionPoolStatusUpdate {
    pub block_id: FixedHash,
    pub block_height: u64,
    pub transaction_id: FixedHash,
    pub stage: TransactionPoolStage,
    pub local_decision: Decision,
    pub is_ready: bool,
}

/// The update is for the same block and transaction as `u`.
pub open spec fn same_update_key(a: TransactionPoolStatusUpdate, u: TransactionPoolStatusUpdate) -> bool {
    a.transaction_id == u.transaction_id && a.block_id == u.block_id
}

/// A single-row pointer to a block: the locked block, the leaf, the last voted block, ...
#[derive(Clone, Copy, Debug)]
pub struct BlockPointer {
    pub block_id: FixedHash,
    pub height: u64,
    pub epoch: u64,
}

pub open spec fn pool_ids(rows: Seq<TransactionPoolRecord>) -> Seq<FixedHash> {
    rows.map_values(|r: TransactionPoolRecord| r.transaction_id)
}

/// The latest update of `tx` made above height `lo` and at most at height `hi`; of updates at
/// the same height the one recorded last.
pub open spec fn latest_update(
    updates: Seq<TransactionPoolStatusUpdate>,
    tx: FixedHash,
    lo: u64,
    hi: u64,
) -> Option<TransactionPoolStatusUpdate>
    decreases updates.len(),
{
    if updates.len() == 0 {
        None
    } else {
        let rest = latest_update(updates.drop_last(), tx, lo, hi);
        let u = updates.last();
        if u.transaction_id == tx && lo < u.block_height <= hi && (rest is None || rest->Some_0.block_height
            <= u.block_height) {
            Some(u)
        } else {
            rest
        }
    }
}

/// A record after the locked block advanced: it takes the stage, decision and readiness of its
/// latest pending update, if it has one and that update does not lie behind its stage; a
/// pending stage never stays behind the stage.
pub open spec fn promote(
    r: TransactionPoolRecord,
    updates: Seq<TransactionPoolStatusUpdate>,
    tx_ids: Seq<FixedHash>,
    lo: u64,
    hi: u64,
) -> TransactionPoolRecord {
    if has_id(tx_ids, r.transaction_id) {
        match latest_update(updates, r.transaction_id, lo, hi) {
            Some(u) => if stage_rank(u.stage) < stage_rank(r.stage) {
                r
            } else {
                TransactionPoolRecord {
                stage: u.stage,
                local_decision: Some(u.local_decision),
                is_ready: u.is_ready,
                    pending_stage: pending_not_behind(r.pending_stage, u.stage),
                    ..r
                }
            },
            None => r,
        }
    } else {
        r
    }
}

/// A pending stage kept after promotion to `stage`, moved up to `stage` if it was behind it.
pub open spec fn pending_not_behind(pending: Option<TransactionPoolStage>, stage: TransactionPoolStage) -> Option<
    TransactionPoolStage,
> {
    match pending {
        Some(p) => if stage_rank(p) < stage_rank(stage) {
            Some(stage)
        } else {
            pending
        },
        None => None,
    }
}

/// The updates that remain once the locked block reached height `hi`: those of the promoted
/// transactions up to `hi` are superseded.
pub open spec fn remaining_updates(
    updates: Seq<TransactionPoolStatusUpdate>,
    tx_ids: Seq<FixedHash>,
    hi: u64,
) -> Seq<TransactionPoolStatusUpdate>
    decreases updates.len(),
{
    if updates.len() == 0 {
        seq![]
    } else {
        let rest = remaining_updates(updates.drop_last(), tx_ids, hi);
        let u = updates.last();
        if has_id(tx_ids, u.transaction_id) && u.block_height <= hi {
            rest
        } else {
            rest.push(u)
        }
    }
}

/// The updates that remain once the transactions `tx_ids` leave the pool.
pub open spec fn updates_without(updates: Seq<TransactionPoolStatusUpdate>, tx_ids: Seq<FixedHash>) -> Seq<
    TransactionPoolStatusUpdate,
>
    decreases updates.len(),
{
    if updates.len() == 0 {
        seq![]
    } else {
        let rest = updates_without(updates.drop_last(), tx_ids);
        if has_id(tx_ids, updates.last().transaction_id) {
            rest
        } else {
            rest.push(updates.last())
        }
    }
}

/// The records that remain once the transactions `tx_ids` leave the pool.
pub open spec fn records_without(rows: Seq<TransactionPoolRecord>, tx_ids: Seq<FixedHash>) -> Seq<
    TransactionPoolRecord,
>
    decreases rows.len(),
{
    if rows.len() == 0 {
        seq![]
    } else {
        let rest = records_without(rows.drop_last(), tx_ids);
        if has_id(tx_ids, rows.last().transaction_id) {
            rest
        } else {
            rest.push(rows.last())
        }
    }
}

/// Pool invariants: one row per transaction, one update per block and transaction, and no
/// row's pending stage behind its stage.
pub open spec fn pool_wf(rows: Seq<TransactionPoolRecord>, updates: Seq<TransactionPoolStatusUpdate>) -> bool {
    &&& forall|i: int, j: int| 0 <= i < j < rows.len() ==> rows[i].transaction_id != rows[j].transaction_id
    &&& forall|i: int, j: int|
        0 <= i < j < updates.len() ==> !(updates[i].transaction_id == updates[j].transaction_id
            && updates[i].block_id == updates[j].block_id)
    &&& forall|i: int| 0 <= i < rows.len() ==> stage_rank(#[trigger] rows[i].stage) <= stage_rank(
        effective_stage(rows[i]),
    )
}

fn find_pool_row(rows: &Vec<TransactionPoolRecord>, id: &FixedHash) -> (r: Option<usize>)
    ensures
        r matches Some(i) ==> i < rows@.len() && rows@[i as int].transaction_id == *id,
        r is Some ==> has_id(pool_ids(rows@), *id),
        r is None ==> !has_id(pool_ids(rows@), *id),
        r is None ==> forall|j: int| 0 <= j < rows@.len() ==> rows@[j].transaction_id != *id,
{
    let mut i: usize = 0;
    while i < rows.len()
        invariant
            i <= rows@.len(),
            forall|j: int| 0 <= j < i ==> rows@[j].transaction_id != *id,
        decreases rows@.len() - i,
    {
        if hash_eq(&rows[i].transaction_id, id) {
            assert(rows@[i as int].transaction_id =~= *id);
            assert(pool_ids(rows@)[i as int] == *id);
            return Some(i);
        }
        i = i + 1;
    }
    proof {
        assert forall|j: int| 0 <= j < pool_ids(rows@).len() implies pool_ids(rows@)[j] != *id by {
            assert(pool_ids(rows@)[j] == rows@[j].transaction_id);
        }
    }
    None
}

fn find_update(updates: &Vec<TransactionPoolStatusUpdate>, block_id: &FixedHash, tx: &FixedHash) -> (r: Option<
    usize,
>)
    ensures
        r matches Some(i) ==> i < updates@.len() && updates@[i as int].transaction_id == *tx
            && updates@[i as int].block_id == *block_id,
        r is None ==> forall|j: int|
            0 <= j < updates@.len() ==> !(updates@[j].transaction_id == *tx && updates@[j].block_id
                == *block_id),
{
    let mut i: usize = 0;
    while i < updates.len()
        invariant
            i <= updates@.len(),
            forall|j: int|
                0 <= j < i ==> !(updates@[j].transaction_id == *tx && updates@[j].block_id == *block_id),
        decreases updates@.len() - i,
    {
        if hash_eq(&updates[i].transaction_id, tx) && hash_eq(&updates[i].block_id, block_id) {
            assert(updates@[i as int].transaction_id =~= *tx);
            assert(updates@[i as int].block_id =~= *block_id);
            return Some(i);
        }
        i = i + 1;
    }
    None
}

fn find_latest_update(updates: &Vec<TransactionPoolStatusUpdate>, tx: &FixedHash, lo: u64, hi: u64) -> (r: Option<
    TransactionPoolStatusUpdate,
>)
    ensures
        r == latest_update(updates@, *tx, lo, hi),
{
    let mut best: Option<TransactionPoolStatusUpdate> = None;
    let mut i: usize = 0;
    while i < updates.len()
        invariant
            i <= updates@.len(),
            best == latest_update(updates@.subrange(0, i as int), *tx, lo, hi),
        decreases updates@.len() - i,
    {
        let u = updates[i];
        proof {
            assert(updates@.subrange(0, i as int + 1).drop_last() =~= updates@.subrange(0, i as int));
        }
        let matches_tx = hash_eq(&u.transaction_id, tx);
        proof {
            if matches_tx {
                assert(u.transaction_id =~= *tx);
            }
        }
        if matches_tx && lo < u.block_height && u.block_height <= hi {
            let better = match best {
                None => true,
                Some(b) => b.block_height <= u.block_height,
            };
            if better {
                best = Some(u);
            }
        }
        i = i + 1;
    }
    assert(updates@.subrange(0, updates@.len() as int) =~= updates@);
    best
}

fn keep_remaining_updates(updates: &Vec<TransactionPoolStatusUpdate>, tx_ids: &Vec<FixedHash>, hi: u64) -> (r: Vec<
    TransactionPoolStatusUpdate,
>)
    ensures
        r@ == remaining_updates(updates@, tx_ids@, hi),
{
    let mut out: Vec<TransactionPoolStatusUpdate> = Vec::new();
    let mut i: usize = 0;
    while i < updates.len()
        invariant
            i <= updates@.len(),
            out@ == remaining_updates(updates@.subrange(0, i as int), tx_ids@, hi),
        decreases updates@.len() - i,
    {
        let u = updates[i];
        proof {
            assert(updates@.subrange(0, i as int + 1).drop_last() =~= updates@.subrange(0, i as int));
        }
        if !(ids_contain(tx_ids, &u.transaction_id) && u.block_height <= hi) {
            out.push(u);
        }
        i = i + 1;
    }
    assert(updates@.subrange(0, updates@.len() as int) =~= updates@);
    out
}

fn keep_updates_without(updates: &Vec<TransactionPoolStatusUpdate>, tx_ids: &Vec<FixedHash>) -> (r: Vec<
    TransactionPoolStatusUpdate,
>)
    ensures
        r@ == updates_without(updates@, tx_ids@),
{
    let mut out: Vec<TransactionPoolStatusUpdate> = Vec::new();
    let mut i: usize = 0;
    while i < updates.len()
        invariant
            i <= updates@.len(),
            out@ == updates_without(updates@.subrange(0, i as int), tx_ids@),
        decreases updates@.len() - i,
    {
        let u = updates[i];
        proof {
            assert(updates@.subrange(0, i as int + 1).drop_last() =~= updates@.subrange(0, i as int));
        }
        if !ids_contain(tx_ids, &u.transaction_id) {
            out.push(u);
        }
        i = i + 1;
    }
    assert(updates@.subrange(0, updates@.len() as int) =~= updates@);
    out
}

fn keep_records_without(rows: &Vec<TransactionPoolRecord>, tx_ids: &Vec<FixedHash>) -> (r: Vec<
    TransactionPoolRecord,
>)
    ensures
        r@ == records_without(rows@, tx_ids@),
{
    let mut out: Vec<TransactionPoolRecord> = Vec::new();
    let mut i: usize = 0;
    while i < rows.len()
        invariant
            i <= rows@.len(),
            out@ == records_without(rows@.subrange(0, i as int), tx_ids@),
        decreases rows@.len() - i,
    {
        let u = rows[i];
        proof {
            assert(rows@.subrange(0, i as int + 1).drop_last() =~= rows@.subrange(0, i as int));
        }
        if !ids_contain(tx_ids, &u.transaction_id) {
            out.push(u);
        }
        i = i + 1;
    }
    assert(rows@.subrange(0, rows@.len() as int) =~= rows@);
    out
}

/// No identifier occurs twice in the list.
pub open spec fn ids_distinct(ids: Seq<FixedHash>) -> bool {
    forall|i: int, j: int| 0 <= i < j < ids.len() ==> ids[i] != ids[j]
}

/// Every listed transaction has a pool row, and none is listed twice.
pub open spec fn all_in_pool(rows: Seq<TransactionPoolRecord>, tx_ids: Seq<FixedHash>) -> bool {
    &&& forall|i: int| 0 <= i < tx_ids.len() ==> has_id(pool_ids(rows), #[trigger] tx_ids[i])
    &&& ids_distinct(tx_ids)
}

/// Number of distinct pool rows that the identifiers of `tx_ids` match.
pub open spec fn count_found(rows: Seq<TransactionPoolRecord>, tx_ids: Seq<FixedHash>) -> nat
    decreases tx_ids.len(),
{
    if tx_ids.len() == 0 {
        0
    } else {
        count_found(rows, tx_ids.drop_last()) + if has_id(pool_ids(rows), tx_ids.last()) && !has_id(
            tx_ids.drop_last(),
            tx_ids.last(),
        ) {
            1nat
        } else {
            0nat
        }
    }
}

proof fn lemma_count_found_all(rows: Seq<TransactionPoolRecord>, tx_ids: Seq<FixedHash>)
    ensures
        count_found(rows, tx_ids) <= tx_ids.len(),
        count_found(rows, tx_ids) == tx_ids.len() <==> all_in_pool(rows, tx_ids),
    decreases tx_ids.len(),
{
    if tx_ids.len() > 0 {
        let init = tx_ids.drop_last();
        let n = tx_ids.len() - 1;
        lemma_count_found_all(rows, init);
        if count_found(rows, tx_ids) == tx_ids.len() {
            assert(all_in_pool(rows, init));
            assert(has_id(pool_ids(rows), tx_ids[n]) && !has_id(init, tx_ids[n]));
            assert forall|i: int| 0 <= i < tx_ids.len() implies has_id(pool_ids(rows), #[trigger] tx_ids[i]) by {
                if i < n {
                    assert(tx_ids[i] == init[i]);
                }
            }
            assert forall|i: int, j: int| 0 <= i < j < tx_ids.len() implies tx_ids[i] != tx_ids[j] by {
                if j < n {
                    assert(tx_ids[i] == init[i] && tx_ids[j] == init[j]);
                } else {
                    assert(tx_ids[i] == init[i]);
                }
            }
        }
        if all_in_pool(rows, tx_ids) {
            assert forall|i: int| 0 <= i < init.len() implies has_id(pool_ids(rows), #[trigger] init[i]) by {
                assert(init[i] == tx_ids[i]);
            }
            assert forall|i: int, j: int| 0 <= i < j < init.len() implies init[i] != init[j] by {
                assert(init[i] == tx_ids[i] && init[j] == tx_ids[j]);
            }
            assert(has_id(pool_ids(rows), tx_ids[n]));
            assert forall|i: int| 0 <= i < init.len() implies init[i] != tx_ids[n] by {
                assert(init[i] == tx_ids[i]);
            }
        }
    }
}

fn count_in_pool(rows: &Vec<TransactionPoolRecord>, tx_ids: &Vec<FixedHash>) -> (r: u64)
    ensures
        r == count_found(rows@, tx_ids@),
{
    let mut n: u64 = 0;
    let mut seen: Vec<FixedHash> = Vec::new();
    let mut i: usize = 0;
    while i < tx_ids.len()
        invariant
            i <= tx_ids@.len(),
            seen@ == tx_ids@.subrange(0, i as int),
            n == count_found(rows@, tx_ids@.subrange(0, i as int)),
        decreases tx_ids@.len() - i,
    {
        proof {
            assert(tx_ids@.subrange(0, i as int + 1).drop_last() =~= tx_ids@.subrange(0, i as int));
            assert(tx_ids@.subrange(0, i as int + 1).last() == tx_ids@[i as int]);
            lemma_count_found_all(rows@, tx_ids@.subrange(0, i as int));
        }
        let id = tx_ids[i];
        let found = find_pool_row(rows, &id);
        let repeated = ids_contain(&seen, &id);
        if found.is_some() && !repeated {
            n = n + 1;
        }
        seen.push(id);
        assert(tx_ids@.subrange(0, i as int + 1) =~= tx_ids@.subrange(0, i as int).push(id));
        i = i + 1;
    }
    assert(tx_ids@.subrange(0, tx_ids@.len() as int) =~= tx_ids@);
    n
}

/// The atom a pooled transaction stands for, with its current decision.
pub open spec fn local_atom(r: TransactionPoolRecord) -> TransactionAtom {
    TransactionAtom {
        id: r.transaction_id,
        decision: current_decision_spec(r),
        transaction_fee: r.transaction_fee,
        leader_fee: r.leader_fee,
    }
}

/// The atoms of the records of `tx_ids`, in pool order.
pub open spec fn removed_atoms(rows: Seq<TransactionPoolRecord>, tx_ids: Seq<FixedHash>) -> Seq<TransactionAtom>
    decreases rows.len(),
{
    if rows.len() == 0 {
        seq![]
    } else {
        let rest = removed_atoms(rows.drop_last(), tx_ids);
        if has_id(tx_ids, rows.last().transaction_id) {
            rest.push(local_atom(rows.last()))
        } else {
            rest
        }
    }
}

proof fn lemma_remaining_updates_distinct(updates: Seq<TransactionPoolStatusUpdate>, tx_ids: Seq<FixedHash>, hi: u64)
    requires
        forall|i: int, j: int|
            0 <= i < j < updates.len() ==> !(updates[i].transaction_id == updates[j].transaction_id
                && updates[i].block_id == updates[j].block_id),
    ensures
        forall|x: TransactionPoolStatusUpdate| #[trigger] remaining_updates(updates, tx_ids, hi).contains(x)
            ==> updates.contains(x),
        ({
            let r = remaining_updates(updates, tx_ids, hi);
            forall|i: int, j: int|
                0 <= i < j < r.len() ==> !(r[i].transaction_id == r[j].transaction_id && r[i].block_id
                    == r[j].block_id)
        }),
    decreases updates.len(),
{
    if updates.len() > 0 {
        let init = updates.drop_last();
        assert forall|i: int, j: int| 0 <= i < j < init.len() implies !(init[i].transaction_id
            == init[j].transaction_id && init[i].block_id == init[j].block_id) by {
            assert(init[i] == updates[i] && init[j] == updates[j]);
        }
        lemma_remaining_updates_distinct(init, tx_ids, hi);
        let rest = remaining_updates(init, tx_ids, hi);
        let last = updates.last();
        if !(has_id(tx_ids, last.transaction_id) && last.block_height <= hi) {
            let out = rest.push(last);
            assert forall|x: TransactionPoolStatusUpdate| out.contains(x) implies updates.contains(x) by {
                let k = choose|k: int| 0 <= k < out.len() && out[k] == x;
                if k == out.len() - 1 {
                    assert(updates[updates.len() - 1] == x);
                } else {
                    assert(rest[k] == x);
                    assert(rest.contains(x));
                    let m = choose|m: int| 0 <= m < init.len() && init[m] == x;
                    assert(updates[m] == x);
                }
            }
            assert forall|i: int, j: int| 0 <= i < j < out.len() implies !(out[i].transaction_id
                == out[j].transaction_id && out[i].block_id == out[j].block_id) by {
                if j == out.len() - 1 {
                    assert(rest.contains(out[i]));
                    let m = choose|m: int| 0 <= m < init.len() && init[m] == out[i];
                    assert(updates[m] == out[i]);
                    assert(out[j] == updates[updates.len() - 1]);
                } else {
                    assert(out[i] == rest[i] && out[j] == rest[j]);
                }
            }
        } else {
            assert forall|x: TransactionPoolStatusUpdate| rest.contains(x) implies updates.contains(x) by {
                let m = choose|m: int| 0 <= m < init.len() && init[m] == x;
                assert(updates[m] == x);
            }
        }
    }
}

impl StoreState {
    /// Adds a transaction to the pool at stage `New`, ready for the next proposal.
    pub fn transaction_pool_insert_new(&mut self, transaction_id: FixedHash, decision: Decision) -> (r: Result<
        (),
        StorageError,
    >)
        requires
            pool_wf(old(self).transaction_pool@, old(self).transaction_pool_state_updates@),
        ensures
            pool_wf(final(self).transaction_pool@, final(self).transaction_pool_state_updates@),
            final(self).transaction_pool_state_updates == old(self).transaction_pool_state_updates,
            has_id(pool_ids(old(self).transaction_pool@), transaction_id) ==> r == Err::<(), StorageError>(
                StorageError::QueryError { reason: QueryErrorReason::DuplicateKey },
            ) && final(self).transaction_pool == old(self).transaction_pool,
            !has_id(pool_ids(old(self).transaction_pool@), transaction_id) ==> r is Ok
                && final(self).transaction_pool@ == old(self).transaction_pool@.push(
                TransactionPoolRecord {
                    transaction_id,
                    original_decision: decision,
                    local_decision: None,
                    remote_decision: None,
                    transaction_fee: 0,
                    leader_fee: None,
                    stage: TransactionPoolStage::New,
                    pending_stage: None,
                    is_ready: true,
                },
            ),
    {
        if let Some(i) = find_pool_row(&self.transaction_pool, &transaction_id) {
            assert(pool_ids(self.transaction_pool@)[i as int] == transaction_id);
            return Err(StorageError::QueryError { reason: QueryErrorReason::DuplicateKey });
        }
        proof {
            assert forall|j: int| 0 <= j < self.transaction_pool@.len() implies self.transaction_pool@[j].transaction_id
                != transaction_id by {
                assert(pool_ids(self.transaction_pool@)[j] == self.transaction_pool@[j].transaction_id);
            }
        }
        self.transaction_pool.push(
            TransactionPoolRecord {
                transaction_id,
                original_decision: decision,
                local_decision: None,
                remote_decision: None,
                transaction_fee: 0,
                leader_fee: None,
                stage: TransactionPoolStage::New,
                pending_stage: None,
                is_ready: true,
            },
        );
        Ok(())
    }

    /// Records a pending stage move of a transaction made by a block. The move must take the
    /// transaction to the stage after the one it is headed for, or restate that stage. A second
    /// update by the same block replaces the first. The pool row takes the update's readiness and
    /// pending stage.
    pub fn transaction_pool_add_pending_update(&mut self, update: TransactionPoolStatusUpdate) -> (r: Result<
        (),
        StorageError,
    >)
        requires
            pool_wf(old(self).transaction_pool@, old(self).transaction_pool_state_updates@),
        ensures
            pool_wf(final(self).transaction_pool@, final(self).transaction_pool_state_updates@),
            !has_id(pool_ids(old(self).transaction_pool@), update.transaction_id) ==> not_found(
                r,
                "transaction",
                update.transaction_id,
            ) && *final(self) == *old(self),
            forall|i: int|
                0 <= i < old(self).transaction_pool@.len() && old(self).transaction_pool@[i].transaction_id
                    == update.transaction_id ==> ({
                    let row = old(self).transaction_pool@[i];
                    let ok = allowed_step(effective_stage(row), update.stage);
                    &&& !ok ==> r == Err::<(), StorageError>(
                        StorageError::QueryError { reason: QueryErrorReason::InvalidStageTransition },
                    ) && *final(self) == *old(self)
                    &&& ok ==> r is Ok && final(self).transaction_pool@ == old(self).transaction_pool@.update(
                        i,
                        TransactionPoolRecord {
                            pending_stage: Some(update.stage),
                            is_ready: update.is_ready,
                            ..row
                        },
                    )
                }),
            r is Ok ==> forall|k: int|
                0 <= k < old(self).transaction_pool_state_updates@.len() && same_update_key(
                    #[trigger] old(self).transaction_pool_state_updates@[k],
                    update,
                ) ==> final(self).transaction_pool_state_updates@ == old(
                    self,
                ).transaction_pool_state_updates@.update(k, update),
            r is Ok && (forall|k: int|
                0 <= k < old(self).transaction_pool_state_updates@.len() ==> !same_update_key(
                    #[trigger] old(self).transaction_pool_state_updates@[k],
                    update,
                )) ==> final(self).transaction_pool_state_updates@ == old(
                self,
            ).transaction_pool_state_updates@.push(update),
    {
        let i = match find_pool_row(&self.transaction_pool, &update.transaction_id) {
            Some(i) => i,
            None => {
                proof {
                    assert forall|x: int| 0 <= x < self.transaction_pool@.len() implies self.transaction_pool@[x].transaction_id
                        != update.transaction_id by {
                        assert(pool_ids(self.transaction_pool@)[x] == self.transaction_pool@[x].transaction_id);
                    }
                }
                return Err(StorageError::NotFound { item: "transaction", key: to_hex(&update.transaction_id) });
            },
        };
        assert(pool_ids(self.transaction_pool@)[i as int] == update.transaction_id);
        let row = self.transaction_pool[i];
        proof {
            assert forall|x: int|
                0 <= x < self.transaction_pool@.len() && self.transaction_pool@[x].transaction_id
                    == update.transaction_id implies x == i by {}
        }
        let current = row.current_stage();
        if !(current.can_transition_to(update.stage) || update.stage.rank() == current.rank() && update.stage
            == current) {
            return Err(StorageError::QueryError { reason: QueryErrorReason::InvalidStageTransition });
        }
        match find_update(&self.transaction_pool_state_updates, &update.block_id, &update.transaction_id) {
            Some(k) => {
                let ghost before = self.transaction_pool_state_updates@;
                self.transaction_pool_state_updates.set(k, update);
                proof {
                    assert(self.transaction_pool_state_updates@[k as int] == update);
                    assert forall|x: int|
                        0 <= x < before.len() && same_update_key(before[x], update) implies x == k as int by {}
                    assert forall|j: int|
                        0 <= j < before.len() && !(before[j].transaction_id == update.transaction_id
                            && before[j].block_id == update.block_id) implies self.transaction_pool_state_updates@.contains(
                        before[j],
                    ) by {
                        assert(j != k);
                        assert(self.transaction_pool_state_updates@[j] == before[j]);
                    }
                }
            },
            None => {
                let ghost before = self.transaction_pool_state_updates@;
                self.transaction_pool_state_updates.push(update);
                proof {
                    let n = before.len() as int;
                    assert(self.transaction_pool_state_updates@[n] == update);
                    assert forall|j: int|
                        0 <= j < before.len() && !(before[j].transaction_id == update.transaction_id
                            && before[j].block_id == update.block_id) implies self.transaction_pool_state_updates@.contains(
                        before[j],
                    ) by {
                        assert(self.transaction_pool_state_updates@[j] == before[j]);
                    }
                }
            },
        }
        let new_row = TransactionPoolRecord { pending_stage: Some(update.stage), is_ready: update.is_ready, ..row };
        self.transaction_pool.set(i, new_row);
        Ok(())
    }

    /// Promotes the pool once the locked block moves from `locked_block` to `new_locked_block`:
    /// each of `tx_ids` takes its latest pending update made above the old locked height and
    /// at most at the new one, and the updates of those transactions up to the new locked
    /// height are deleted. Every id must have a pool row and none may be listed twice.
    pub fn transaction_pool_set_all_transitions(
        &mut self,
        locked_block: &BlockPointer,
        new_locked_block: &BlockPointer,
        tx_ids: &Vec<FixedHash>,
    ) -> (r: Result<(), StorageError>)
        requires
            pool_wf(old(self).transaction_pool@, old(self).transaction_pool_state_updates@),
        ensures
            pool_wf(final(self).transaction_pool@, final(self).transaction_pool_state_updates@),
            all_in_pool(old(self).transaction_pool@, tx_ids@) <==> r is Ok,
            r is Err ==> *final(self) == *old(self) && r == Err::<(), StorageError>(
                StorageError::NotAllTransactionsFound {
                    operation: "transaction_pool_set_all_transitions",
                    found: count_found(old(self).transaction_pool@, tx_ids@) as u64,
                    queried: tx_ids@.len() as u64,
                },
            ),
            r is Ok ==> final(self).transaction_pool@ == old(self).transaction_pool@.map_values(
                |rec: TransactionPoolRecord|
                    promote(
                        rec,
                        old(self).transaction_pool_state_updates@,
                        tx_ids@,
                        locked_block.height,
                        new_locked_block.height,
                    ),
            ),
            r is Ok ==> final(self).transaction_pool_state_updates@ == remaining_updates(
                old(self).transaction_pool_state_updates@,
                tx_ids@,
                new_locked_block.height,
            ),
            final(self).blocks == old(self).blocks,
    {
        let found = count_in_pool(&self.transaction_pool, tx_ids);
        proof {
            lemma_count_found_all(self.transaction_pool@, tx_ids@);
        }
        if found != tx_ids.len() as u64 {
            return Err(
                StorageError::NotAllTransactionsFound {
                    operation: "transaction_pool_set_all_transitions",
                    found,
                    queried: tx_ids.len() as u64,
                },
            );
        }
        let lo = locked_block.height;
        let hi = new_locked_block.height;
        let ghost updates = self.transaction_pool_state_updates@;
        let ghost rows = self.transaction_pool@;
        let mut new_rows: Vec<TransactionPoolRecord> = Vec::new();
        let mut i: usize = 0;
        while i < self.transaction_pool.len()
            invariant
                i <= rows.len(),
                self.transaction_pool@ == rows,
                self.transaction_pool_state_updates@ == updates,
                new_rows@ == rows.subrange(0, i as int).map_values(
                    |rec: TransactionPoolRecord| promote(rec, updates, tx_ids@, lo, hi),
                ),
            decreases rows.len() - i,
        {
            let rec = self.transaction_pool[i];
            let mut next = rec;
            if ids_contain(tx_ids, &rec.transaction_id) {
                match find_latest_update(&self.transaction_pool_state_updates, &rec.transaction_id, lo, hi) {
                    Some(u) => if u.stage.rank() >= rec.stage.rank() {
                        let pending = match rec.pending_stage {
                            Some(p) => if p.rank() < u.stage.rank() {
                                Some(u.stage)
                            } else {
                                Some(p)
                            },
                            None => None,
                        };
                        next = TransactionPoolRecord {
                            stage: u.stage,
                            local_decision: Some(u.local_decision),
                            is_ready: u.is_ready,
                            pending_stage: pending,
                            ..rec
                        };
                    },
                    None => {},
                }
            }
            new_rows.push(next);
            proof {
                assert(rows.subrange(0, i as int + 1) =~= rows.subrange(0, i as int).push(rec));
                assert(new_rows@ =~= rows.subrange(0, i as int + 1).map_values(
                    |rec: TransactionPoolRecord| promote(rec, updates, tx_ids@, lo, hi),
                ));
            }
            i = i + 1;
        }
        assert(rows.subrange(0, rows.len() as int) =~= rows);
        let kept = keep_remaining_updates(&self.transaction_pool_state_updates, tx_ids, hi);
        proof {
            lemma_remaining_updates_distinct(updates, tx_ids@, hi);
            let nr = new_rows@;
            assert forall|x: int| 0 <= x < nr.len() implies nr[x] == promote(rows[x], updates, tx_ids@, lo, hi)
                && nr[x].transaction_id == rows[x].transaction_id by {}
            assert forall|a: int, b: int| 0 <= a < b < nr.len() implies nr[a].transaction_id
                != nr[b].transaction_id by {
                assert(nr[a].transaction_id == rows[a].transaction_id);
                assert(nr[b].transaction_id == rows[b].transaction_id);
            }
            assert forall|x: int| 0 <= x < nr.len() implies stage_rank(#[trigger] nr[x].stage) <= stage_rank(
                effective_stage(nr[x]),
            ) by {
                assert(stage_rank(rows[x].stage) <= stage_rank(effective_stage(rows[x])));
            }
        }
        self.transaction_pool = new_rows;
        self.transaction_pool_state_updates = kept;
        Ok(())
    }

    /// Sets a transaction's local and remote decisions; `None` leaves one as it is.
    pub fn transaction_pool_update(
        &mut self,
        transaction_id: &FixedHash,
        local_decision: Option<Decision>,
        remote_decision: Option<Decision>,
    ) -> (r: Result<(), StorageError>)
        requires
            pool_wf(old(self).transaction_pool@, old(self).transaction_pool_state_updates@),
        ensures
            pool_wf(final(self).transaction_pool@, final(self).transaction_pool_state_updates@),
            final(self).transaction_pool_state_updates == old(self).transaction_pool_state_updates,
            !has_id(pool_ids(old(self).transaction_pool@), *transaction_id) ==> not_found(
                r,
                "transaction",
                *transaction_id,
            ) && *final(self) == *old(self),
            forall|i: int|
                0 <= i < old(self).transaction_pool@.len() && old(self).transaction_pool@[i].transaction_id
                    == *transaction_id ==> r is Ok && final(self).transaction_pool@ == old(
                    self,
                ).transaction_pool@.update(
                    i,
                    TransactionPoolRecord {
                        local_decision: if local_decision is Some {
                            local_decision
                        } else {
                            old(self).transaction_pool@[i].local_decision
                        },
                        remote_decision: if remote_decision is Some {
                            remote_decision
                        } else {
                            old(self).transaction_pool@[i].remote_decision
                        },
                        ..old(self).transaction_pool@[i]
                    },
                ),
    {
        let i = match find_pool_row(&self.transaction_pool, transaction_id) {
            Some(i) => i,
            None => {
                return Err(StorageError::NotFound { item: "transaction", key: to_hex(transaction_id) });
            },
        };
        proof {
            assert forall|x: int|
                0 <= x < self.transaction_pool@.len() && self.transaction_pool@[x].transaction_id
                    == *transaction_id implies x == i by {}
        }
        let row = self.transaction_pool[i];
        let new_row = TransactionPoolRecord {
            local_decision: if local_decision.is_some() {
                local_decision
            } else {
                row.local_decision
            },
            remote_decision: if remote_decision.is_some() {
                remote_decision
            } else {
                row.remote_decision
            },
            ..row
        };
        self.transaction_pool.set(i, new_row);
        Ok(())
    }

    /// Sets the decision and fees a block's atom carries for a pooled transaction.
    pub fn transaction_pool_set_atom(&mut self, transaction: TransactionAtom) -> (r: Result<(), StorageError>)
        requires
            pool_wf(old(self).transaction_pool@, old(self).transaction_pool_state_updates@),
        ensures
            pool_wf(final(self).transaction_pool@, final(self).transaction_pool_state_updates@),
            final(self).transaction_pool_state_updates == old(self).transaction_pool_state_updates,
            !has_id(pool_ids(old(self).transaction_pool@), transaction.id) ==> not_found(
                r,
                "transaction",
                transaction.id,
            ) && *final(self) == *old(self),
            forall|i: int|
                0 <= i < old(self).transaction_pool@.len() && old(self).transaction_pool@[i].transaction_id
                    == transaction.id ==> r is Ok && final(self).transaction_pool@ == old(
                    self,
                ).transaction_pool@.update(
                    i,
                    TransactionPoolRecord {
                        original_decision: transaction.decision,
                        transaction_fee: transaction.transaction_fee,
                        leader_fee: transaction.leader_fee,
                        ..old(self).transaction_pool@[i]
                    },
                ),
    {
        let i = match find_pool_row(&self.transaction_pool, &transaction.id) {
            Some(i) => i,
            None => {
                return Err(StorageError::NotFound { item: "transaction", key: to_hex(&transaction.id) });
            },
        };
        proof {
            assert forall|x: int|
                0 <= x < self.transaction_pool@.len() && self.transaction_pool@[x].transaction_id
                    == transaction.id implies x == i by {}
        }
        let row = self.transaction_pool[i];
        let new_row = TransactionPoolRecord {
            original_decision: transaction.decision,
            transaction_fee: transaction.transaction_fee,
            leader_fee: transaction.leader_fee,
            ..row
        };
        self.transaction_pool.set(i, new_row);
        Ok(())
    }

    /// Removes a transaction from the pool, with its pending updates.
    pub fn transaction_pool_remove(&mut self, transaction_id: &FixedHash) -> (r: Result<(), StorageError>)
        requires
            pool_wf(old(self).transaction_pool@, old(self).transaction_pool_state_updates@),
        ensures
            !has_id(pool_ids(old(self).transaction_pool@), *transaction_id) ==> not_found(
                r,
                "transaction",
                *transaction_id,
            ) && *final(self) == *old(self),
            has_id(pool_ids(old(self).transaction_pool@), *transaction_id) ==> r is Ok
                && final(self).transaction_pool@ == records_without(
                old(self).transaction_pool@,
                seq![*transaction_id],
            ) && final(self).transaction_pool_state_updates@ == updates_without(
                old(self).transaction_pool_state_updates@,
                seq![*transaction_id],
            ),
    {
        let ids = vec![*transaction_id];
        match find_pool_row(&self.transaction_pool, transaction_id) {
            None => {
                return Err(StorageError::NotFound { item: "transaction", key: to_hex(transaction_id) });
            },
            Some(_) => {},
        }
        let rows = keep_records_without(&self.transaction_pool, &ids);
        let updates = keep_updates_without(&self.transaction_pool_state_updates, &ids);
        assert(ids@ =~= seq![*transaction_id]);
        self.transaction_pool = rows;
        self.transaction_pool_state_updates = updates;
        Ok(())
    }

    /// Removes transactions from the pool, with their pending updates, and returns their atoms
    /// in pool order. Every id must have a pool row and none may be listed twice.
    pub fn transaction_pool_remove_all(&mut self, transaction_ids: &Vec<FixedHash>) -> (r: Result<
        Vec<TransactionAtom>,
        StorageError,
    >)
        requires
            pool_wf(old(self).transaction_pool@, old(self).transaction_pool_state_updates@),
        ensures
            all_in_pool(old(self).transaction_pool@, transaction_ids@) <==> r is Ok,
            r is Err ==> *final(self) == *old(self) && r == Err::<Vec<TransactionAtom>, StorageError>(
                StorageError::NotAllTransactionsFound {
                    operation: "transaction_pool_remove_all",
                    found: count_found(old(self).transaction_pool@, transaction_ids@) as u64,
                    queried: transaction_ids@.len() as u64,
                },
            ),
            r matches Ok(atoms) ==> atoms@ == removed_atoms(old(self).transaction_pool@, transaction_ids@)
                && final(self).transaction_pool@ == records_without(old(self).transaction_pool@, transaction_ids@)
                && final(self).transaction_pool_state_updates@ == updates_without(
                old(self).transaction_pool_state_updates@,
                transaction_ids@,
            ),
    {
        let found = count_in_pool(&self.transaction_pool, transaction_ids);
        proof {
            lemma_count_found_all(self.transaction_pool@, transaction_ids@);
        }
        if found != transaction_ids.len() as u64 {
            return Err(
                StorageError::NotAllTransactionsFound {
                    operation: "transaction_pool_remove_all",
                    found,
                    queried: transaction_ids.len() as u64,
                },
            );
        }
        let mut atoms: Vec<TransactionAtom> = Vec::new();
        let mut i: usize = 0;
        while i < self.transaction_pool.len()
            invariant
                i <= self.transaction_pool@.len(),
                atoms@ == removed_atoms(self.transaction_pool@.subrange(0, i as int), transaction_ids@),
            decreases self.transaction_pool@.len() - i,
        {
            let rec = self.transaction_pool[i];
            proof {
                assert(self.transaction_pool@.subrange(0, i as int + 1).drop_last() =~= self.transaction_pool@.subrange(
                    0,
                    i as int,
                ));
            }
            if ids_contain(transaction_ids, &rec.transaction_id) {
                atoms.push(
                    TransactionAtom {
                        id: rec.transaction_id,
                        decision: rec.current_decision(),
                        transaction_fee: rec.transaction_fee,
                        leader_fee: rec.leader_fee,
                    },
                );
            }
            i = i + 1;
        }
        assert(self.transaction_pool@.subrange(0, self.transaction_pool@.len() as int) =~= self.transaction_pool@);
        let rows = keep_records_without(&self.transaction_pool, transaction_ids);
        let updates = keep_updates_without(&self.transaction_pool_state_updates, transaction_ids);
        self.transaction_pool = rows;
        self.transaction_pool_state_updates = updates;
        Ok(atoms)
    }
}

} // verus!
