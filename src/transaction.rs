use vstd::prelude::*;

use crate::hash::{hash_eq, to_hex, FixedHash};
use crate::model::{Decision, TransactionAtom};
use crate::store::{not_found, QueryErrorReason, StorageError, StoreState};
use crate::substate::SubstateLockType;

verus! {

/// A substate at a version.
#[derive(Clone, Copy, Debug, PartialEq, Eq)]
pub struct VersionedSubstateId {
    pub substate_id: FixedHash,
    pub version: u32,
}

/// An input of a transaction and how the transaction means to lock it.
#[derive(Clone, Copy, Debug)]
pub struct VersionedSubstateIdLockIntent {
    pub id: VersionedSubstateId,
    pub lock_type: SubstateLockType,
}

/// A transaction with what executing and deciding it produced.
#[derive(Debug)]
pub struct TransactionRecord {
    pub id: FixedHash,
    /// The decision the execution result stands for, once executed.
    pub execution_decision: Option<Decision>,
    pub execution_time_ms: Option<u64>,
    pub resulting_outputs: Vec<VersionedSubstateId>,
    pub resolved_inputs: Option<Vec<VersionedSubstateIdLockIntent>>,
    pub final_decision: Option<Decision>,
    pub finalized_time_ms: Option<u64>,
    pub abort_details: Option<String>,
}

/// The decision a record stands for: the final one, else abort once abort details are set,
/// else what execution decided, else commit.
pub open spec fn current_decision_of(r: TransactionRecord) -> Decision {
    if r.final_decision is Some {
        r.final_decision->Some_0
    } else if r.abort_details is Some {
        Decision::Abort
    } else if r.execution_decision is Some {
        r.execution_decision->Some_0
    } else {
        Decision::Commit
    }
}

impl TransactionRecord {
    /// A record of a transaction that has not been executed or decided.
    pub fn new(id: FixedHash) -> (r: TransactionRecord)
        ensures
            r.id == id,
            r.execution_decision is None,
            r.execution_time_ms is None,
            r.resulting_outputs@.len() == 0,
            r.resolved_inputs is None,
            r.final_decision is None,
            r.finalized_time_ms is None,
            r.abort_details is None,
    {
        TransactionRecord {
            id,
            execution_decision: None,
            execution_time_ms: None,
            resulting_outputs: Vec::new(),
            resolved_inputs: None,
            final_decision: None,
            finalized_time_ms: None,
            abort_details: None,
        }
    }

    pub fn id(&self) -> (r: &FixedHash)
        ensures
            *r == self.id,
    {
        &self.id
    }

    pub fn has_executed(&self) -> (r: bool)
        ensures
            r == self.execution_decision is Some,
    {
        self.execution_decision.is_some()
    }

    pub fn is_executed(&self) -> (r: bool)
        ensures
            r == self.execution_decision is Some,
    {
        self.execution_decision.is_some()
    }

    pub fn is_finalized(&self) -> (r: bool)
        ensures
            r == self.final_decision is Some,
    {
        self.final_decision.is_some()
    }

    pub fn final_decision(&self) -> (r: Option<Decision>)
        ensures
            r == self.final_decision,
    {
        self.final_decision
    }

    pub fn execution_decision(&self) -> (r: Option<Decision>)
        ensures
            r == self.execution_decision,
    {
        self.execution_decision
    }

    /// The decision this node stands for now.
    pub fn current_decision(&self) -> (r: Decision)
        ensures
            r == current_decision_of(*self),
    {
        if let Some(d) = self.final_decision {
            return d;
        }
        if self.abort_details.is_some() {
            return Decision::Abort;
        }
        match self.execution_decision {
            Some(d) => d,
            None => Decision::Commit,
        }
    }

    /// Decides to abort, with the reason.
    pub fn set_abort(&mut self, details: String)
        ensures
            final(self).final_decision == Some(Decision::Abort),
            final(self).abort_details == Some(details),
            final(self).id == old(self).id,
            final(self).execution_decision == old(self).execution_decision,
    {
        self.final_decision = Some(Decision::Abort);
        self.abort_details = Some(details);
    }

    /// Leans towards aborting, with the reason, without deciding yet.
    pub fn set_current_decision_to_abort(&mut self, details: String)
        ensures
            final(self).abort_details == Some(details),
            final(self).final_decision == old(self).final_decision,
            final(self).id == old(self).id,
            final(self).execution_decision == old(self).execution_decision,
    {
        self.abort_details = Some(details);
    }
}

/// The execution of a transaction for one block.
#[derive(Debug)]
pub struct TransactionExecution {
    pub block_id: FixedHash,
    pub transaction_id: FixedHash,
    pub decision: Decision,
    pub resolved_inputs: Vec<VersionedSubstateIdLockIntent>,
    pub resulting_outputs: Vec<VersionedSubstateId>,
    pub execution_time_ms: u64,
}

/// A stored transaction has this id.
pub open spec fn has_transaction(rows: Seq<TransactionRecord>, id: FixedHash) -> bool {
    exists|i: int| 0 <= i < rows.len() && rows[i].id == id
}

/// An execution of `tx` for `block` is stored.
pub open spec fn has_execution(execs: Seq<TransactionExecution>, tx: FixedHash, block: FixedHash) -> bool {
    exists|i: int| 0 <= i < execs.len() && execs[i].transaction_id == tx && execs[i].block_id == block
}

/// `rec` as an update stores it: finalized at `now_ms` exactly when it has a final decision.
pub open spec fn with_finalized_time(rec: TransactionRecord, now_ms: u64) -> TransactionRecord {
    TransactionRecord {
        finalized_time_ms: if rec.final_decision is Some {
            Some(now_ms)
        } else {
            None
        },
        ..rec
    }
}

/// The rows after saving `txs` one by one: a record whose id is stored already is skipped,
/// any other is appended.
pub open spec fn saved_rows(rows: Seq<TransactionRecord>, txs: Seq<TransactionRecord>) -> Seq<TransactionRecord>
    decreases txs.len(),
{
    if txs.len() == 0 {
        rows
    } else if has_transaction(rows, txs[0].id) {
        saved_rows(rows, txs.subrange(1, txs.len() as int))
    } else {
        saved_rows(rows.push(txs[0]), txs.subrange(1, txs.len() as int))
    }
}

/// One row per transaction, one execution per transaction and block.
pub open spec fn transactions_wf(rows: Seq<TransactionRecord>, execs: Seq<TransactionExecution>) -> bool {
    &&& forall|i: int, j: int| 0 <= i < j < rows.len() ==> rows[i].id != rows[j].id
    &&& forall|i: int, j: int|
        0 <= i < j < execs.len() ==> !(execs[i].transaction_id == execs[j].transaction_id
            && execs[i].block_id == execs[j].block_id)
}

fn find_transaction(rows: &Vec<TransactionRecord>, id: &FixedHash) -> (r: Option<usize>)
    ensures
        r matches Some(i) ==> i < rows@.len() && rows@[i as int].id == *id,
        r is Some ==> has_transaction(rows@, *id),
        r is None ==> !has_transaction(rows@, *id),
{
    let mut i: usize = 0;
    while i < rows.len()
        invariant
            i <= rows@.len(),
            forall|j: int| 0 <= j < i ==> rows@[j].id != *id,
        decreases rows@.len() - i,
    {
        if hash_eq(&rows[i].id, id) {
            assert(rows@[i as int].id =~= *id);
            return Some(i);
        }
        i = i + 1;
    }
    None
}

fn find_execution(execs: &Vec<TransactionExecution>, tx: &FixedHash, block: &FixedHash) -> (r: Option<usize>)
    ensures
        r matches Some(i) ==> i < execs@.len() && execs@[i as int].transaction_id == *tx
            && execs@[i as int].block_id == *block,
        r is Some ==> has_execution(execs@, *tx, *block),
        r is None ==> !has_execution(execs@, *tx, *block),
{
    let mut i: usize = 0;
    while i < execs.len()
        invariant
            i <= execs@.len(),
            forall|j: int| 0 <= j < i ==> !(execs@[j].transaction_id == *tx && execs@[j].block_id == *block),
        decreases execs@.len() - i,
    {
        if hash_eq(&execs[i].transaction_id, tx) && hash_eq(&execs[i].block_id, block) {
            assert(execs@[i as int].transaction_id =~= *tx);
            assert(execs@[i as int].block_id =~= *block);
            return Some(i);
        }
        i = i + 1;
    }
    None
}

fn copy_items<T: Copy>(v: &Vec<T>) -> (r: Vec<T>)
    ensures
        r@ == v@,
{
    let mut out: Vec<T> = Vec::new();
    let mut i: usize = 0;
    while i < v.len()
        invariant
            i <= v@.len(),
            out@ == v@.subrange(0, i as int),
        decreases v@.len() - i,
    {
        out.push(v[i]);
        assert(v@.subrange(0, i as int + 1) =~= v@.subrange(0, i as int).push(v@[i as int]));
        i = i + 1;
    }
    assert(v@.subrange(0, v@.len() as int) =~= v@);
    out
}

/// Every atom has an execution for the block.
pub open spec fn all_executed(execs: Seq<TransactionExecution>, atoms: Seq<TransactionAtom>, block: FixedHash) -> bool {
    forall|i: int| 0 <= i < atoms.len() ==> has_execution(execs, #[trigger] atoms[i].id, block)
}

/// The last atom of `tx` in a block's list, if any.
pub open spec fn last_atom(atoms: Seq<TransactionAtom>, tx: FixedHash) -> Option<TransactionAtom>
    decreases atoms.len(),
{
    if atoms.len() == 0 {
        None
    } else if atoms.last().id == tx {
        Some(atoms.last())
    } else {
        last_atom(atoms.drop_last(), tx)
    }
}

/// The stored execution of `tx` for `block`.
pub open spec fn exec_for(execs: Seq<TransactionExecution>, tx: FixedHash, block: FixedHash) -> TransactionExecution {
    execs[choose|e: int| 0 <= e < execs.len() && execs[e].transaction_id == tx && execs[e].block_id == block]
}

/// `n` is `old` finalized at `now_ms` by `atom` with its execution for `block`, or `old`
/// unchanged when there is no atom for it.
pub open spec fn finalized_as(
    n: TransactionRecord,
    old: TransactionRecord,
    atom: Option<TransactionAtom>,
    execs: Seq<TransactionExecution>,
    block: FixedHash,
    now_ms: u64,
) -> bool {
    match atom {
        None => n == old,
        Some(a) => {
            let x = exec_for(execs, old.id, block);
            &&& n.id == old.id
            &&& n.abort_details == old.abort_details
            &&& n.final_decision == Some(a.decision)
            &&& n.finalized_time_ms == Some(now_ms)
            &&& n.execution_decision == Some(x.decision)
            &&& n.execution_time_ms == Some(x.execution_time_ms)
            &&& n.resulting_outputs@ == x.resulting_outputs@
            &&& n.resolved_inputs matches Some(ri) && ri@ == x.resolved_inputs@
        },
    }
}

impl StoreState {
    /// Whether a transaction is stored.
    pub fn transactions_exists(&self, id: &FixedHash) -> (r: bool)
        ensures
            r == has_transaction(self.transactions@, *id),
    {
        find_transaction(&self.transactions, id).is_some()
    }

    /// Stores a transaction. An id that is already stored is refused.
    pub fn transactions_insert(&mut self, tx_rec: TransactionRecord) -> (r: Result<(), StorageError>)
        requires
            transactions_wf(old(self).transactions@, old(self).transaction_executions@),
        ensures
            transactions_wf(final(self).transactions@, final(self).transaction_executions@),
            final(self).transaction_executions == old(self).transaction_executions,
            has_transaction(old(self).transactions@, tx_rec.id) ==> r == Err::<(), StorageError>(
                StorageError::QueryError { reason: QueryErrorReason::DuplicateKey },
            ) && final(self).transactions == old(self).transactions,
            !has_transaction(old(self).transactions@, tx_rec.id) ==> r is Ok && final(self).transactions@
                == old(self).transactions@.push(tx_rec),
    {
        if find_transaction(&self.transactions, &tx_rec.id).is_some() {
            return Err(StorageError::QueryError { reason: QueryErrorReason::DuplicateKey });
        }
        self.transactions.push(tx_rec);
        Ok(())
    }

    /// Stores each transaction that is not stored yet, in order; others are left as they are.
    /// The stored records are the old ones followed by the new records, in order.
    pub fn transactions_save_all(&mut self, txs: Vec<TransactionRecord>)
        requires
            transactions_wf(old(self).transactions@, old(self).transaction_executions@),
        ensures
            transactions_wf(final(self).transactions@, final(self).transaction_executions@),
            final(self).transaction_executions == old(self).transaction_executions,
            final(self).transactions@.subrange(0, old(self).transactions@.len() as int) == old(
                self,
            ).transactions@,
            forall|i: int| 0 <= i < txs@.len() ==> has_transaction(final(self).transactions@, #[trigger] txs@[i].id),
            final(self).transactions@ == saved_rows(old(self).transactions@, txs@),
    {
        let ghost orig = txs@;
        let ghost start = self.transactions@;
        let mut txs = txs;
        let ghost mut taken: int = 0;
        while txs.len() > 0
            invariant
                transactions_wf(self.transactions@, self.transaction_executions@),
                self.transaction_executions == old(self).transaction_executions,
                self.transactions@.subrange(0, start.len() as int) == start,
                0 <= taken <= orig.len(),
                txs@ == orig.subrange(taken, orig.len() as int),
                forall|i: int| 0 <= i < taken ==> has_transaction(self.transactions@, #[trigger] orig[i].id),
                start.len() <= self.transactions@.len(),
                saved_rows(start, orig) == saved_rows(self.transactions@, txs@),
                start == old(self).transactions@,
            decreases txs@.len(),
        {
            let ghost before = self.transactions@;
            let ghost rest = txs@;
            let rec = txs.remove(0);
            assert(rec == orig[taken]);
            assert(rec == rest[0]);
            assert(txs@ =~= rest.subrange(1, rest.len() as int));
            let _ = self.transactions_insert(rec);
            proof {
                assert(self.transactions@.subrange(0, start.len() as int) =~= before.subrange(0, start.len() as int));
                assert forall|i: int| 0 <= i <= taken implies has_transaction(self.transactions@, #[trigger] orig[i].id) by {
                    if i < taken {
                        assert(has_transaction(before, orig[i].id));
                        let w = choose|w: int| 0 <= w < before.len() && before[w].id == orig[i].id;
                        assert(self.transactions@[w] == before[w]);
                    } else if !has_transaction(before, orig[i].id) {
                        assert(self.transactions@[before.len() as int] == orig[i]);
                    } else {
                        let w = choose|w: int| 0 <= w < before.len() && before[w].id == orig[i].id;
                        assert(self.transactions@[w] == before[w]);
                    }
                }
                taken = taken + 1;
                assert(txs@ =~= orig.subrange(taken, orig.len() as int));
            }
        }
    }

    /// Replaces a stored transaction's record with `transaction_rec`, which has the same id. The
    /// row's finalization time is `now_ms` when the record carries a final decision, and is
    /// cleared when it carries none.
    pub fn transactions_update(&mut self, transaction_rec: TransactionRecord, now_ms: u64) -> (r: Result<
        (),
        StorageError,
    >)
        requires
            transactions_wf(old(self).transactions@, old(self).transaction_executions@),
        ensures
            transactions_wf(final(self).transactions@, final(self).transaction_executions@),
            final(self).transaction_executions == old(self).transaction_executions,
            !has_transaction(old(self).transactions@, transaction_rec.id) ==> not_found(
                r,
                "transaction",
                transaction_rec.id,
            ) && final(self).transactions == old(self).transactions,
            forall|i: int|
                0 <= i < old(self).transactions@.len() && old(self).transactions@[i].id == transaction_rec.id
                    ==> r is Ok && final(self).transactions@ == old(self).transactions@.update(
                    i,
                    with_finalized_time(transaction_rec, now_ms),
                ),
    {
        let mut transaction_rec = transaction_rec;
        transaction_rec.finalized_time_ms = if transaction_rec.final_decision.is_some() {
            Some(now_ms)
        } else {
            None
        };
        let i = match find_transaction(&self.transactions, &transaction_rec.id) {
            Some(i) => i,
            None => {
                return Err(StorageError::NotFound { item: "transaction", key: to_hex(&transaction_rec.id) });
            },
        };
        proof {
            assert forall|x: int|
                0 <= x < self.transactions@.len() && self.transactions@[x].id == transaction_rec.id implies x
                == i by {}
        }
        let ghost rows = self.transactions@;
        self.transactions.remove(i);
        self.transactions.insert(i, transaction_rec);
        proof {
            assert(self.transactions@ =~= rows.update(i as int, transaction_rec));
            assert forall|a: int, b: int| 0 <= a < b < self.transactions@.len() implies self.transactions@[a].id
                != self.transactions@[b].id by {
                assert(self.transactions@[a].id == rows[a].id);
                assert(self.transactions@[b].id == rows[b].id);
            }
        }
        Ok(())
    }

    /// Stores the execution of a transaction for a block, unless one is already stored.
    pub fn transaction_executions_insert_or_ignore(&mut self, execution: TransactionExecution) -> (r: bool)
        requires
            transactions_wf(old(self).transactions@, old(self).transaction_executions@),
        ensures
            transactions_wf(final(self).transactions@, final(self).transaction_executions@),
            final(self).transactions == old(self).transactions,
            r == !has_execution(old(self).transaction_executions@, execution.transaction_id, execution.block_id),
            r ==> final(self).transaction_executions@ == old(self).transaction_executions@.push(execution),
            !r ==> final(self).transaction_executions == old(self).transaction_executions,
    {
        if find_execution(&self.transaction_executions, &execution.transaction_id, &execution.block_id).is_some() {
            return false;
        }
        self.transaction_executions.push(execution);
        true
    }

    /// Finalizes the transactions a committed block decided, at time `now_ms`: each stored one
    /// takes the resolved inputs, outputs, decision and time of its execution for the block, the
    /// decision of its (last) atom as its final one, and `now_ms` as its finalization time.
    /// Every atom must have an execution for the block; otherwise nothing changes.
    pub fn transactions_finalize_all(
        &mut self,
        block_id: &FixedHash,
        transactions: &Vec<TransactionAtom>,
        now_ms: u64,
    ) -> (r:
        Result<(), StorageError>)
        requires
            transactions_wf(old(self).transactions@, old(self).transaction_executions@),
        ensures
            transactions_wf(final(self).transactions@, final(self).transaction_executions@),
            final(self).transaction_executions == old(self).transaction_executions,
            r is Ok <==> all_executed(old(self).transaction_executions@, transactions@, *block_id),
            r is Err ==> final(self).transactions == old(self).transactions,
            r is Ok ==> final(self).transactions@.len() == old(self).transactions@.len(),
            r is Ok ==> forall|i: int|
                0 <= i < old(self).transactions@.len() ==> finalized_as(
                    #[trigger] final(self).transactions@[i],
                    old(self).transactions@[i],
                    last_atom(transactions@, old(self).transactions@[i].id),
                    old(self).transaction_executions@,
                    *block_id,
                    now_ms,
                ),
    {
        let mut k: usize = 0;
        while k < transactions.len()
            invariant
                k <= transactions@.len(),
                self.transactions == old(self).transactions,
                self.transaction_executions == old(self).transaction_executions,
                transactions_wf(self.transactions@, self.transaction_executions@),
                forall|j: int|
                    0 <= j < k ==> has_execution(
                        self.transaction_executions@,
                        #[trigger] transactions@[j].id,
                        *block_id,
                    ),
            decreases transactions@.len() - k,
        {
            if find_execution(&self.transaction_executions, &transactions[k].id, block_id).is_none() {
                return Err(StorageError::NotFound { item: "transaction_execution", key: to_hex(&transactions[k].id) });
            }
            k = k + 1;
        }
        let ghost rows0 = self.transactions@;
        let ghost execs = self.transaction_executions@;
        let mut j: usize = 0;
        while j < transactions.len()
            invariant
                j <= transactions@.len(),
                transactions_wf(self.transactions@, self.transaction_executions@),
                self.transaction_executions@ == execs,
                self.transaction_executions == old(self).transaction_executions,
                execs == old(self).transaction_executions@,
                rows0 == old(self).transactions@,
                all_executed(execs, transactions@, *block_id),
                self.transactions@.len() == rows0.len(),
                forall|i: int|
                    0 <= i < rows0.len() ==> finalized_as(
                        #[trigger] self.transactions@[i],
                        rows0[i],
                        last_atom(transactions@.subrange(0, j as int), rows0[i].id),
                        execs,
                        *block_id,
                        now_ms,
                    ),
            decreases transactions@.len() - j,
        {
            let atom = transactions[j];
            proof {
                assert(transactions@.subrange(0, j as int + 1).drop_last() =~= transactions@.subrange(0, j as int));
                assert(has_execution(execs, transactions@[j as int].id, *block_id));
            }
            let e = match find_execution(&self.transaction_executions, &atom.id, block_id) {
                Some(e) => e,
                None => {
                    return Ok(());
                },
            };
            proof {
                let c = choose|x: int|
                    0 <= x < execs.len() && execs[x].transaction_id == atom.id && execs[x].block_id == *block_id;
                if c != e as int {
                    assert(execs[c].transaction_id == execs[e as int].transaction_id);
                }
                assert(exec_for(execs, atom.id, *block_id) == execs[e as int]);
            }
            match find_transaction(&self.transactions, &atom.id) {
                Some(i) => {
                    let ghost rows = self.transactions@;
                    let exec = &self.transaction_executions[e];
                    let resolved = copy_items(&exec.resolved_inputs);
                    let outputs = copy_items(&exec.resulting_outputs);
                    let decision = exec.decision;
                    let time = exec.execution_time_ms;
                    let mut rec = self.transactions.remove(i);
                    rec.resolved_inputs = Some(resolved);
                    rec.resulting_outputs = outputs;
                    rec.execution_decision = Some(decision);
                    rec.execution_time_ms = Some(time);
                    rec.final_decision = Some(atom.decision);
                    rec.finalized_time_ms = Some(now_ms);
                    self.transactions.insert(i, rec);
                    proof {
                        let nr = self.transactions@;
                        assert forall|x: int| 0 <= x < nr.len() && x != i implies nr[x] == rows[x] by {}
                        assert forall|a: int, b: int| 0 <= a < b < nr.len() implies nr[a].id != nr[b].id by {
                            assert(nr[a].id == rows[a].id);
                            assert(nr[b].id == rows[b].id);
                        }
                        assert forall|x: int| 0 <= x < rows0.len() implies finalized_as(
                            #[trigger] nr[x],
                            rows0[x],
                            last_atom(transactions@.subrange(0, j as int + 1), rows0[x].id),
                            execs,
                            *block_id,
                            now_ms,
                        ) by {
                            if x == i as int {
                            } else {
                                assert(nr[x] == rows[x]);
                                assert(rows0[x].id != atom.id) by {
                                    assert(rows[x].id == rows0[x].id);
                                    assert(rows[i as int].id == atom.id);
                                }
                            }
                        }
                    }
                },
                None => {
                    proof {
                        assert forall|x: int| 0 <= x < rows0.len() implies finalized_as(
                            #[trigger] self.transactions@[x],
                            rows0[x],
                            last_atom(transactions@.subrange(0, j as int + 1), rows0[x].id),
                            execs,
                            *block_id,
                            now_ms,
                        ) by {
                            assert(self.transactions@[x].id == rows0[x].id);
                        }
                    }
                },
            }
            j = j + 1;
        }
        assert(transactions@.subrange(0, transactions@.len() as int) =~= transactions@);
        Ok(())
    }
}

impl TransactionRecord {
    /// Whether any of the transactions is stored.
    pub fn exists_any(tx: &StoreState, tx_ids: &Vec<FixedHash>) -> (r: bool)
        ensures
            r == exists|i: int| 0 <= i < tx_ids@.len() && has_transaction(tx.transactions@, #[trigger] tx_ids@[i]),
    {
        let mut i: usize = 0;
        while i < tx_ids.len()
            invariant
                i <= tx_ids@.len(),
                forall|j: int| 0 <= j < i ==> !has_transaction(tx.transactions@, #[trigger] tx_ids@[j]),
            decreases tx_ids@.len() - i,
        {
            if tx.transactions_exists(&tx_ids[i]) {
                return true;
            }
            i = i + 1;
        }
        false
    }

    /// The transactions that are not stored, each once, in the order first asked for.
    pub fn get_missing(tx: &StoreState, tx_ids: &Vec<FixedHash>) -> (r: Vec<FixedHash>)
        ensures
            forall|i: int| 0 <= i < tx_ids@.len() && !has_transaction(tx.transactions@, #[trigger] tx_ids@[i])
                ==> r@.contains(tx_ids@[i]),
            forall|k: int| 0 <= k < r@.len() ==> !has_transaction(tx.transactions@, #[trigger] r@[k]) && tx_ids@.contains(r@[k]),
            forall|a: int, b: int| 0 <= a < b < r@.len() ==> r@[a] != r@[b],
    {
        let mut out: Vec<FixedHash> = Vec::new();
        let mut i: usize = 0;
        while i < tx_ids.len()
            invariant
                i <= tx_ids@.len(),
                forall|j: int| 0 <= j < i && !has_transaction(tx.transactions@, #[trigger] tx_ids@[j]) ==> out@.contains(tx_ids@[j]),
                forall|k: int| 0 <= k < out@.len() ==> !has_transaction(tx.transactions@, #[trigger] out@[k]) && tx_ids@.contains(out@[k]),
                forall|a: int, b: int| 0 <= a < b < out@.len() ==> out@[a] != out@[b],
            decreases tx_ids@.len() - i,
        {
            let id = tx_ids[i];
            if !tx.transactions_exists(&id) && !crate::store::ids_contain(&out, &id) {
                let ghost before = out@;
                out.push(id);
                proof {
                    assert(tx_ids@[i as int] == id);
                    assert forall|j: int| 0 <= j <= i && !has_transaction(tx.transactions@, #[trigger] tx_ids@[j]) implies out@.contains(tx_ids@[j]) by {
                        if j < i {
                            let w = choose|w: int| 0 <= w < before.len() && before[w] == tx_ids@[j];
                            assert(out@[w] == before[w]);
                        } else {
                            assert(out@[before.len() as int] == id);
                        }
                    }
                    assert forall|k: int| 0 <= k < out@.len() implies !has_transaction(tx.transactions@, #[trigger] out@[k]) && tx_ids@.contains(out@[k]) by {
                        if k < before.len() {
                            assert(out@[k] == before[k]);
                        } else {
                            assert(out@[k] == tx_ids@[i as int]);
                        }
                    }
                    assert forall|a: int, b: int| 0 <= a < b < out@.len() implies out@[a] != out@[b] by {
                        if b == before.len() {
                            assert(out@[a] == before[a]);
                            assert(!(exists|x: int| 0 <= x < before.len() && before[x] == id));
                        } else {
                            assert(out@[a] == before[a] && out@[b] == before[b]);
                        }
                    }
                }
            } else {
                proof {
                    assert forall|j: int| 0 <= j <= i && !has_transaction(tx.transactions@, #[trigger] tx_ids@[j]) implies out@.contains(tx_ids@[j]) by {
                        if j == i {
                            assert(tx_ids@[j] == id);
                            assert(crate::store::has_id(out@, id));
                            let w = choose|w: int| 0 <= w < out@.len() && out@[w] == id;
                            assert(out@[w] == tx_ids@[j]);
                        }
                    }
                }
            }
            i = i + 1;
        }
        out
    }
}

impl TransactionRecord {
    /// Stores the record unless its transaction is stored already.
    pub fn save(self, tx: &mut StoreState)
        requires
            transactions_wf(old(tx).transactions@, old(tx).transaction_executions@),
        ensures
            transactions_wf(final(tx).transactions@, final(tx).transaction_executions@),
            has_transaction(old(tx).transactions@, self.id) ==> final(tx).transactions == old(tx).transactions,
            !has_transaction(old(tx).transactions@, self.id) ==> final(tx).transactions@ == old(tx).transactions@.push(
                self,
            ),
    {
        if !tx.transactions_exists(&self.id) {
            let _ = tx.transactions_insert(self);
        }
    }

    /// Replaces the stored record of the transaction, finalized at `now_ms` if it carries a final
    /// decision, or stores it as it is when there is none.
    pub fn upsert(self, tx: &mut StoreState, now_ms: u64)
        requires
            transactions_wf(old(tx).transactions@, old(tx).transaction_executions@),
        ensures
            transactions_wf(final(tx).transactions@, final(tx).transaction_executions@),
            !has_transaction(old(tx).transactions@, self.id) ==> final(tx).transactions@ == old(tx).transactions@.push(
                self,
            ),
            forall|i: int|
                0 <= i < old(tx).transactions@.len() && old(tx).transactions@[i].id == self.id ==> final(tx).transactions@
                    == old(tx).transactions@.update(i, with_finalized_time(self, now_ms)),
    {
        if tx.transactions_exists(&self.id) {
            let _ = tx.transactions_update(self, now_ms);
        } else {
            let _ = tx.transactions_insert(self);
        }
    }
}

/// `a` holds the same record as `b`, field for field.
pub open spec fn same_record(a: TransactionRecord, b: TransactionRecord) -> bool {
    &&& a.id == b.id
    &&& a.execution_decision == b.execution_decision
    &&& a.execution_time_ms == b.execution_time_ms
    &&& a.resulting_outputs@ == b.resulting_outputs@
    &&& (a.resolved_inputs is Some <==> b.resolved_inputs is Some)
    &&& (a.resolved_inputs is Some ==> a.resolved_inputs->Some_0@ == b.resolved_inputs->Some_0@)
    &&& a.final_decision == b.final_decision
    &&& a.finalized_time_ms == b.finalized_time_ms
    &&& a.abort_details == b.abort_details
}

fn copy_record(r: &TransactionRecord) -> (c: TransactionRecord)
    ensures
        same_record(c, *r),
{
    let resolved_inputs = match &r.resolved_inputs {
        Some(v) => Some(copy_items(v)),
        None => None,
    };
    let abort_details = match &r.abort_details {
        Some(d) => Some(d.clone()),
        None => None,
    };
    TransactionRecord {
        id: r.id,
        execution_decision: r.execution_decision,
        execution_time_ms: r.execution_time_ms,
        resulting_outputs: copy_items(&r.resulting_outputs),
        resolved_inputs,
        final_decision: r.final_decision,
        finalized_time_ms: r.finalized_time_ms,
        abort_details,
    }
}

impl TransactionRecord {
    /// The stored record of a transaction; "not found" when it is not stored.
    pub fn get(tx: &StoreState, tx_id: &FixedHash) -> (r: Result<TransactionRecord, StorageError>)
        requires
            transactions_wf(tx.transactions@, tx.transaction_executions@),
        ensures
            !has_transaction(tx.transactions@, *tx_id) ==> not_found(r, "transaction", *tx_id),
            forall|i: int|
                0 <= i < tx.transactions@.len() && #[trigger] tx.transactions@[i].id == *tx_id ==> (r matches Ok(
                    rec,
                ) && same_record(rec, tx.transactions@[i])),
    {
        match find_transaction(&tx.transactions, tx_id) {
            Some(i) => {
                proof {
                    assert forall|x: int|
                        0 <= x < tx.transactions@.len() && tx.transactions@[x].id == *tx_id implies x == i by {}
                }
                Ok(copy_record(&tx.transactions[i]))
            },
            None => Err(StorageError::NotFound { item: "transaction", key: to_hex(tx_id) }),
        }
    }
}

} // verus!
