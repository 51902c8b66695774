use dan_consensus::model::{Decision, TransactionAtom};
use dan_consensus::store::{QueryErrorReason, StorageError, StoreState};
use dan_consensus::substate::SubstateLockType;
use dan_consensus::transaction::{
    TransactionExecution, TransactionRecord, VersionedSubstateId, VersionedSubstateIdLockIntent,
};

fn k(n: u8) -> [u8; 32] {
    [n; 32]
}

fn atom(n: u8, decision: Decision) -> TransactionAtom {
    TransactionAtom { id: k(n), decision, transaction_fee: 5, leader_fee: None }
}

fn execution(tx: u8, block: u8, decision: Decision) -> TransactionExecution {
    TransactionExecution {
        block_id: k(block),
        transaction_id: k(tx),
        decision,
        resolved_inputs: vec![VersionedSubstateIdLockIntent {
            id: VersionedSubstateId { substate_id: k(70), version: 1 },
            lock_type: SubstateLockType::Write,
        }],
        resulting_outputs: vec![VersionedSubstateId { substate_id: k(70), version: 2 }],
        execution_time_ms: 12,
    }
}

#[test]
fn record_decisions() {
    let mut rec = TransactionRecord::new(k(1));
    assert_eq!(rec.current_decision(), Decision::Commit);
    assert!(!rec.is_finalized());
    rec.execution_decision = Some(Decision::Abort);
    assert_eq!(rec.current_decision(), Decision::Abort);
    rec.execution_decision = Some(Decision::Commit);
    rec.set_current_decision_to_abort("input locked".to_string());
    assert_eq!(rec.current_decision(), Decision::Abort);
    assert_eq!(rec.final_decision(), None);
    rec.set_abort("rejected".to_string());
    assert_eq!(rec.final_decision(), Some(Decision::Abort));
    assert_eq!(rec.abort_details.as_deref(), Some("rejected"));
}

#[test]
fn insert_update_and_save_all() {
    let mut st = StoreState::new();
    st.transactions_insert(TransactionRecord::new(k(1))).unwrap();
    assert_eq!(
        st.transactions_insert(TransactionRecord::new(k(1))),
        Err(StorageError::QueryError { reason: QueryErrorReason::DuplicateKey })
    );
    let mut rec = TransactionRecord::new(k(1));
    rec.set_abort("no".to_string());
    st.transactions_update(rec, 777).unwrap();
    assert_eq!(st.transactions[0].final_decision, Some(Decision::Abort));
    assert_eq!(st.transactions[0].finalized_time_ms, Some(777));
    let mut undecided = TransactionRecord::new(k(1));
    undecided.finalized_time_ms = Some(5);
    st.transactions_update(undecided, 778).unwrap();
    assert_eq!(st.transactions[0].finalized_time_ms, None);
    let mut rec = TransactionRecord::new(k(1));
    rec.set_abort("no".to_string());
    st.transactions_update(rec, 779).unwrap();
    assert!(matches!(
        st.transactions_update(TransactionRecord::new(k(2)), 1),
        Err(StorageError::NotFound { item: "transaction", .. })
    ));
    st.transactions_save_all(vec![TransactionRecord::new(k(1)), TransactionRecord::new(k(2))]);
    assert_eq!(st.transactions.len(), 2);
    assert_eq!(st.transactions[0].final_decision, Some(Decision::Abort));
    assert!(st.transactions_exists(&k(2)));
}

#[test]
fn finalize_all_takes_executions() {
    let mut st = StoreState::new();
    st.transactions_insert(TransactionRecord::new(k(1))).unwrap();
    st.transactions_insert(TransactionRecord::new(k(2))).unwrap();
    assert!(st.transaction_executions_insert_or_ignore(execution(1, 9, Decision::Commit)));
    assert!(!st.transaction_executions_insert_or_ignore(execution(1, 9, Decision::Abort)));
    assert!(matches!(
        st.transactions_finalize_all(&k(9), &vec![atom(1, Decision::Commit), atom(2, Decision::Commit)], 100),
        Err(StorageError::NotFound { item: "transaction_execution", .. })
    ));
    assert_eq!(st.transactions[0].final_decision, None);
    st.transactions_finalize_all(&k(9), &vec![atom(1, Decision::Commit)], 100).unwrap();
    assert_eq!(st.transactions[0].finalized_time_ms, Some(100));
    let rec = &st.transactions[0];
    assert_eq!(rec.final_decision, Some(Decision::Commit));
    assert_eq!(rec.execution_decision, Some(Decision::Commit));
    assert_eq!(rec.execution_time_ms, Some(12));
    assert_eq!(rec.resulting_outputs, vec![VersionedSubstateId { substate_id: k(70), version: 2 }]);
    assert_eq!(rec.resolved_inputs.as_ref().map(|v| v.len()), Some(1));
    assert_eq!(st.transactions[1].final_decision, None);
}

#[test]
fn missing_and_any() {
    let mut st = StoreState::new();
    st.transactions_insert(TransactionRecord::new(k(1))).unwrap();
    assert!(TransactionRecord::exists_any(&st, &vec![k(5), k(1)]));
    assert!(!TransactionRecord::exists_any(&st, &vec![k(5), k(6)]));
    assert_eq!(TransactionRecord::get_missing(&st, &vec![k(5), k(1), k(6), k(5)]), vec![k(5), k(6)]);
}

#[test]
fn save_keeps_and_upsert_replaces() {
    let mut st = StoreState::new();
    let mut first = TransactionRecord::new(k(1));
    first.set_abort("first".to_string());
    first.save(&mut st);
    TransactionRecord::new(k(1)).save(&mut st);
    assert_eq!(st.transactions.len(), 1);
    assert_eq!(st.transactions[0].final_decision, Some(Decision::Abort));
    TransactionRecord::new(k(1)).upsert(&mut st, 9);
    assert_eq!(st.transactions[0].final_decision, None);
    TransactionRecord::new(k(2)).upsert(&mut st, 9);
    assert_eq!(st.transactions.len(), 2);
}

#[test]
fn get_reads_back_the_stored_record() {
    let mut st = StoreState::new();
    let mut rec = TransactionRecord::new(k(3));
    rec.set_abort("late".to_string());
    st.transactions_insert(rec).unwrap();
    let back = TransactionRecord::get(&st, &k(3)).unwrap();
    assert_eq!(back.id, k(3));
    assert_eq!(back.final_decision, Some(Decision::Abort));
    assert_eq!(back.abort_details.as_deref(), Some("late"));
    assert!(matches!(TransactionRecord::get(&st, &k(4)), Err(StorageError::NotFound { item: "transaction", .. })));
}
