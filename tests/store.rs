use dan_consensus::chain::HighQc;
use dan_consensus::model::{Block, Decision, Network, QuorumCertificate, ValidatorSignature};
use dan_consensus::pool::{BlockPointer, TransactionPoolStage, TransactionPoolStatusUpdate};
use dan_consensus::store::{QueryErrorReason, SqliteStateStoreWriteTransaction, StorageError, StoreState};
use dan_consensus::substate::{SubstateChange, SubstateLockRecord, SubstateLockType, SubstateRecord, Transition};
use dan_consensus::transaction::TransactionRecord;
use dan_consensus::validation::{check_proposal, get_leader, ProposalContext};

fn key(n: u8) -> [u8; 32] {
    [n; 32]
}

fn qc_for(block_id: [u8; 32], height: u64) -> QuorumCertificate {
    QuorumCertificate {
        qc_id: [height as u8; 32],
        block_id,
        block_height: height,
        epoch: 1,
        shard_group: 0,
        decision: Decision::Commit,
        signatures: vec![ValidatorSignature { public_key: key(1), signature: [1; 64] }],
    }
}

fn block(id: [u8; 32], parent: [u8; 32], height: u64, justify_id: [u8; 32]) -> Block {
    Block {
        id,
        parent,
        justify: qc_for(justify_id, height.saturating_sub(1)),
        height,
        epoch: 1,
        shard_group: 0,
        proposed_by: key(1),
        commands: vec![],
        merkle_root: [0; 32],
        network: Network::LocalNet,
        timestamp: 100 * height,
        base_layer_block_hash: [0; 32],
        base_layer_block_height: 0,
        total_leader_fee: 0,
        signature: None,
        is_dummy: false,
        is_committed: true,
        is_processed: false,
    }
}

fn substate(id: u8, version: u32, shard: u32) -> SubstateRecord {
    SubstateRecord {
        substate_id: key(id),
        version,
        value: vec![id, 1, 2],
        state_hash: key(id + 100),
        created_by_transaction: key(50),
        created_justify: key(51),
        created_block: key(52),
        created_height: 3,
        created_at_epoch: 1,
        created_by_shard: shard,
        destroyed: None,
    }
}

fn lock(tx: u8, id: u8, version: u32, lock: SubstateLockType) -> SubstateLockRecord {
    SubstateLockRecord {
        block_id: key(200),
        transaction_id: key(tx),
        substate_id: key(id),
        version,
        lock,
        is_local_only: false,
    }
}

#[test]
fn blocks_insert_sets_block_time_and_refuses_duplicates() {
    let mut st = StoreState::new();
    st.blocks_insert(block(key(1), [0; 32], 0, [0; 32])).unwrap();
    st.blocks_insert(block(key(2), key(1), 1, key(1))).unwrap();
    assert_eq!(st.blocks[1].block_time, Some(100));
    assert!(!st.blocks[1].block.is_committed);
    assert_eq!(st.blocks[0].block_time, None);
    // the block time is measured from the parent, not from the block the QC justifies
    st.blocks_insert(block(key(3), key(2), 5, key(1))).unwrap();
    assert_eq!(st.blocks[2].block_time, Some(400));
    assert_eq!(
        st.blocks_insert(block(key(2), key(1), 1, key(1))),
        Err(StorageError::QueryError { reason: QueryErrorReason::DuplicateKey })
    );
    assert_eq!(st.blocks.len(), 3);
}

#[test]
fn three_chain_commits_the_first_block() {
    let mut tx = SqliteStateStoreWriteTransaction::new(StoreState::new());
    let st = &mut tx.store;
    st.blocks_insert(block(key(10), [0; 32], 0, [0; 32])).unwrap();
    st.blocks_insert(block(key(1), key(10), 1, key(10))).unwrap();
    st.blocks_insert(block(key(2), key(1), 2, key(1))).unwrap();
    st.blocks_insert(block(key(3), key(2), 3, key(2))).unwrap();
    assert_eq!(st.blocks_commit_three_chain(&key(3)), Some(key(10)));
    st.blocks_insert(block(key(4), key(3), 4, key(3))).unwrap();
    assert_eq!(st.blocks_commit_three_chain(&key(4)), Some(key(1)));
    assert!(st.blocks[1].block.is_committed);
    assert!(!st.blocks[2].block.is_committed);

    st.state_tree_shard_versions_set(0, 1);
    let changes = vec![SubstateChange::Up(substate(1, 0, 0)), SubstateChange::Up(substate(2, 0, 0))];
    st.substates_apply_diff(changes, 5000).unwrap();
    st.substates_apply_diff(vec![SubstateChange::Down {
        substate_id: key(1),
        version: 0,
        shard: 0,
        epoch: 1,
        block_height: 1,
        transaction_id: key(60),
        qc_id: key(61),
    }], 6000)
    .unwrap();
    assert_eq!(st.substates.len(), 2);
    assert_eq!(st.substates[0].destroyed.map(|d| d.at_ms), Some(6000));
    assert_eq!(st.state_transitions.len(), 3);
    let seqs: Vec<u64> = st.state_transitions.iter().map(|t| t.seq).collect();
    assert_eq!(seqs, vec![0, 1, 2]);
    assert_eq!(st.state_transitions[2].transition, Transition::Down);
    assert_eq!(st.state_transitions[0].state_version, 1);
    let before = st.state_tree_versions_get_latest(0).unwrap();
    st.state_tree_shard_versions_set(0, before + 1);
    assert_eq!(st.state_tree_versions_get_latest(0), Some(2));
    assert_eq!(st.state_tree_shard_versions.len(), 1);
    st.state_tree_shard_versions_set(4, 1);
    assert_eq!(st.state_tree_shard_versions.len(), 2);
    assert_eq!(st.state_tree_versions_get_latest(0), Some(2));
    let committed = tx.commit();
    assert!(committed.blocks[1].block.is_committed);
}

#[test]
fn no_commit_without_three_chain() {
    let mut st = StoreState::new();
    st.blocks_insert(block(key(1), [0; 32], 1, key(9))).unwrap();
    st.blocks_insert(block(key(2), key(1), 2, key(1))).unwrap();
    assert_eq!(st.blocks_commit_three_chain(&key(2)), None);
    assert_eq!(st.blocks_commit_three_chain(&key(77)), None);
    assert!(st.blocks.iter().all(|b| !b.block.is_committed));
}

#[test]
fn state_transitions_are_numbered_per_shard() {
    let mut st = StoreState::new();
    st.substates_create(substate(1, 0, 0)).unwrap();
    st.substates_create(substate(2, 0, 1)).unwrap();
    st.substates_create(substate(3, 0, 0)).unwrap();
    st.substates_create(substate(4, 0, 1)).unwrap();
    let seqs: Vec<(u32, u64)> = st.state_transitions.iter().map(|t| (t.shard, t.seq)).collect();
    assert_eq!(seqs, vec![(0, 0), (1, 0), (0, 1), (1, 1)]);
    assert_eq!(st.state_transitions[0].state_version, 0);
    assert_eq!(
        st.substates_create(substate(1, 0, 0)),
        Err(StorageError::QueryError { reason: QueryErrorReason::DuplicateKey })
    );
    let mut destroyed = substate(5, 0, 0);
    destroyed.destroyed = st.substates[0].destroyed;
    destroyed.destroyed = Some(dan_consensus::substate::SubstateDestroyed {
        at_ms: 1,
        by_transaction: key(1),
        justify: key(2),
        by_block: 3,
        at_epoch: 1,
        by_shard: 0,
    });
    assert_eq!(
        st.substates_create(destroyed),
        Err(StorageError::QueryError { reason: QueryErrorReason::SubstateAlreadyDestroyed })
    );
    let r = st.substates_down(&key(9), 0, 0, 1, 2, &key(1), &key(2), 7);
    assert!(matches!(r, Err(StorageError::NotFound { item: "substate", .. })));
    assert_eq!(st.state_transitions.len(), 4);
}

#[test]
fn write_locks_exclude_others() {
    let mut st = StoreState::new();
    st.substate_locks_insert_all(&vec![lock(1, 1, 0, SubstateLockType::Read), lock(2, 1, 0, SubstateLockType::Read)])
        .unwrap();
    assert_eq!(
        st.substate_locks_insert_all(&vec![lock(3, 1, 0, SubstateLockType::Write)]),
        Err(StorageError::QueryError { reason: QueryErrorReason::LockConflict })
    );
    assert_eq!(
        st.substate_locks_insert_all(&vec![
            lock(3, 2, 0, SubstateLockType::Output),
            lock(4, 2, 0, SubstateLockType::Read)
        ]),
        Err(StorageError::QueryError { reason: QueryErrorReason::LockConflict })
    );
    assert_eq!(st.substate_locks.len(), 2);
    st.substate_locks_insert_all(&vec![lock(3, 1, 1, SubstateLockType::Write)]).unwrap();
    st.substate_locks_remove_many_for_transactions(&vec![key(1), key(2)]);
    assert_eq!(st.substate_locks.len(), 1);
    st.substate_locks_insert_all(&vec![lock(5, 1, 0, SubstateLockType::Write)]).unwrap();
    assert_eq!(st.substate_locks.len(), 2);
}

#[test]
fn pool_promotion() {
    let mut st = StoreState::new();
    let t = key(30);
    st.transaction_pool_insert_new(t, Decision::Commit).unwrap();
    let l = BlockPointer { block_id: key(1), height: 1, epoch: 1 };
    let l_prime = BlockPointer { block_id: key(2), height: 2, epoch: 1 };
    let l_next = BlockPointer { block_id: key(3), height: 3, epoch: 1 };
    let genesis = BlockPointer { block_id: key(0), height: 0, epoch: 1 };
    let update = |b: &BlockPointer, stage| TransactionPoolStatusUpdate {
        block_id: b.block_id,
        block_height: b.height,
        transaction_id: t,
        stage,
        local_decision: Decision::Commit,
        is_ready: true,
    };
    st.transaction_pool_add_pending_update(update(&l, TransactionPoolStage::Prepared)).unwrap();
    st.transaction_pool_set_all_transitions(&genesis, &l, &vec![t]).unwrap();
    assert_eq!(st.transaction_pool[0].stage, TransactionPoolStage::Prepared);
    assert!(st.transaction_pool_state_updates.is_empty());

    st.transaction_pool_add_pending_update(update(&l_prime, TransactionPoolStage::LocalPrepared)).unwrap();
    st.transaction_pool_add_pending_update(update(&l_next, TransactionPoolStage::AllPrepared)).unwrap();
    assert_eq!(st.transaction_pool[0].pending_stage, Some(TransactionPoolStage::AllPrepared));
    assert_eq!(st.transaction_pool_state_updates.len(), 2);
    st.transaction_pool_set_all_transitions(&l, &l_prime, &vec![t]).unwrap();
    assert_eq!(st.transaction_pool[0].stage, TransactionPoolStage::LocalPrepared);
    assert_eq!(st.transaction_pool[0].local_decision, Some(Decision::Commit));
    assert_eq!(st.transaction_pool_state_updates.len(), 1);
    assert_eq!(st.transaction_pool_state_updates[0].block_id, key(3));

    assert_eq!(
        st.transaction_pool_set_all_transitions(&l, &l_prime, &vec![t, key(31)]),
        Err(StorageError::NotAllTransactionsFound {
            operation: "transaction_pool_set_all_transitions",
            found: 1,
            queried: 2,
        })
    );
}

#[test]
fn pool_stages_move_one_step_at_a_time() {
    let mut st = StoreState::new();
    let t = key(30);
    st.transaction_pool_insert_new(t, Decision::Commit).unwrap();
    let skip = TransactionPoolStatusUpdate {
        block_id: key(1),
        block_height: 1,
        transaction_id: t,
        stage: TransactionPoolStage::LocalPrepared,
        local_decision: Decision::Commit,
        is_ready: false,
    };
    assert_eq!(
        st.transaction_pool_add_pending_update(skip),
        Err(StorageError::QueryError { reason: QueryErrorReason::InvalidStageTransition })
    );
    let missing = TransactionPoolStatusUpdate { transaction_id: key(99), stage: TransactionPoolStage::Prepared, ..skip };
    assert!(matches!(
        st.transaction_pool_add_pending_update(missing),
        Err(StorageError::NotFound { item: "transaction", .. })
    ));
    assert_eq!(
        st.transaction_pool_insert_new(t, Decision::Abort),
        Err(StorageError::QueryError { reason: QueryErrorReason::DuplicateKey })
    );
    assert!(TransactionPoolStage::AllPrepared.can_transition_to(TransactionPoolStage::LocalAccepted));
    assert!(TransactionPoolStage::SomePrepared.can_transition_to(TransactionPoolStage::LocalAccepted));
    assert!(!TransactionPoolStage::New.can_transition_to(TransactionPoolStage::Complete));
}

#[test]
fn remote_abort_wins_and_removal_returns_atoms() {
    let mut st = StoreState::new();
    st.transaction_pool_insert_new(key(1), Decision::Commit).unwrap();
    st.transaction_pool_insert_new(key(2), Decision::Commit).unwrap();
    st.transaction_pool_update(&key(1), Some(Decision::Commit), Some(Decision::Abort)).unwrap();
    assert_eq!(st.transaction_pool[0].current_decision(), Decision::Abort);
    assert_eq!(st.transaction_pool[1].current_decision(), Decision::Commit);
    let atoms = st.transaction_pool_remove_all(&vec![key(1)]).unwrap();
    assert_eq!(atoms.len(), 1);
    assert_eq!(atoms[0].id, key(1));
    assert_eq!(atoms[0].decision, Decision::Abort);
    assert_eq!(st.transaction_pool.len(), 1);
    st.transaction_pool_remove(&key(2)).unwrap();
    assert!(matches!(st.transaction_pool_remove(&key(2)), Err(StorageError::NotFound { .. })));
}

#[test]
fn missing_transaction_parks_and_releases_block() {
    let mut st = StoreState::new();
    let mut b = block(key(1), [0; 32], 1, [0; 32]);
    b.justify = QuorumCertificate { signatures: vec![], block_height: 0, ..qc_for([0; 32], 0) };
    b.proposed_by = key(7);
    b.id = b.calculate_hash();
    let id = b.id;
    st.missing_transactions_insert(b, &vec![key(40)], &vec![]).unwrap();
    assert_eq!(st.parked_blocks.len(), 1);
    assert!(!st.transactions_exists(&key(40)));
    st.transactions_insert(TransactionRecord::new(key(40))).unwrap();
    assert_eq!(st.missing_transactions_remove(2, &key(40)).unwrap().map(|b| b.id), None);
    let back = st.missing_transactions_remove(1, &key(40)).unwrap().unwrap();
    assert_eq!(back.id, id);
    assert!(st.parked_blocks.is_empty());
    assert!(st.missing_transactions.is_empty());
    let ctx = ProposalContext {
        network: Network::LocalNet,
        leader: get_leader(&vec![key(6), key(7)], 1),
        block_signature_valid: true,
        qc_signers: vec![],
        qc_committee_size: 2,
    };
    let mut back = back;
    back.signature = Some(ValidatorSignature { public_key: key(7), signature: [0; 64] });
    assert_eq!(check_proposal(&back, &ctx), Ok(()));
}

#[test]
fn block_waiting_on_two_transactions_stays_parked() {
    let mut st = StoreState::new();
    st.missing_transactions_insert(block(key(5), [0; 32], 3, [0; 32]), &vec![key(40)], &vec![key(41)]).unwrap();
    assert_eq!(st.missing_transactions.len(), 2);
    assert!(st.missing_transactions[1].is_awaiting_execution);
    assert!(st.missing_transactions_remove(3, &key(40)).unwrap().is_none());
    assert_eq!(st.parked_blocks.len(), 1);
    let b = st.missing_transactions_remove(3, &key(41)).unwrap().unwrap();
    assert_eq!(b.id, key(5));
    st.blocks_insert(block(key(6), [0; 32], 1, [0; 32])).unwrap();
    assert_eq!(
        st.parked_blocks_insert(block(key(6), [0; 32], 1, [0; 32])),
        Err(StorageError::QueryError { reason: QueryErrorReason::BlockAlreadyStored })
    );
    assert!(matches!(st.parked_blocks_remove(&key(6)), Err(StorageError::NotFound { item: "parked_blocks", .. })));
}

#[test]
fn pointers_only_move_up() {
    let mut st = StoreState::new();
    st.locked_block_set(BlockPointer { block_id: key(1), height: 5, epoch: 1 });
    st.locked_block_set(BlockPointer { block_id: key(2), height: 4, epoch: 1 });
    assert_eq!(st.locked_block.unwrap().height, 5);
    st.locked_block_set(BlockPointer { block_id: key(3), height: 1, epoch: 2 });
    assert_eq!(st.locked_block.unwrap().block_id, key(3));
    st.leaf_block_set(BlockPointer { block_id: key(1), height: 5, epoch: 1 });
    st.leaf_block_set(BlockPointer { block_id: key(2), height: 5, epoch: 1 });
    assert_eq!(st.leaf_block.unwrap().block_id, key(1));
    st.last_voted_set(BlockPointer { block_id: key(1), height: 2, epoch: 1 });
    st.last_voted_set(BlockPointer { block_id: key(2), height: 3, epoch: 1 });
    assert_eq!(st.last_voted.unwrap().height, 3);
    st.high_qc_set(HighQc { qc_id: key(1), block_id: key(1), block_height: 1, epoch: 1 });
    st.high_qc_set(HighQc { qc_id: key(2), block_id: key(2), block_height: 2, epoch: 1 });
    st.high_qc_set(HighQc { qc_id: key(3), block_id: key(3), block_height: 1, epoch: 1 });
    assert_eq!(st.high_qc.unwrap().block_height, 2);
}

#[test]
fn set_flags_commits_only_with_three_chain() {
    let mut st = StoreState::new();
    st.blocks_insert(block(key(1), [0; 32], 1, [0; 32])).unwrap();
    st.blocks_insert(block(key(2), key(1), 2, key(1))).unwrap();
    st.blocks_insert(block(key(3), key(2), 3, key(2))).unwrap();
    assert_eq!(
        st.blocks_set_flags(&key(1), Some(true), None),
        Err(StorageError::QueryError { reason: QueryErrorReason::NoThreeChain })
    );
    st.blocks_insert(block(key(4), key(3), 4, key(3))).unwrap();
    st.blocks_set_flags(&key(1), Some(true), None).unwrap();
    assert!(st.blocks[0].block.is_committed);
    assert!(!st.blocks[0].block.is_processed);
    assert!(st.blocks[1..].iter().all(|b| !b.block.is_committed));
    st.blocks_set_flags(&key(2), None, Some(true)).unwrap();
    assert!(st.blocks[1].block.is_processed);
    assert_eq!(st.blocks_set_flags(&key(9), Some(true), None), Ok(()));
}

#[test]
fn diff_stops_at_first_refused_change() {
    let mut st = StoreState::new();
    let changes = vec![
        SubstateChange::Up(substate(1, 0, 0)),
        SubstateChange::Up(substate(1, 0, 0)),
        SubstateChange::Up(substate(2, 0, 0)),
    ];
    assert_eq!(
        st.substates_apply_diff(changes, 1),
        Err(StorageError::QueryError { reason: QueryErrorReason::DuplicateKey })
    );
    assert_eq!(st.substates.len(), 1);
    let missing = vec![SubstateChange::Down {
        substate_id: key(8),
        version: 0,
        shard: 0,
        epoch: 1,
        block_height: 1,
        transaction_id: key(60),
        qc_id: key(61),
    }];
    assert!(matches!(st.substates_apply_diff(missing, 1), Err(StorageError::NotFound { item: "substate", .. })));
}

#[test]
fn promotion_refuses_repeated_ids() {
    let mut st = StoreState::new();
    st.transaction_pool_insert_new(key(30), Decision::Commit).unwrap();
    let l = BlockPointer { block_id: key(1), height: 1, epoch: 1 };
    let l2 = BlockPointer { block_id: key(2), height: 2, epoch: 1 };
    assert_eq!(
        st.transaction_pool_set_all_transitions(&l, &l2, &vec![key(30), key(30)]),
        Err(StorageError::NotAllTransactionsFound {
            operation: "transaction_pool_set_all_transitions",
            found: 1,
            queried: 2,
        })
    );
    assert!(st.transaction_pool_remove_all(&vec![key(30), key(30)]).is_err());
    assert_eq!(st.transaction_pool.len(), 1);
}
