use dan_consensus::diffs::{chunk_ranges, BlockDiffRow};
use dan_consensus::substate::Transition;
use dan_consensus::model::{Block, Decision, Network, QuorumCertificate, ValidatorSignature};
use dan_consensus::pool::BlockPointer;
use dan_consensus::records::{
    EpochCheckpoint, ForeignCounters, ForeignProposal, ForeignProposalState, LastSentVote, Vote,
};
use dan_consensus::state_tree::LeafChange;
use dan_consensus::store::{QueryErrorReason, StorageError, StoreState};

fn k(n: u8) -> [u8; 32] {
    [n; 32]
}

fn block(id: u8, height: u64, epoch: u64) -> Block {
    Block {
        id: k(id),
        parent: [0; 32],
        justify: QuorumCertificate {
            qc_id: [0; 32],
            block_id: [0; 32],
            block_height: 0,
            epoch,
            shard_group: 0,
            decision: Decision::Commit,
            signatures: vec![],
        },
        height,
        epoch,
        shard_group: 0,
        proposed_by: k(1),
        commands: vec![],
        merkle_root: [0; 32],
        network: Network::Esmeralda,
        timestamp: 0,
        base_layer_block_hash: [0; 32],
        base_layer_block_height: 0,
        total_leader_fee: 0,
        signature: None,
        is_dummy: false,
        is_committed: false,
        is_processed: false,
    }
}

fn proposal(group: u32, id: u8, state: ForeignProposalState) -> ForeignProposal {
    ForeignProposal {
        shard_group: group,
        block_id: k(id),
        state,
        proposed_height: None,
        transactions: vec![k(9)],
        base_layer_block_height: 10,
    }
}

#[test]
fn foreign_proposals_upsert_and_delete() {
    let mut st = StoreState::new();
    st.protocol.foreign_proposal_upsert(proposal(1, 1, ForeignProposalState::New));
    st.protocol.foreign_proposal_upsert(proposal(2, 1, ForeignProposalState::New));
    st.protocol.foreign_proposal_upsert(proposal(1, 1, ForeignProposalState::Proposed));
    assert_eq!(st.protocol.foreign_proposals.len(), 2);
    assert_eq!(st.protocol.foreign_proposals[0].state, ForeignProposalState::Proposed);
    st.protocol.foreign_proposal_delete(1, &k(1));
    assert_eq!(st.protocol.foreign_proposals.len(), 1);
    assert_eq!(st.protocol.foreign_proposals[0].shard_group, 2);
    st.protocol.foreign_send_counters_set(ForeignCounters { counters: vec![(2, 5)] }, &k(3));
    st.protocol.foreign_receive_counters_set(ForeignCounters { counters: vec![(2, 4)] });
    assert_eq!(st.protocol.foreign_send_counters[0].0, k(3));
    assert_eq!(st.protocol.foreign_receive_counters.len(), 1);
}

#[test]
fn votes_and_last_sent_vote() {
    let mut st = StoreState::new();
    let sig = ValidatorSignature { public_key: k(1), signature: [1; 64] };
    st.protocol.votes_insert(Vote { epoch: 1, block_id: k(2), decision: Decision::Commit, sender_leaf_hash: k(3), signature: sig });
    assert_eq!(st.protocol.votes.len(), 1);
    let v = |h| LastSentVote { epoch: 1, block_id: k(h as u8), block_height: h, decision: Decision::Commit, signature: sig };
    st.protocol.last_sent_vote_set(v(5));
    st.protocol.last_sent_vote_set(v(4));
    assert_eq!(st.protocol.last_sent_vote.unwrap().block_height, 5);
    st.last_voted_set(BlockPointer { block_id: k(5), height: 5, epoch: 1 });
    st.last_votes_unset(&BlockPointer { block_id: k(6), height: 5, epoch: 1 });
    assert!(st.last_voted.is_some());
    st.last_votes_unset(&BlockPointer { block_id: k(5), height: 5, epoch: 1 });
    assert!(st.last_voted.is_none());
    st.last_proposed_set(BlockPointer { block_id: k(5), height: 5, epoch: 1 });
    st.last_proposed_unset(&BlockPointer { block_id: k(5), height: 5, epoch: 1 });
    assert!(st.last_proposed.is_none());
}

#[test]
fn one_checkpoint_per_epoch() {
    let mut st = StoreState::new();
    let cp = |id| EpochCheckpoint { block: block(id, 9, 3), qcs: vec![], shard_roots: vec![(0, k(7))] };
    st.protocol.epoch_checkpoint_save(cp(1)).unwrap();
    assert_eq!(
        st.protocol.epoch_checkpoint_save(cp(2)),
        Err(StorageError::QueryError { reason: QueryErrorReason::DuplicateKey })
    );
    assert_eq!(st.protocol.epoch_checkpoints.len(), 1);
}

#[test]
fn pending_diffs_grouped_by_shard() {
    let mut st = StoreState::new();
    st.blocks_insert(block(1, 4, 1)).unwrap();
    st.blocks_insert(block(2, 5, 1)).unwrap();
    let change = |n| vec![LeafChange { key: k(n), value_hash: Some(k(n + 1)) }];
    assert!(st.pending_state_tree_diffs_insert(k(1), 3, 1, change(10)));
    assert!(st.pending_state_tree_diffs_insert(k(2), 3, 2, change(20)));
    assert!(st.pending_state_tree_diffs_insert(k(1), 0, 1, change(30)));
    assert!(st.pending_state_tree_diffs_insert(k(1), 3, 2, change(40)));
    assert!(!st.pending_state_tree_diffs_insert(k(9), 3, 2, change(50)));
    let groups = st.pending_state_tree_diffs_remove_by_block(&k(1));
    let shards: Vec<u32> = groups.keys().copied().collect();
    assert_eq!(shards, vec![3, 0]);
    assert_eq!(groups[&3].len(), 2);
    assert_eq!(groups[&3][1].version, 2);
    assert_eq!(groups[&3][0].block_height, 4);
    assert_eq!(groups[&0].len(), 1);
    assert_eq!(st.pending_state_tree_diffs.len(), 1);
    assert_eq!(st.pending_state_tree_diffs[0].block_id, k(2));
}

#[test]
fn chunks_cover_rows_in_batches() {
    assert_eq!(chunk_ranges(2500, 1000), vec![(0, 1000), (1000, 2000), (2000, 2500)]);
    assert_eq!(chunk_ranges(1000, 1000), vec![(0, 1000)]);
    assert!(chunk_ranges(0, 1000).is_empty());
}

#[test]
fn block_diffs_insert_and_remove() {
    let mut st = StoreState::new();
    let row = |b: u8, i: u32| BlockDiffRow {
        block_id: k(b),
        transaction_id: k(3),
        substate_id: k(4),
        version: i,
        shard: 0,
        change: if i % 2 == 0 { Transition::Up } else { Transition::Down },
        state: None,
    };
    st.block_diffs_insert((0..2500).map(|i| row(1, i)).collect());
    st.block_diffs_insert(vec![row(2, 0)]);
    assert_eq!(st.block_diffs.len(), 2501);
    assert_eq!(st.block_diffs[1999].version, 1999);
    st.block_diffs_remove(&k(1));
    assert_eq!(st.block_diffs.len(), 1);
    assert_eq!(st.block_diffs[0].block_id, k(2));
}
