use dan_consensus::chain::HighQc;
use dan_consensus::hash::{from_hex, to_hex};
use dan_consensus::store::StoreState;
use dan_consensus::model::{Block, Command, Decision, Network, QuorumCertificate, TransactionAtom, ValidatorSignature};
use dan_consensus::validation::{
    check_base_layer_block_hash, check_hash_and_height, check_network, check_proposal, check_proposed_by_leader,
    check_quorum_certificate, check_signature, get_leader, quorum_threshold, ProposalContext,
    ProposalValidationError, QcSigner,
};

fn key(n: u8) -> [u8; 32] {
    [n; 32]
}

fn committee() -> Vec<[u8; 32]> {
    vec![key(1), key(2), key(3), key(4)]
}

fn sig(n: u8) -> ValidatorSignature {
    ValidatorSignature { public_key: key(n), signature: [n; 64] }
}

fn zero_qc() -> QuorumCertificate {
    QuorumCertificate {
        qc_id: [0; 32],
        block_id: [0; 32],
        block_height: 0,
        epoch: 1,
        shard_group: 7,
        decision: Decision::Commit,
        signatures: vec![],
    }
}

fn qc_over(block: &Block, signers: &[u8]) -> QuorumCertificate {
    QuorumCertificate {
        qc_id: [9; 32],
        block_id: block.id,
        block_height: block.height,
        epoch: block.epoch,
        shard_group: 7,
        decision: Decision::Commit,
        signatures: signers.iter().map(|n| sig(*n)).collect(),
    }
}

fn block(parent: [u8; 32], height: u64, justify: QuorumCertificate) -> Block {
    let leader = committee()[(height % 4) as usize];
    let mut b = Block {
        id: [0; 32],
        parent,
        justify,
        height,
        epoch: 1,
        shard_group: 7,
        proposed_by: leader,
        commands: vec![Command::Prepare(TransactionAtom {
            id: key(42),
            decision: Decision::Commit,
            transaction_fee: 10,
            leader_fee: Some(1),
        })],
        merkle_root: [5; 32],
        network: Network::LocalNet,
        timestamp: 1000 + height,
        base_layer_block_hash: [6; 32],
        base_layer_block_height: 100,
        total_leader_fee: 1,
        signature: Some(sig(0)),
        is_dummy: false,
        is_committed: false,
        is_processed: false,
    };
    b.id = b.calculate_hash();
    b
}

fn ctx(signers: usize, height: u64) -> ProposalContext {
    ProposalContext {
        network: Network::LocalNet,
        leader: get_leader(&committee(), height),
        block_signature_valid: true,
        qc_signers: (0..signers).map(|_| QcSigner { shard_group: Some(7), signature_valid: true }).collect(),
        qc_committee_size: 4,
    }
}

#[test]
fn quorum_threshold_values() {
    assert_eq!(quorum_threshold(4), 3);
    assert_eq!(quorum_threshold(1), 1);
    assert_eq!(quorum_threshold(7), 5);
    assert_eq!(quorum_threshold(10), 7);
    assert_eq!(quorum_threshold(0), 0);
}

#[test]
fn leader_is_round_robin() {
    let c = committee();
    assert_eq!(get_leader(&c, 0), Some(key(1)));
    assert_eq!(get_leader(&c, 5), Some(key(2)));
    assert_eq!(get_leader(&c, 7), Some(key(4)));
    assert_eq!(get_leader(&vec![], 3), None);
}

#[test]
fn genesis_child_with_zero_qc_is_valid() {
    let genesis = block([0; 32], 0, zero_qc());
    let b1 = block(genesis.id, 1, zero_qc());
    assert_eq!(check_proposal(&b1, &ctx(0, b1.height)), Ok(()));
    let b2 = block(b1.id, 2, qc_over(&b1, &[1, 2, 3]));
    assert_eq!(check_proposal(&b2, &ctx(3, b2.height)), Ok(()));
    let mut st = StoreState::new();
    st.blocks_insert(genesis.clone()).unwrap();
    st.high_qc_set(HighQc { qc_id: [0; 32], block_id: genesis.id, block_height: 0, epoch: 1 });
    st.blocks_insert(b1.clone()).unwrap();
    st.blocks_insert(b2.clone()).unwrap();
    st.high_qc_set(HighQc { qc_id: b2.justify.qc_id, block_id: b1.id, block_height: 1, epoch: 1 });
    assert_eq!(st.high_qc.unwrap().block_height, 1);
    assert_eq!(st.high_qc.unwrap().block_id, b1.id);
}

#[test]
fn quorum_shortfall_is_refused() {
    let b1 = block([3; 32], 1, zero_qc());
    let b2 = block(b1.id, 2, qc_over(&b1, &[1, 2]));
    let qc_id = b2.justify.qc_id;
    assert_eq!(check_proposal(&b2, &ctx(2, b2.height)), Err(ProposalValidationError::QuorumWasNotReached { qc_id }));
    let signers = vec![QcSigner { shard_group: Some(7), signature_valid: true }; 2];
    assert_eq!(
        check_quorum_certificate(&b2, &signers, 4),
        Err(ProposalValidationError::QuorumWasNotReached { qc_id })
    );
    assert_eq!(check_quorum_certificate(&b2, &signers, 2), Ok(()));
}

#[test]
fn non_leader_is_refused() {
    let mut b = block([3; 32], 6, zero_qc());
    b.proposed_by = key(1);
    b.id = b.calculate_hash();
    let expected = Err(ProposalValidationError::NotLeader {
        proposed_by: key(1),
        expected_leader: Some(key(3)),
        block_id: b.id,
    });
    assert_eq!(check_proposed_by_leader(get_leader(&committee(), b.height), &b), expected);
    assert_eq!(check_proposal(&b, &ctx(0, b.height)), expected);
}

#[test]
fn wrong_network_is_refused() {
    let b = block([3; 32], 1, zero_qc());
    assert_eq!(
        check_network(&b, Network::MainNet),
        Err(ProposalValidationError::InvalidNetwork {
            block_network: Network::LocalNet,
            expected_network: Network::MainNet,
            block_id: b.id,
        })
    );
    assert_eq!(check_network(&b, Network::LocalNet), Ok(()));
}

#[test]
fn hash_mismatch_and_genesis_are_refused() {
    let genesis = block([0; 32], 0, zero_qc());
    assert_eq!(
        check_hash_and_height(&genesis),
        Err(ProposalValidationError::ProposingGenesisBlock { proposed_by: genesis.proposed_by, hash: genesis.id })
    );
    let mut b = block([3; 32], 1, zero_qc());
    let good = b.id;
    assert_eq!(check_hash_and_height(&b), Ok(()));
    b.timestamp += 1;
    let calculated_hash = b.calculate_hash();
    assert_ne!(calculated_hash, good);
    assert_eq!(
        check_hash_and_height(&b),
        Err(ProposalValidationError::NodeHashMismatch { proposed_by: b.proposed_by, hash: good, calculated_hash })
    );
}

#[test]
fn block_hash_depends_on_commands() {
    let b = block([3; 32], 1, zero_qc());
    let mut c = b.clone();
    c.commands.push(Command::EndEpoch);
    assert_ne!(b.calculate_hash(), c.calculate_hash());
    assert_eq!(b.calculate_hash(), b.clone().calculate_hash());
}

#[test]
fn signature_checks() {
    let mut b = block([3; 32], 1, zero_qc());
    assert_eq!(check_signature(&b, true), Ok(()));
    assert_eq!(
        check_signature(&b, false),
        Err(ProposalValidationError::InvalidSignature { block_id: b.id, height: 1 })
    );
    b.signature = None;
    assert_eq!(
        check_signature(&b, true),
        Err(ProposalValidationError::MissingSignature { block_id: b.id, height: 1 })
    );
    b.is_dummy = true;
    assert_eq!(check_signature(&b, false), Ok(()));
}

#[test]
fn qc_checks_in_order() {
    let b1 = block([3; 32], 5, zero_qc());
    let low = block(b1.id, 5, qc_over(&b1, &[1, 2, 3]));
    let ok = vec![QcSigner { shard_group: Some(7), signature_valid: true }; 3];
    assert_eq!(
        check_quorum_certificate(&low, &ok, 4),
        Err(ProposalValidationError::CandidateBlockNotHigherThanJustify {
            justify_block_height: 5,
            candidate_block_height: 5,
        })
    );
    let b2 = block(b1.id, 6, qc_over(&b1, &[1, 2, 3]));
    let outsider = vec![
        QcSigner { shard_group: Some(7), signature_valid: true },
        QcSigner { shard_group: Some(8), signature_valid: true },
        QcSigner { shard_group: None, signature_valid: true },
    ];
    assert_eq!(
        check_quorum_certificate(&b2, &outsider, 4),
        Err(ProposalValidationError::ValidatorNotInCommittee {
            validator: key(2),
            expected_shard: 7,
            actual_shard: Some(8),
        })
    );
    let bad_sig = vec![
        QcSigner { shard_group: Some(7), signature_valid: true },
        QcSigner { shard_group: Some(7), signature_valid: false },
        QcSigner { shard_group: Some(7), signature_valid: true },
    ];
    assert_eq!(
        check_quorum_certificate(&b2, &bad_sig, 4),
        Err(ProposalValidationError::QCInvalidSignature { qc_id: b2.justify.qc_id })
    );
    let empty = block(b1.id, 6, qc_over(&b1, &[]));
    assert_eq!(
        check_quorum_certificate(&empty, &vec![], 4),
        Err(ProposalValidationError::QuorumWasNotReached { qc_id: empty.justify.qc_id })
    );
    assert_eq!(check_quorum_certificate(&b2, &ok, 4), Ok(()));
    assert_eq!(
        check_quorum_certificate(&b2, &ok[..2].to_vec(), 4),
        Err(ProposalValidationError::ValidatorNotInCommittee {
            validator: key(3),
            expected_shard: 7,
            actual_shard: None,
        })
    );
}

#[test]
fn base_layer_anchor_checks() {
    let b = block([3; 32], 1, zero_qc());
    assert_eq!(
        check_base_layer_block_hash(&b, None, 100, 5),
        Err(ProposalValidationError::BlockHashNotFound { hash: [6; 32] })
    );
    assert_eq!(
        check_base_layer_block_hash(&b, Some(99), 100, 5),
        Err(ProposalValidationError::BlockHeightMismatch { height: 100, real_height: 99 })
    );
    assert_eq!(
        check_base_layer_block_hash(&b, Some(100), 90, 5),
        Err(ProposalValidationError::BlockHeightTooHigh { proposed: 100, current: 90 })
    );
    assert_eq!(check_base_layer_block_hash(&b, Some(100), 95, 5), Ok(()));
    let genesis = block([0; 32], 0, zero_qc());
    assert_eq!(check_base_layer_block_hash(&genesis, None, 0, 0), Ok(()));
}

#[test]
fn hex_round_trip() {
    let mut h = [0u8; 32];
    for (i, b) in h.iter_mut().enumerate() {
        *b = (i * 8) as u8;
    }
    let s = to_hex(&h);
    assert_eq!(s.len(), 64);
    assert!(s.starts_with("0008101820"));
    assert_eq!(from_hex(&s), Some(h));
    assert_eq!(from_hex("zz"), None);
    assert_eq!(from_hex("abcd"), None);
}
