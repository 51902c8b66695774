use vstd::prelude::*;

use crate::hash::{hash_eq, FixedHash};
use crate::model::{Block, Network, QuorumCertificate};

verus! {

/// Why a proposed block was refused. Every one of them drops the block; none is fatal.
#[derive(Clone, Copy, Debug, PartialEq, Eq)]
pub enum ProposalValidationError {
    InvalidNetwork { block_network: Network, expected_network: Network, block_id: FixedHash },
    ProposingGenesisBlock { proposed_by: FixedHash, hash: FixedHash },
    NodeHashMismatch { proposed_by: FixedHash, hash: FixedHash, calculated_hash: FixedHash },
    NotLeader { proposed_by: FixedHash, expected_leader: Option<FixedHash>, block_id: FixedHash },
    MissingSignature { block_id: FixedHash, height: u64 },
    InvalidSignature { block_id: FixedHash, height: u64 },
    CandidateBlockNotHigherThanJustify { justify_block_height: u64, candidate_block_height: u64 },
    QuorumWasNotReached { qc_id: FixedHash },
    QCInvalidSignature { qc_id: FixedHash },
    ValidatorNotInCommittee { validator: FixedHash, expected_shard: u32, actual_shard: Option<u32> },
    BlockHashNotFound { hash: FixedHash },
    BlockHeightMismatch { height: u64, real_height: u64 },
    BlockHeightTooHigh { proposed: u64, current: u64 },
}

/// What the epoch manager and the signature service report of one QC signer.
#[derive(Clone, Copy, Debug)]
pub struct QcSigner {
    /// The shard group of the signer's committee, `None` when it is no registered validator.
    pub shard_group: Option<u32>,
    /// Whether the signature verifies over the vote message of the signer's leaf hash.
    pub signature_valid: bool,
}

/// What the ports report about a proposal before it is judged.
#[derive(Clone, Debug)]
pub struct ProposalContext {
    /// The network this node runs on.
    pub network: Network,
    /// The leader the leader strategy names for the proposer's committee at the block's
    /// height; `None` when the committee is empty.
    pub leader: Option<FixedHash>,
    /// Whether the block signature verifies over the block id with the proposer's key.
    pub block_signature_valid: bool,
    /// One entry for each signature of the block's QC, in the same order; a signature without
    /// an entry counts as one of an unregistered validator.
    pub qc_signers: Vec<QcSigner>,
    /// Size of the committee the first QC signer belongs to.
    pub qc_committee_size: u64,
}

/// The most faulty members a committee of `n` tolerates.
pub open spec fn max_failures(n: int) -> int {
    if n <= 0 { 0 } else { (n - 1) / 3 }
}

/// The number of signatures that make a quorum in a committee of `n`.
pub open spec fn quorum_threshold_spec(n: int) -> int {
    n - max_failures(n)
}

/// The number of signatures that make a quorum in a committee of `committee_size`.
pub fn quorum_threshold(committee_size: u64) -> (r: u64)
    ensures
        r == quorum_threshold_spec(committee_size as int),
{
    if committee_size == 0 {
        0
    } else {
        committee_size - (committee_size - 1) / 3
    }
}

/// The round-robin leader strategy: the member at `height` modulo the committee size.
pub open spec fn leader_spec(committee: Seq<FixedHash>, height: u64) -> Option<FixedHash> {
    if committee.len() == 0 {
        None
    } else {
        Some(committee[(height as int) % (committee.len() as int)])
    }
}

/// The leader of a committee at a height under the round-robin strategy.
pub fn get_leader(committee: &Vec<FixedHash>, height: u64) -> (r: Option<FixedHash>)
    ensures
        r == leader_spec(committee@, height),
{
    if committee.len() == 0 {
        None
    } else {
        let idx = (height % (committee.len() as u64)) as usize;
        Some(committee[idx])
    }
}

/// Refuses a block of another network.
pub fn check_network(candidate_block: &Block, network: Network) -> (r: Result<(), ProposalValidationError>)
    ensures
        candidate_block.network == network ==> r is Ok,
        candidate_block.network != network ==> r == Err::<(), _>(
            ProposalValidationError::InvalidNetwork {
                block_network: candidate_block.network,
                expected_network: network,
                block_id: candidate_block.id,
            },
        ),
{
    if candidate_block.network != network {
        return Err(
            ProposalValidationError::InvalidNetwork {
                block_network: candidate_block.network,
                expected_network: network,
                block_id: candidate_block.id,
            },
        );
    }
    Ok(())
}

/// Refuses a genesis block and a block whose id is not the hash of its content.
pub fn check_hash_and_height(candidate_block: &Block) -> (r: Result<(), ProposalValidationError>)
    ensures
        r is Ok <==> (!candidate_block.is_genesis_spec() && candidate_block.calculate_hash_spec()
            == candidate_block.id@),
        candidate_block.is_genesis_spec() ==> r == Err::<(), _>(
            ProposalValidationError::ProposingGenesisBlock {
                proposed_by: candidate_block.proposed_by,
                hash: candidate_block.id,
            },
        ),
        r matches Err(ProposalValidationError::NodeHashMismatch { proposed_by, hash, calculated_hash })
            ==> proposed_by == candidate_block.proposed_by && hash == candidate_block.id
            && calculated_hash@ == candidate_block.calculate_hash_spec(),
        r is Err ==> (r matches Err(ProposalValidationError::ProposingGenesisBlock { .. }) || r matches Err(
            ProposalValidationError::NodeHashMismatch { .. },
        )),
        r matches Err(ProposalValidationError::ProposingGenesisBlock { .. }) ==> candidate_block.is_genesis_spec(),
{
    if candidate_block.is_genesis() {
        return Err(
            ProposalValidationError::ProposingGenesisBlock {
                proposed_by: candidate_block.proposed_by,
                hash: candidate_block.id,
            },
        );
    }
    let calculated_hash = candidate_block.calculate_hash();
    if !hash_eq(&calculated_hash, &candidate_block.id) {
        return Err(
            ProposalValidationError::NodeHashMismatch {
                proposed_by: candidate_block.proposed_by,
                hash: candidate_block.id,
                calculated_hash,
            },
        );
    }
    Ok(())
}

/// Refuses a block that the leader named by the leader strategy did not propose.
pub fn check_proposed_by_leader(leader: Option<FixedHash>, candidate_block: &Block) -> (r: Result<
    (),
    ProposalValidationError,
>)
    ensures
        r is Ok <==> leader == Some(candidate_block.proposed_by),
        r is Err ==> r == Err::<(), _>(
            ProposalValidationError::NotLeader {
                proposed_by: candidate_block.proposed_by,
                expected_leader: leader,
                block_id: candidate_block.id,
            },
        ),
{
    let is_leader = match leader {
        Some(l) => hash_eq(&l, &candidate_block.proposed_by),
        None => false,
    };
    if !is_leader {
        proof {
            if leader is Some {
                assert(leader->Some_0@ != candidate_block.proposed_by@);
            }
        }
        return Err(
            ProposalValidationError::NotLeader {
                proposed_by: candidate_block.proposed_by,
                expected_leader: leader,
                block_id: candidate_block.id,
            },
        );
    }
    proof {
        assert(leader->Some_0 =~= candidate_block.proposed_by);
    }
    Ok(())
}

/// Refuses a signed block that carries no signature or a signature that does not verify.
/// Dummy blocks and the genesis block carry none and pass.
pub fn check_signature(candidate_block: &Block, signature_valid: bool) -> (r: Result<(), ProposalValidationError>)
    ensures
        (candidate_block.is_dummy || candidate_block.is_genesis_spec()) ==> r is Ok,
        !candidate_block.is_dummy && !candidate_block.is_genesis_spec() ==> r == (
        if candidate_block.signature is None {
            Err(
                ProposalValidationError::MissingSignature {
                    block_id: candidate_block.id,
                    height: candidate_block.height,
                },
            )
        } else if !signature_valid {
            Err(
                ProposalValidationError::InvalidSignature {
                    block_id: candidate_block.id,
                    height: candidate_block.height,
                },
            )
        } else {
            Ok(())
        }),
{
    if candidate_block.is_dummy {
        return Ok(());
    }
    if candidate_block.is_genesis() {
        return Ok(());
    }
    if candidate_block.signature.is_none() {
        return Err(
            ProposalValidationError::MissingSignature {
                block_id: candidate_block.id,
                height: candidate_block.height,
            },
        );
    }
    if !signature_valid {
        return Err(
            ProposalValidationError::InvalidSignature {
                block_id: candidate_block.id,
                height: candidate_block.height,
            },
        );
    }
    Ok(())
}

/// A signer belongs to the QC's shard group.
pub open spec fn signer_in_group(s: QcSigner, group: u32) -> bool {
    s.shard_group == Some(group)
}

/// Index of the first signer outside `group`, at or after `i`; the length when there is none.
pub open spec fn first_outside(signers: Seq<QcSigner>, group: u32, i: int) -> int
    decreases signers.len() - i,
{
    if i >= signers.len() || i < 0 {
        signers.len() as int
    } else if !signer_in_group(signers[i], group) {
        i
    } else {
        first_outside(signers, group, i + 1)
    }
}

/// The report on each of the QC's `n` signatures: a signature without a report counts as one
/// of an unregistered validator, and reports beyond the signatures are ignored.
pub open spec fn signer_reports(signers: Seq<QcSigner>, n: nat) -> Seq<QcSigner> {
    Seq::new(
        n,
        |i: int|
            if i < signers.len() {
                signers[i]
            } else {
                QcSigner { shard_group: None, signature_valid: false }
            },
    )
}

fn reports_for(signers: &Vec<QcSigner>, n: usize) -> (r: Vec<QcSigner>)
    ensures
        r@ == signer_reports(signers@, n as nat),
{
    let mut out: Vec<QcSigner> = Vec::new();
    let mut i: usize = 0;
    while i < n
        invariant
            i <= n,
            out@.len() == i,
            forall|j: int| 0 <= j < i ==> out@[j] == signer_reports(signers@, n as nat)[j],
        decreases n - i,
    {
        if i < signers.len() {
            out.push(signers[i]);
        } else {
            out.push(QcSigner { shard_group: None, signature_valid: false });
        }
        i = i + 1;
    }
    assert(out@ =~= signer_reports(signers@, n as nat));
    out
}

/// The verdict on a block's QC, given what the ports report of each signer.
pub open spec fn qc_verdict(
    block_height: u64,
    qc: QuorumCertificate,
    signers: Seq<QcSigner>,
    committee_size: u64,
) -> Result<(), ProposalValidationError> {
    let signers = signer_reports(signers, qc.signatures@.len());
    if qc.is_zero_spec() {
        Ok(())
    } else if block_height <= qc.block_height {
        Err(
            ProposalValidationError::CandidateBlockNotHigherThanJustify {
                justify_block_height: qc.block_height,
                candidate_block_height: block_height,
            },
        )
    } else if qc.signatures@.len() == 0 {
        Err(ProposalValidationError::QuorumWasNotReached { qc_id: qc.qc_id })
    } else if first_outside(signers, qc.shard_group, 0) < signers.len() {
        let i = first_outside(signers, qc.shard_group, 0);
        Err(
            ProposalValidationError::ValidatorNotInCommittee {
                validator: qc.signatures@[i].public_key,
                expected_shard: qc.shard_group,
                actual_shard: signers[i].shard_group,
            },
        )
    } else if exists|i: int| 0 <= i < signers.len() && !signers[i].signature_valid {
        Err(ProposalValidationError::QCInvalidSignature { qc_id: qc.qc_id })
    } else if (qc.signatures@.len() as int) < quorum_threshold_spec(committee_size as int) {
        Err(ProposalValidationError::QuorumWasNotReached { qc_id: qc.qc_id })
    } else {
        Ok(())
    }
}

/// Judges the QC that justifies a candidate block: a zero QC passes; otherwise the block must
/// be higher than the block the QC certifies, every signer must belong to the QC's shard group,
/// every signature must verify, and the signatures must reach the committee's quorum. A
/// signature without a report in `reports` counts as one of an unregistered validator.
pub fn check_quorum_certificate(candidate_block: &Block, reports: &Vec<QcSigner>, committee_size: u64) -> (r:
    Result<(), ProposalValidationError>)
    ensures
        r == qc_verdict(candidate_block.height, candidate_block.justify, reports@, committee_size),
{
    let qc = &candidate_block.justify;
    let signers = reports_for(reports, qc.signatures.len());
    if qc.is_zero() {
        return Ok(());
    }
    if candidate_block.height <= qc.block_height {
        return Err(
            ProposalValidationError::CandidateBlockNotHigherThanJustify {
                justify_block_height: qc.block_height,
                candidate_block_height: candidate_block.height,
            },
        );
    }
    if qc.signatures.len() == 0 {
        return Err(ProposalValidationError::QuorumWasNotReached { qc_id: qc.qc_id });
    }
    let mut i: usize = 0;
    while i < signers.len()
        invariant
            i <= signers@.len(),
            signers@.len() == qc.signatures@.len(),
            signers@ == signer_reports(reports@, qc.signatures@.len()),
            qc == candidate_block.justify,
            forall|j: int| 0 <= j < i ==> signer_in_group(#[trigger] signers@[j], qc.shard_group),
            first_outside(signers@, qc.shard_group, 0) == first_outside(signers@, qc.shard_group, i as int),
            !qc.is_zero_spec(),
            candidate_block.height > qc.block_height,
            qc.signatures@.len() != 0,
        decreases signers@.len() - i,
    {
        let s = signers[i];
        let in_group = match s.shard_group {
            Some(g) => g == qc.shard_group,
            None => false,
        };
        if !in_group {
            assert(!signer_in_group(signers@[i as int], qc.shard_group));
            assert(first_outside(signers@, qc.shard_group, i as int) == i as int);
            return Err(
                ProposalValidationError::ValidatorNotInCommittee {
                    validator: qc.signatures[i].public_key,
                    expected_shard: qc.shard_group,
                    actual_shard: s.shard_group,
                },
            );
        }
        assert(signer_in_group(signers@[i as int], qc.shard_group));
        i = i + 1;
    }
    assert(first_outside(signers@, qc.shard_group, 0) == signers@.len());
    let mut k: usize = 0;
    while k < signers.len()
        invariant
            k <= signers@.len(),
            forall|j: int| 0 <= j < k ==> (#[trigger] signers@[j]).signature_valid,
            first_outside(signers@, qc.shard_group, 0) == signers@.len(),
            signers@ == signer_reports(reports@, qc.signatures@.len()),
            qc == candidate_block.justify,
            !qc.is_zero_spec(),
            candidate_block.height > qc.block_height,
            qc.signatures@.len() != 0,
        decreases signers@.len() - k,
    {
        if !signers[k].signature_valid {
            assert(!signers@[k as int].signature_valid);
            return Err(ProposalValidationError::QCInvalidSignature { qc_id: qc.qc_id });
        }
        k = k + 1;
    }
    let threshold = quorum_threshold(committee_size);
    if (qc.signatures.len() as u64) < threshold {
        return Err(ProposalValidationError::QuorumWasNotReached { qc_id: qc.qc_id });
    }
    Ok(())
}

/// Refuses a block whose base-layer anchor is unknown, disagrees with the known height, or lies
/// too far ahead of the current base-layer tip. The genesis block passes.
/// `known_height` is the height the epoch manager knows for the block's base-layer hash.
pub fn check_base_layer_block_hash(
    block: &Block,
    known_height: Option<u64>,
    current_height: u64,
    max_base_layer_blocks_ahead: u64,
) -> (r: Result<(), ProposalValidationError>)
    ensures
        r == (if block.is_genesis_spec() {
            Ok(())
        } else if known_height is None {
            Err(ProposalValidationError::BlockHashNotFound { hash: block.base_layer_block_hash })
        } else if known_height->Some_0 != block.base_layer_block_height {
            Err(
                ProposalValidationError::BlockHeightMismatch {
                    height: block.base_layer_block_height,
                    real_height: known_height->Some_0,
                },
            )
        } else if known_height->Some_0 > current_height + max_base_layer_blocks_ahead {
            Err(
                ProposalValidationError::BlockHeightTooHigh {
                    proposed: known_height->Some_0,
                    current: current_height,
                },
            )
        } else {
            Ok(())
        }),
{
    if block.is_genesis() {
        return Ok(());
    }
    let base_layer_block_height = match known_height {
        Some(h) => h,
        None => {
            return Err(ProposalValidationError::BlockHashNotFound { hash: block.base_layer_block_hash });
        },
    };
    if base_layer_block_height != block.base_layer_block_height {
        return Err(
            ProposalValidationError::BlockHeightMismatch {
                height: block.base_layer_block_height,
                real_height: base_layer_block_height,
            },
        );
    }
    if base_layer_block_height > current_height && base_layer_block_height - current_height
        > max_base_layer_blocks_ahead {
        return Err(
            ProposalValidationError::BlockHeightTooHigh {
                proposed: base_layer_block_height,
                current: current_height,
            },
        );
    }
    Ok(())
}

/// The verdict on a proposal: the checks in order, the first refusal wins.
pub open spec fn proposal_verdict(block: Block, ctx: ProposalContext) -> Result<(), ProposalValidationError> {
    if block.network != ctx.network {
        Err(
            ProposalValidationError::InvalidNetwork {
                block_network: block.network,
                expected_network: ctx.network,
                block_id: block.id,
            },
        )
    } else if block.is_genesis_spec() {
        Err(ProposalValidationError::ProposingGenesisBlock { proposed_by: block.proposed_by, hash: block.id })
    } else if block.calculate_hash_spec() != block.id@ {
        Err(
            ProposalValidationError::NodeHashMismatch {
                proposed_by: block.proposed_by,
                hash: block.id,
                calculated_hash: choose|h: FixedHash| h@ == block.calculate_hash_spec(),
            },
        )
    } else if ctx.leader != Some(block.proposed_by) {
        Err(
            ProposalValidationError::NotLeader {
                proposed_by: block.proposed_by,
                expected_leader: ctx.leader,
                block_id: block.id,
            },
        )
    } else if !block.is_dummy && block.signature is None {
        Err(ProposalValidationError::MissingSignature { block_id: block.id, height: block.height })
    } else if !block.is_dummy && !ctx.block_signature_valid {
        Err(ProposalValidationError::InvalidSignature { block_id: block.id, height: block.height })
    } else {
        qc_verdict(block.height, block.justify, ctx.qc_signers@, ctx.qc_committee_size)
    }
}

/// Runs every check on an incoming proposal: network, hash and height, leader, signature, QC.
pub fn check_proposal(block: &Block, ctx: &ProposalContext) -> (r: Result<(), ProposalValidationError>)
    ensures
        r == proposal_verdict(*block, *ctx),
{
    check_network(block, ctx.network)?;
    match check_hash_and_height(block) {
        Ok(()) => {},
        Err(e) => {
            proof {
                if let ProposalValidationError::NodeHashMismatch { calculated_hash, .. } = e {
                    let c = choose|h: FixedHash| h@ == block.calculate_hash_spec();
                    assert(calculated_hash@ == block.calculate_hash_spec());
                    assert(c@ == block.calculate_hash_spec());
                    assert(c =~= calculated_hash);
                }
            }
            return Err(e);
        },
    }
    check_proposed_by_leader(ctx.leader, block)?;
    check_signature(block, ctx.block_signature_valid)?;
    check_quorum_certificate(block, &ctx.qc_signers, ctx.qc_committee_size)
}

/// A block that passes validation is not the genesis block and its id is the hash of its
/// content.
pub proof fn lemma_valid_block_id_is_its_hash(block: Block, ctx: ProposalContext)
    requires
        proposal_verdict(block, ctx) is Ok,
    ensures
        !block.is_genesis_spec(),
        block.calculate_hash_spec() == block.id@,
{
}

/// The QC of a block that passes validation is the zero QC, or its signatures reach the quorum
/// threshold of the committee.
pub proof fn lemma_valid_qc_reaches_quorum(block: Block, ctx: ProposalContext)
    requires
        proposal_verdict(block, ctx) is Ok,
    ensures
        block.justify.is_zero_spec() || block.justify.signatures@.len() >= quorum_threshold_spec(
            ctx.qc_committee_size as int,
        ),
{
}

/// A block that passes validation with a non-zero QC is higher than the block its QC certifies.
pub proof fn lemma_valid_block_above_justify(block: Block, ctx: ProposalContext)
    requires
        proposal_verdict(block, ctx) is Ok,
        !block.justify.is_zero_spec(),
    ensures
        block.height > block.justify.block_height,
{
}

} // verus!
