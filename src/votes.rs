use vstd::prelude::*;

use crate::hash::{blake2b_256, hash_bytes, hash_eq, FixedHash};
use crate::model::{decision_byte, le_bytes, push_hash, push_le, Decision, QuorumCertificate, ValidatorSignature};
use crate::validation::{quorum_threshold, quorum_threshold_spec};

verus! {

/// A validator's vote on a block.
#[derive(Clone, Copy, Debug)]
pub struct VoteMessage {
    pub epoch: u64,
    pub block_id: FixedHash,
    pub block_height: u64,
    pub decision: Decision,
    pub signature: ValidatorSignature,
}

/// The signatures of the votes for `block_id` with `decision`, in the order they arrived.
pub open spec fn votes_for(votes: Seq<VoteMessage>, block_id: FixedHash, decision: Decision) -> Seq<
    ValidatorSignature,
>
    decreases votes.len(),
{
    if votes.len() == 0 {
        seq![]
    } else {
        let rest = votes_for(votes.drop_last(), block_id, decision);
        let v = votes.last();
        if v.block_id == block_id && v.decision == decision {
            rest.push(v.signature)
        } else {
            rest
        }
    }
}

/// A vote from this signer on this block is already held.
pub open spec fn already_voted(votes: Seq<VoteMessage>, m: VoteMessage) -> bool {
    exists|i: int|
        0 <= i < votes.len() && votes[i].block_id == m.block_id && votes[i].signature.public_key
            == m.signature.public_key
}

/// Bytes a QC id is computed over.
pub open spec fn qc_preimage(
    block_id: FixedHash,
    block_height: u64,
    epoch: u64,
    shard_group: u32,
    decision: Decision,
    signatures: Seq<ValidatorSignature>,
) -> Seq<u8> {
    block_id@ + le_bytes(block_height as nat, 8) + le_bytes(epoch as nat, 8) + le_bytes(shard_group as nat, 4)
        + seq![decision_byte(decision)] + signers_bytes(signatures)
}

/// The public keys of the signers, in order.
pub open spec fn signers_bytes(sigs: Seq<ValidatorSignature>) -> Seq<u8>
    decreases sigs.len(),
{
    if sigs.len() == 0 {
        seq![]
    } else {
        signers_bytes(sigs.drop_last()) + sigs.last().public_key@
    }
}

/// Collects the votes of one shard group's committee and forms a QC once a block reaches a
/// quorum.
pub struct VoteReceiver {
    pub votes: Vec<VoteMessage>,
    pub committee_size: u64,
    pub shard_group: u32,
}

fn collect_votes(votes: &Vec<VoteMessage>, block_id: &FixedHash, decision: Decision) -> (r: Vec<ValidatorSignature>)
    ensures
        r@ == votes_for(votes@, *block_id, decision),
{
    let mut out: Vec<ValidatorSignature> = Vec::new();
    let mut i: usize = 0;
    while i < votes.len()
        invariant
            i <= votes@.len(),
            out@ == votes_for(votes@.subrange(0, i as int), *block_id, decision),
        decreases votes@.len() - i,
    {
        let v = votes[i];
        proof {
            assert(votes@.subrange(0, i as int + 1).drop_last() =~= votes@.subrange(0, i as int));
        }
        let same = hash_eq(&v.block_id, block_id);
        proof {
            if same {
                assert(v.block_id =~= *block_id);
            }
        }
        if same && v.decision == decision {
            out.push(v.signature);
        }
        i = i + 1;
    }
    assert(votes@.subrange(0, votes@.len() as int) =~= votes@);
    out
}

fn has_voted(votes: &Vec<VoteMessage>, m: &VoteMessage) -> (r: bool)
    ensures
        r == already_voted(votes@, *m),
{
    let mut i: usize = 0;
    while i < votes.len()
        invariant
            i <= votes@.len(),
            forall|j: int|
                0 <= j < i ==> !(votes@[j].block_id == m.block_id && votes@[j].signature.public_key
                    == m.signature.public_key),
        decreases votes@.len() - i,
    {
        if hash_eq(&votes[i].block_id, &m.block_id) && hash_eq(
            &votes[i].signature.public_key,
            &m.signature.public_key,
        ) {
            assert(votes@[i as int].block_id =~= m.block_id);
            assert(votes@[i as int].signature.public_key =~= m.signature.public_key);
            return true;
        }
        i = i + 1;
    }
    false
}

/// The id of a QC: the hash of what it certifies and who signed it.
pub fn calculate_qc_id(
    block_id: &FixedHash,
    block_height: u64,
    epoch: u64,
    shard_group: u32,
    decision: Decision,
    signatures: &Vec<ValidatorSignature>,
) -> (r: FixedHash)
    ensures
        r@ == blake2b_256(qc_preimage(*block_id, block_height, epoch, shard_group, decision, signatures@)),
{
    let mut out: Vec<u8> = Vec::new();
    push_hash(&mut out, block_id);
    push_le(&mut out, block_height, 8);
    push_le(&mut out, epoch, 8);
    push_le(&mut out, shard_group as u64, 4);
    out.push(decision.as_u8());
    let ghost head = out@;
    let mut i: usize = 0;
    while i < signatures.len()
        invariant
            i <= signatures@.len(),
            out@ == head + signers_bytes(signatures@.subrange(0, i as int)),
        decreases signatures@.len() - i,
    {
        push_hash(&mut out, &signatures[i].public_key);
        assert(signatures@.subrange(0, i as int + 1).drop_last() =~= signatures@.subrange(0, i as int));
        assert(out@ =~= head + signers_bytes(signatures@.subrange(0, i as int + 1)));
        i = i + 1;
    }
    assert(signatures@.subrange(0, signatures@.len() as int) =~= signatures@);
    assert(out@ =~= qc_preimage(*block_id, block_height, epoch, shard_group, decision, signatures@));
    hash_bytes(&out)
}

impl VoteReceiver {
    pub fn new(committee_size: u64, shard_group: u32) -> (r: VoteReceiver)
        ensures
            r.votes@.len() == 0,
            r.committee_size == committee_size,
            r.shard_group == shard_group,
    {
        VoteReceiver { votes: Vec::new(), committee_size, shard_group }
    }

    /// Takes a vote. A second vote of a signer on the same block is ignored. When the votes for
    /// the block and decision reach the quorum threshold exactly, the QC they make is returned.
    pub fn handle(&mut self, message: VoteMessage) -> (r: Option<QuorumCertificate>)
        ensures
            final(self).committee_size == old(self).committee_size,
            final(self).shard_group == old(self).shard_group,
            already_voted(old(self).votes@, message) ==> r is None && final(self).votes == old(self).votes,
            !already_voted(old(self).votes@, message) ==> final(self).votes@ == old(self).votes@.push(message),
            !already_voted(old(self).votes@, message) ==> ({
                let sigs = votes_for(final(self).votes@, message.block_id, message.decision);
                if sigs.len() == quorum_threshold_spec(old(self).committee_size as int) {
                    r matches Some(qc) && qc.block_id == message.block_id && qc.block_height == message.block_height
                        && qc.epoch == message.epoch && qc.shard_group == old(self).shard_group && qc.decision
                        == message.decision && qc.signatures@ == sigs && qc.qc_id@ == blake2b_256(
                        qc_preimage(
                            message.block_id,
                            message.block_height,
                            message.epoch,
                            old(self).shard_group,
                            message.decision,
                            sigs,
                        ),
                    )
                } else {
                    r is None
                }
            }),
    {
        if has_voted(&self.votes, &message) {
            return None;
        }
        self.votes.push(message);
        let sigs = collect_votes(&self.votes, &message.block_id, message.decision);
        let threshold = quorum_threshold(self.committee_size);
        if sigs.len() as u64 != threshold {
            return None;
        }
        let qc_id = calculate_qc_id(
            &message.block_id,
            message.block_height,
            message.epoch,
            self.shard_group,
            message.decision,
            &sigs,
        );
        Some(
            QuorumCertificate {
                qc_id,
                block_id: message.block_id,
                block_height: message.block_height,
                epoch: message.epoch,
                shard_group: self.shard_group,
                decision: message.decision,
                signatures: sigs,
            },
        )
    }
}

/// Receives votes sent to this node as the next leader.
pub struct OnReceiveVoteHandler {
    pub vote_receiver: VoteReceiver,
}

impl OnReceiveVoteHandler {
    pub fn new(vote_receiver: VoteReceiver) -> (r: OnReceiveVoteHandler)
        ensures
            r.vote_receiver == vote_receiver,
    {
        OnReceiveVoteHandler { vote_receiver }
    }

    /// Hands a vote to the receiver; returns the QC when this vote completes a quorum.
    pub fn handle(&mut self, message: VoteMessage) -> (r: Option<QuorumCertificate>)
        ensures
            final(self).vote_receiver.committee_size == old(self).vote_receiver.committee_size,
            already_voted(old(self).vote_receiver.votes@, message) ==> r is None,
            !already_voted(old(self).vote_receiver.votes@, message) ==> final(self).vote_receiver.votes@ == old(
                self,
            ).vote_receiver.votes@.push(message),
            r matches Some(qc) ==> qc.block_id == message.block_id && qc.signatures@ == votes_for(
                final(self).vote_receiver.votes@,
                message.block_id,
                message.decision,
            ) && qc.signatures@.len() == quorum_threshold_spec(old(self).vote_receiver.committee_size as int),
    {
        self.vote_receiver.handle(message)
    }
}

} // verus!
