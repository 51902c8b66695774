use vstd::prelude::*;

use crate::chain::is_higher;
use crate::hash::{hash_eq, FixedHash};
use crate::model::{Block, Decision, QuorumCertificate, ValidatorSignature};
use crate::pool::BlockPointer;
use crate::store::{QueryErrorReason, StorageError, StoreState};

verus! {

/// Where a foreign proposal stands locally.
#[derive(Clone, Copy, Debug, PartialEq, Eq, Structural)]
pub enum ForeignProposalState {
    New,
    Proposed,
    DeletePending,
}

/// A compressed record of another shard group's block.
#[derive(Debug)]
pub struct ForeignProposal {
    pub shard_group: u32,
    pub block_id: FixedHash,
    pub state: ForeignProposalState,
    pub proposed_height: Option<u64>,
    pub transactions: Vec<FixedHash>,
    pub base_layer_block_height: u64,
}

/// Sequence numbers kept per foreign shard group.
#[derive(Debug)]
pub struct ForeignCounters {
    pub counters: Vec<(u32, u64)>,
}

/// A vote this node received.
#[derive(Clone, Copy, Debug)]
pub struct Vote {
    pub epoch: u64,
    pub block_id: FixedHash,
    pub decision: Decision,
    pub sender_leaf_hash: FixedHash,
    pub signature: ValidatorSignature,
}

/// The last vote this node sent.
#[derive(Clone, Copy, Debug)]
pub struct LastSentVote {
    pub epoch: u64,
    pub block_id: FixedHash,
    pub block_height: u64,
    pub decision: Decision,
    pub signature: ValidatorSignature,
}

/// The witness of an epoch's end: its last committed block, the QCs over it and the shard roots.
#[derive(Debug)]
pub struct EpochCheckpoint {
    pub block: Block,
    pub qcs: Vec<QuorumCertificate>,
    pub shard_roots: Vec<(u32, FixedHash)>,
}

/// Foreign proposals, counters, votes and checkpoints.
pub struct ProtocolRecords {
    pub foreign_proposals: Vec<ForeignProposal>,
    pub foreign_send_counters: Vec<(FixedHash, ForeignCounters)>,
    pub foreign_receive_counters: Vec<ForeignCounters>,
    pub votes: Vec<Vote>,
    pub last_sent_vote: Option<LastSentVote>,
    pub epoch_checkpoints: Vec<EpochCheckpoint>,
}

impl ProtocolRecords {
    pub fn new() -> (r: ProtocolRecords)
        ensures
            r.foreign_proposals@.len() == 0,
            r.foreign_send_counters@.len() == 0,
            r.foreign_receive_counters@.len() == 0,
            r.votes@.len() == 0,
            r.last_sent_vote is None,
            r.epoch_checkpoints@.len() == 0,
    {
        ProtocolRecords {
            foreign_proposals: Vec::new(),
            foreign_send_counters: Vec::new(),
            foreign_receive_counters: Vec::new(),
            votes: Vec::new(),
            last_sent_vote: None,
            epoch_checkpoints: Vec::new(),
        }
    }
}

/// The proposal is the one keyed by `(shard_group, block_id)`.
pub open spec fn same_proposal(p: ForeignProposal, shard_group: u32, block_id: FixedHash) -> bool {
    p.shard_group == shard_group && p.block_id == block_id
}

/// The proposals that remain once the one keyed by `(shard_group, block_id)` is deleted.
pub open spec fn proposals_without(ps: Seq<ForeignProposal>, shard_group: u32, block_id: FixedHash) -> Seq<
    ForeignProposal,
>
    decreases ps.len(),
{
    if ps.len() == 0 {
        seq![]
    } else {
        let rest = proposals_without(ps.drop_last(), shard_group, block_id);
        if same_proposal(ps.last(), shard_group, block_id) {
            rest
        } else {
            rest.push(ps.last())
        }
    }
}

fn find_proposal(ps: &Vec<ForeignProposal>, shard_group: u32, block_id: &FixedHash) -> (r: Option<usize>)
    ensures
        r matches Some(i) ==> i < ps@.len() && same_proposal(ps@[i as int], shard_group, *block_id),
        r matches Some(i) ==> forall|j: int| 0 <= j < i ==> !same_proposal(ps@[j], shard_group, *block_id),
        r is None ==> forall|j: int| 0 <= j < ps@.len() ==> !same_proposal(ps@[j], shard_group, *block_id),
{
    let mut i: usize = 0;
    while i < ps.len()
        invariant
            i <= ps@.len(),
            forall|j: int| 0 <= j < i ==> !same_proposal(ps@[j], shard_group, *block_id),
        decreases ps@.len() - i,
    {
        if ps[i].shard_group == shard_group && hash_eq(&ps[i].block_id, block_id) {
            assert(ps@[i as int].block_id =~= *block_id);
            return Some(i);
        }
        i = i + 1;
    }
    None
}

impl ProtocolRecords {
    /// Inserts a foreign proposal, or replaces the one with the same shard group and block.
    pub fn foreign_proposal_upsert(&mut self, foreign_proposal: ForeignProposal)
        ensures
            forall|i: int|
                0 <= i < old(self).foreign_proposals@.len() && same_proposal(
                    old(self).foreign_proposals@[i],
                    foreign_proposal.shard_group,
                    foreign_proposal.block_id,
                ) && (forall|j: int|
                    0 <= j < i ==> !same_proposal(
                        old(self).foreign_proposals@[j],
                        foreign_proposal.shard_group,
                        foreign_proposal.block_id,
                    )) ==> final(self).foreign_proposals@ == old(self).foreign_proposals@.update(i, foreign_proposal),
            (forall|j: int|
                0 <= j < old(self).foreign_proposals@.len() ==> !same_proposal(
                    old(self).foreign_proposals@[j],
                    foreign_proposal.shard_group,
                    foreign_proposal.block_id,
                )) ==> final(self).foreign_proposals@ == old(self).foreign_proposals@.push(foreign_proposal),
            final(self).votes == old(self).votes,
    {
        match find_proposal(&self.foreign_proposals, foreign_proposal.shard_group, &foreign_proposal.block_id) {
            Some(i) => {
                let ghost ps = self.foreign_proposals@;
                self.foreign_proposals.remove(i);
                self.foreign_proposals.insert(i, foreign_proposal);
                proof {
                    assert(self.foreign_proposals@ =~= ps.update(i as int, foreign_proposal));
                    assert forall|x: int|
                        0 <= x < ps.len() && same_proposal(
                            ps[x],
                            foreign_proposal.shard_group,
                            foreign_proposal.block_id,
                        ) && (forall|j: int|
                            0 <= j < x ==> !same_proposal(
                                ps[j],
                                foreign_proposal.shard_group,
                                foreign_proposal.block_id,
                            )) implies x == i as int by {
                        if x > i as int {
                            assert(!same_proposal(ps[i as int], foreign_proposal.shard_group, foreign_proposal.block_id));
                        }
                    }
                }
            },
            None => {
                self.foreign_proposals.push(foreign_proposal);
            },
        }
    }

    /// Deletes the foreign proposal with this shard group and block, if stored.
    pub fn foreign_proposal_delete(&mut self, shard_group: u32, block_id: &FixedHash)
        ensures
            final(self).foreign_proposals@ == proposals_without(old(self).foreign_proposals@, shard_group, *block_id),
            final(self).votes == old(self).votes,
    {
        let mut kept: Vec<ForeignProposal> = Vec::new();
        let mut ps = Vec::new();
        std::mem::swap(&mut ps, &mut self.foreign_proposals);
        let ghost orig = ps@;
        let ghost mut taken: int = 0;
        while ps.len() > 0
            invariant
                0 <= taken <= orig.len(),
                ps@ == orig.subrange(taken, orig.len() as int),
                kept@ == proposals_without(orig.subrange(0, taken), shard_group, *block_id),
                self.votes == old(self).votes,
            decreases ps@.len(),
        {
            let p = ps.remove(0);
            proof {
                assert(p == orig[taken]);
                assert(orig.subrange(0, taken + 1).drop_last() =~= orig.subrange(0, taken));
                taken = taken + 1;
                assert(ps@ =~= orig.subrange(taken, orig.len() as int));
            }
            let same = p.shard_group == shard_group && hash_eq(&p.block_id, block_id);
            proof {
                if p.shard_group == shard_group && p.block_id@ == block_id@ {
                    assert(p.block_id =~= *block_id);
                }
            }
            if !same {
                kept.push(p);
            }
        }
        assert(orig.subrange(0, orig.len() as int) =~= orig);
        self.foreign_proposals = kept;
    }

    /// Records the send counters as of a block.
    pub fn foreign_send_counters_set(&mut self, foreign_send_counter: ForeignCounters, block_id: &FixedHash)
        ensures
            final(self).foreign_send_counters@.len() == old(self).foreign_send_counters@.len() + 1,
            final(self).foreign_send_counters@.drop_last() == old(self).foreign_send_counters@,
            final(self).foreign_send_counters@.last() == (*block_id, foreign_send_counter),
    {
        self.foreign_send_counters.push((*block_id, foreign_send_counter));
        assert(self.foreign_send_counters@.drop_last() =~= old(self).foreign_send_counters@);
    }

    /// Records the receive counters; the latest record is the current one.
    pub fn foreign_receive_counters_set(&mut self, foreign_receive_counter: ForeignCounters)
        ensures
            final(self).foreign_receive_counters@ == old(self).foreign_receive_counters@.push(
                foreign_receive_counter,
            ),
    {
        self.foreign_receive_counters.push(foreign_receive_counter);
    }

    /// Stores a received vote.
    pub fn votes_insert(&mut self, vote: Vote)
        ensures
            final(self).votes@ == old(self).votes@.push(vote),
    {
        self.votes.push(vote);
    }

    /// Records the last vote sent, if it is for a strictly higher `(epoch, height)`.
    pub fn last_sent_vote_set(&mut self, last_sent_vote: LastSentVote)
        ensures
            final(self).last_sent_vote == (match old(self).last_sent_vote {
                None => Some(last_sent_vote),
                Some(c) => if is_higher(last_sent_vote.epoch, last_sent_vote.block_height, c.epoch, c.block_height) {
                    Some(last_sent_vote)
                } else {
                    Some(c)
                },
            }),
    {
        let next = match self.last_sent_vote {
            None => Some(last_sent_vote),
            Some(c) => if last_sent_vote.epoch > c.epoch || (last_sent_vote.epoch == c.epoch
                && last_sent_vote.block_height > c.block_height) {
                Some(last_sent_vote)
            } else {
                Some(c)
            },
        };
        self.last_sent_vote = next;
    }

    /// Saves an epoch's checkpoint; an epoch has one.
    pub fn epoch_checkpoint_save(&mut self, checkpoint: EpochCheckpoint) -> (r: Result<(), StorageError>)
        ensures
            (exists|i: int|
                0 <= i < old(self).epoch_checkpoints@.len() && old(self).epoch_checkpoints@[i].block.epoch
                    == checkpoint.block.epoch) ==> r == Err::<(), StorageError>(
                StorageError::QueryError { reason: QueryErrorReason::DuplicateKey },
            ) && final(self).epoch_checkpoints == old(self).epoch_checkpoints,
            !(exists|i: int|
                0 <= i < old(self).epoch_checkpoints@.len() && old(self).epoch_checkpoints@[i].block.epoch
                    == checkpoint.block.epoch) ==> r is Ok && final(self).epoch_checkpoints@ == old(
                self,
            ).epoch_checkpoints@.push(checkpoint),
    {
        let mut i: usize = 0;
        while i < self.epoch_checkpoints.len()
            invariant
                i <= self.epoch_checkpoints@.len(),
                self.epoch_checkpoints == old(self).epoch_checkpoints,
                forall|j: int| 0 <= j < i ==> self.epoch_checkpoints@[j].block.epoch != checkpoint.block.epoch,
            decreases self.epoch_checkpoints@.len() - i,
        {
            if self.epoch_checkpoints[i].block.epoch == checkpoint.block.epoch {
                return Err(StorageError::QueryError { reason: QueryErrorReason::DuplicateKey });
            }
            i = i + 1;
        }
        self.epoch_checkpoints.push(checkpoint);
        Ok(())
    }
}

/// The pointer after an unset: cleared when it points at `target`'s block and height.
pub open spec fn unset_pointer(cur: Option<BlockPointer>, target: BlockPointer) -> Option<BlockPointer> {
    match cur {
        Some(c) => if c.block_id == target.block_id && c.height == target.height {
            None
        } else {
            cur
        },
        None => None,
    }
}

fn unset(cur: Option<BlockPointer>, target: &BlockPointer) -> (r: Option<BlockPointer>)
    ensures
        r == unset_pointer(cur, *target),
{
    match cur {
        Some(c) => {
            if c.height == target.height && hash_eq(&c.block_id, &target.block_id) {
                assert(c.block_id =~= target.block_id);
                None
            } else {
                cur
            }
        },
        None => None,
    }
}

impl StoreState {
    /// Clears the last voted block if it is `last_voted`.
    pub fn last_votes_unset(&mut self, last_voted: &BlockPointer)
        ensures
            final(self).last_voted == unset_pointer(old(self).last_voted, *last_voted),
            final(self).blocks == old(self).blocks,
    {
        self.last_voted = unset(self.last_voted, last_voted);
    }

    /// Clears the last proposed block if it is `last_proposed`.
    pub fn last_proposed_unset(&mut self, last_proposed: &BlockPointer)
        ensures
            final(self).last_proposed == unset_pointer(old(self).last_proposed, *last_proposed),
            final(self).blocks == old(self).blocks,
    {
        self.last_proposed = unset(self.last_proposed, last_proposed);
    }
}

} // verus!
