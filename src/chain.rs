use vstd::prelude::*;

use crate::hash::{hash_eq, FixedHash};
use crate::pool::BlockPointer;
use crate::store::{block_ids, has_id, BlockRecord, QueryErrorReason, StorageError, StoreState};

verus! {

/// The highest QC seen locally, by the block it certifies.
#[derive(Clone, Copy, Debug)]
pub struct HighQc {
    pub qc_id: FixedHash,
    pub block_id: FixedHash,
    pub block_height: u64,
    pub epoch: u64,
}

/// `(epoch, height)` of `a` is strictly above that of `b`.
pub open spec fn is_higher(a_epoch: u64, a_height: u64, b_epoch: u64, b_height: u64) -> bool {
    a_epoch > b_epoch || (a_epoch == b_epoch && a_height > b_height)
}

/// A pointer after an attempt to move it to `new`: it moves only to a strictly higher
/// `(epoch, height)`.
pub open spec fn advance_pointer(cur: Option<BlockPointer>, new: BlockPointer) -> Option<BlockPointer> {
    match cur {
        None => Some(new),
        Some(c) => if is_higher(new.epoch, new.height, c.epoch, c.height) {
            Some(new)
        } else {
            cur
        },
    }
}

pub open spec fn advance_high_qc(cur: Option<HighQc>, new: HighQc) -> Option<HighQc> {
    match cur {
        None => Some(new),
        Some(c) => if is_higher(new.epoch, new.block_height, c.epoch, c.block_height) {
            Some(new)
        } else {
            cur
        },
    }
}

fn advance(cur: Option<BlockPointer>, new: BlockPointer) -> (r: Option<BlockPointer>)
    ensures
        r == advance_pointer(cur, new),
{
    match cur {
        None => Some(new),
        Some(c) => if new.epoch > c.epoch || (new.epoch == c.epoch && new.height > c.height) {
            Some(new)
        } else {
            cur
        },
    }
}

/// The QC of block `child` certifies block `parent`.
pub open spec fn justifies(blocks: Seq<BlockRecord>, child: int, parent: int) -> bool {
    0 <= child < blocks.len() && 0 <= parent < blocks.len() && blocks[child].block.justify.block_id
        == blocks[parent].block.id
}

/// Three stored blocks extend block `i`, each certifying the one before.
pub open spec fn has_three_chain(blocks: Seq<BlockRecord>, i: int) -> bool {
    exists|a: int, b: int, c: int|
        #![trigger justifies(blocks, a, i), justifies(blocks, b, a), justifies(blocks, c, b)]
        justifies(blocks, a, i) && justifies(blocks, b, a) && justifies(blocks, c, b)
}

/// Only a block with a three-chain above it is committed.
pub open spec fn commit_wf(blocks: Seq<BlockRecord>) -> bool {
    forall|i: int| 0 <= i < blocks.len() && (#[trigger] blocks[i]).block.is_committed ==> has_three_chain(blocks, i)
}

/// Every committed block has three blocks stored above it, each justifying the one before:
/// `b1.justify = b`, `b2.justify = b1`, `b3.justify = b2`.
pub proof fn lemma_committed_has_three_chain(st: &StoreState, i: int)
    requires
        st.wf(),
        0 <= i < st.blocks@.len(),
        st.blocks@[i].block.is_committed,
    ensures
        exists|a: int, b: int, c: int|
            #![trigger justifies(st.blocks@, a, i), justifies(st.blocks@, b, a), justifies(st.blocks@, c, b)]
            justifies(st.blocks@, a, i) && justifies(st.blocks@, b, a) && justifies(st.blocks@, c, b),
{
}

/// Index of the block that block `i`'s QC certifies.
pub open spec fn justified_index(blocks: Seq<BlockRecord>, i: int) -> Option<int> {
    if exists|p: int| justifies(blocks, i, p) {
        Some(choose|p: int| justifies(blocks, i, p))
    } else {
        None
    }
}

/// The block that three links of QCs below `i` reach: the block a new block `i` commits.
pub open spec fn commit_target(blocks: Seq<BlockRecord>, i: int) -> Option<int> {
    match justified_index(blocks, i) {
        None => None,
        Some(a) => match justified_index(blocks, a) {
            None => None,
            Some(b) => justified_index(blocks, b),
        },
    }
}

fn find_index(blocks: &Vec<BlockRecord>, id: &FixedHash) -> (r: Option<usize>)
    ensures
        r matches Some(i) ==> i < blocks@.len() && blocks@[i as int].block.id == *id,
        r is None ==> forall|j: int| 0 <= j < blocks@.len() ==> blocks@[j].block.id != *id,
{
    let mut i: usize = 0;
    while i < blocks.len()
        invariant
            i <= blocks@.len(),
            forall|j: int| 0 <= j < i ==> blocks@[j].block.id != *id,
        decreases blocks@.len() - i,
    {
        if hash_eq(&blocks[i].block.id, id) {
            assert(blocks@[i as int].block.id =~= *id);
            return Some(i);
        }
        i = i + 1;
    }
    None
}

fn justified_of(blocks: &Vec<BlockRecord>, i: usize) -> (r: Option<usize>)
    requires
        i < blocks@.len(),
        forall|x: int, y: int|
            0 <= x < y < blocks@.len() ==> blocks@[x].block.id != blocks@[y].block.id,
    ensures
        r == match justified_index(blocks@, i as int) {
            Some(p) => Some(p as usize),
            None => None::<usize>,
        },
        r matches Some(p) ==> justifies(blocks@, i as int, p as int),
{
    let r = find_index(blocks, &blocks[i].block.justify.block_id);
    proof {
        match r {
            Some(p) => {
                assert(justifies(blocks@, i as int, p as int));
                let c = choose|q: int| justifies(blocks@, i as int, q);
                if c != p as int {
                    assert(blocks@[c].block.id == blocks@[p as int].block.id);
                }
            },
            None => {
                assert(!exists|p: int| justifies(blocks@, i as int, p));
            },
        }
    }
    r
}

proof fn lemma_mark_committed(ob: Seq<BlockRecord>, nb: Seq<BlockRecord>, i: int, a: int, b: int, t: int)
    requires
        commit_wf(ob),
        forall|x: int, y: int| 0 <= x < y < ob.len() ==> ob[x].block.id != ob[y].block.id,
        justifies(ob, i, a),
        justifies(ob, a, b),
        justifies(ob, b, t),
        nb == ob.update(
            t,
            BlockRecord { block: crate::model::Block { is_committed: true, ..ob[t].block }, ..ob[t] },
        ),
    ensures
        commit_wf(nb),
        forall|x: int, y: int| 0 <= x < y < nb.len() ==> nb[x].block.id != nb[y].block.id,
{
    assert forall|x: int| 0 <= x < nb.len() implies nb[x].block.id == ob[x].block.id
        && nb[x].block.justify.block_id == ob[x].block.justify.block_id by {}
    assert forall|x: int, y: int| justifies(ob, x, y) implies justifies(nb, x, y) by {
        assert(nb[x].block.justify.block_id == ob[x].block.justify.block_id);
        assert(nb[y].block.id == ob[y].block.id);
    }
    assert forall|x: int| 0 <= x < nb.len() && (#[trigger] nb[x]).block.is_committed implies has_three_chain(
        nb,
        x,
    ) by {
        if x == t {
            assert(justifies(nb, b, x));
            assert(justifies(nb, a, b));
            assert(justifies(nb, i, a));
        } else {
            assert(ob[x].block.is_committed);
            assert(has_three_chain(ob, x));
            let (p, q, s) = choose|p: int, q: int, s: int|
                justifies(ob, p, x) && justifies(ob, q, p) && justifies(ob, s, q);
            assert(justifies(nb, p, x));
            assert(justifies(nb, q, p));
            assert(justifies(nb, s, q));
        }
    }
}

/// Some stored block's QC certifies block `b`.
pub open spec fn has_child(blocks: Seq<BlockRecord>, b: int) -> bool {
    exists|c: int| #[trigger] justifies(blocks, c, b)
}

/// Some stored block certifies block `a` and is itself certified by another.
pub open spec fn has_grandchild(blocks: Seq<BlockRecord>, a: int) -> bool {
    exists|b: int| #[trigger] justifies(blocks, b, a) && has_child(blocks, b)
}

fn child_exists(blocks: &Vec<BlockRecord>, b: usize) -> (r: bool)
    requires
        b < blocks@.len(),
    ensures
        r == has_child(blocks@, b as int),
{
    let mut c: usize = 0;
    while c < blocks.len()
        invariant
            b < blocks@.len(),
            c <= blocks@.len(),
            forall|x: int| 0 <= x < c ==> !justifies(blocks@, x, b as int),
        decreases blocks@.len() - c,
    {
        if hash_eq(&blocks[c].block.justify.block_id, &blocks[b].block.id) {
            assert(blocks@[c as int].block.justify.block_id =~= blocks@[b as int].block.id);
            assert(justifies(blocks@, c as int, b as int));
            return true;
        }
        c = c + 1;
    }
    false
}

fn grandchild_exists(blocks: &Vec<BlockRecord>, a: usize) -> (r: bool)
    requires
        a < blocks@.len(),
    ensures
        r == has_grandchild(blocks@, a as int),
{
    let mut b: usize = 0;
    while b < blocks.len()
        invariant
            a < blocks@.len(),
            b <= blocks@.len(),
            forall|x: int| 0 <= x < b ==> !(justifies(blocks@, x, a as int) && has_child(blocks@, x)),
        decreases blocks@.len() - b,
    {
        if hash_eq(&blocks[b].block.justify.block_id, &blocks[a].block.id) && child_exists(blocks, b) {
            assert(blocks@[b as int].block.justify.block_id =~= blocks@[a as int].block.id);
            assert(justifies(blocks@, b as int, a as int));
            return true;
        }
        proof {
            if justifies(blocks@, b as int, a as int) {
                assert(blocks@[b as int].block.justify.block_id@ == blocks@[a as int].block.id@);
            }
        }
        b = b + 1;
    }
    false
}

fn three_chain_exists(blocks: &Vec<BlockRecord>, t: usize) -> (r: bool)
    requires
        t < blocks@.len(),
    ensures
        r == has_three_chain(blocks@, t as int),
{
    let mut a: usize = 0;
    while a < blocks.len()
        invariant
            t < blocks@.len(),
            a <= blocks@.len(),
            forall|x: int| 0 <= x < a ==> !(justifies(blocks@, x, t as int) && has_grandchild(blocks@, x)),
        decreases blocks@.len() - a,
    {
        if hash_eq(&blocks[a].block.justify.block_id, &blocks[t].block.id) && grandchild_exists(blocks, a) {
            assert(blocks@[a as int].block.justify.block_id =~= blocks@[t as int].block.id);
            assert(justifies(blocks@, a as int, t as int));
            proof {
                let b = choose|b: int| #[trigger] justifies(blocks@, b, a as int) && has_child(blocks@, b);
                let c = choose|c: int| #[trigger] justifies(blocks@, c, b);
                assert(justifies(blocks@, a as int, t as int) && justifies(blocks@, b, a as int) && justifies(
                    blocks@,
                    c,
                    b,
                ));
            }
            return true;
        }
        proof {
            if justifies(blocks@, a as int, t as int) {
                assert(blocks@[a as int].block.justify.block_id@ == blocks@[t as int].block.id@);
            }
        }
        a = a + 1;
    }
    proof {
        if has_three_chain(blocks@, t as int) {
            let (x, y, z) = choose|x: int, y: int, z: int|
                justifies(blocks@, x, t as int) && justifies(blocks@, y, x) && justifies(blocks@, z, y);
            assert(has_child(blocks@, y));
            assert(has_grandchild(blocks@, x));
        }
    }
    false
}

proof fn lemma_flags_keep_wf(ob: Seq<BlockRecord>, nb: Seq<BlockRecord>, t: int)
    requires
        commit_wf(ob),
        forall|x: int, y: int| 0 <= x < y < ob.len() ==> ob[x].block.id != ob[y].block.id,
        0 <= t < ob.len(),
        nb.len() == ob.len(),
        forall|x: int| 0 <= x < nb.len() && x != t ==> nb[x] == ob[x],
        nb[t].block.id == ob[t].block.id,
        nb[t].block.justify.block_id == ob[t].block.justify.block_id,
        nb[t].block.is_committed ==> has_three_chain(ob, t),
    ensures
        commit_wf(nb),
        forall|x: int, y: int| 0 <= x < y < nb.len() ==> nb[x].block.id != nb[y].block.id,
{
    assert forall|x: int| 0 <= x < nb.len() implies nb[x].block.id == ob[x].block.id
        && nb[x].block.justify.block_id == ob[x].block.justify.block_id by {}
    assert forall|x: int, y: int| justifies(ob, x, y) implies justifies(nb, x, y) by {
        assert(nb[x].block.justify.block_id == ob[x].block.justify.block_id);
        assert(nb[y].block.id == ob[y].block.id);
    }
    assert forall|x: int| 0 <= x < nb.len() && (#[trigger] nb[x]).block.is_committed implies has_three_chain(nb, x) by {
        if x != t {
            assert(nb[x] == ob[x]);
        }
        assert(has_three_chain(ob, x));
        let (p, q, s) = choose|p: int, q: int, s: int| justifies(ob, p, x) && justifies(ob, q, p) && justifies(ob, s, q);
        assert(justifies(nb, p, x));
        assert(justifies(nb, q, p));
        assert(justifies(nb, s, q));
    }
}

impl StoreState {
    /// Moves the high QC to `high_qc` if that one is strictly higher.
    pub fn high_qc_set(&mut self, high_qc: HighQc)
        ensures
            final(self).high_qc == advance_high_qc(old(self).high_qc, high_qc),
            final(self).blocks == old(self).blocks,
            final(self).parked_blocks == old(self).parked_blocks,
    {
        let next = match self.high_qc {
            None => Some(high_qc),
            Some(c) => if high_qc.epoch > c.epoch || (high_qc.epoch == c.epoch && high_qc.block_height
                > c.block_height) {
                Some(high_qc)
            } else {
                self.high_qc
            },
        };
        self.high_qc = next;
    }

    /// Moves the locked block to `locked_block` if that one is strictly higher.
    pub fn locked_block_set(&mut self, locked_block: BlockPointer)
        ensures
            final(self).locked_block == advance_pointer(old(self).locked_block, locked_block),
            final(self).blocks == old(self).blocks,
            final(self).parked_blocks == old(self).parked_blocks,
    {
        self.locked_block = advance(self.locked_block, locked_block);
    }

    /// Moves the leaf block to `leaf_block` if that one is strictly higher.
    pub fn leaf_block_set(&mut self, leaf_block: BlockPointer)
        ensures
            final(self).leaf_block == advance_pointer(old(self).leaf_block, leaf_block),
            final(self).blocks == old(self).blocks,
            final(self).parked_blocks == old(self).parked_blocks,
    {
        self.leaf_block = advance(self.leaf_block, leaf_block);
    }

    /// Moves the last voted block to `last_voted` if that one is strictly higher.
    pub fn last_voted_set(&mut self, last_voted: BlockPointer)
        ensures
            final(self).last_voted == advance_pointer(old(self).last_voted, last_voted),
            final(self).blocks == old(self).blocks,
            final(self).parked_blocks == old(self).parked_blocks,
    {
        self.last_voted = advance(self.last_voted, last_voted);
    }

    /// Moves the last executed block to `last_executed` if that one is strictly higher.
    pub fn last_executed_set(&mut self, last_executed: BlockPointer)
        ensures
            final(self).last_executed == advance_pointer(old(self).last_executed, last_executed),
            final(self).blocks == old(self).blocks,
            final(self).parked_blocks == old(self).parked_blocks,
    {
        self.last_executed = advance(self.last_executed, last_executed);
    }

    /// Moves the last proposed block to `last_proposed` if that one is strictly higher.
    pub fn last_proposed_set(&mut self, last_proposed: BlockPointer)
        ensures
            final(self).last_proposed == advance_pointer(old(self).last_proposed, last_proposed),
            final(self).blocks == old(self).blocks,
            final(self).parked_blocks == old(self).parked_blocks,
    {
        self.last_proposed = advance(self.last_proposed, last_proposed);
    }

    /// The three-chain rule: when block `block_id` is stored and its QC certifies a block whose
    /// QC certifies a block whose QC certifies a third, that third block is committed. Returns
    /// the committed block's id, if the chain is there.
    pub fn blocks_commit_three_chain(&mut self, block_id: &FixedHash) -> (r: Option<FixedHash>)
        requires
            old(self).wf(),
        ensures
            final(self).wf(),
            final(self).blocks@.len() == old(self).blocks@.len(),
            forall|i: int| 0 <= i < old(self).blocks@.len() && old(self).blocks@[i].block.id == *block_id ==> (
            match commit_target(old(self).blocks@, i) {
                None => r is None && final(self).blocks == old(self).blocks,
                Some(t) => r == Some(old(self).blocks@[t].block.id) && final(self).blocks@ == old(
                    self,
                ).blocks@.update(
                    t,
                    BlockRecord {
                        block: crate::model::Block { is_committed: true, ..old(self).blocks@[t].block },
                        ..old(self).blocks@[t]
                    },
                ),
            }),
            !has_id(block_ids(old(self).blocks@), *block_id) ==> r is None && final(self).blocks == old(
                self,
            ).blocks,
            final(self).parked_blocks == old(self).parked_blocks,
            final(self).transaction_pool == old(self).transaction_pool,
            final(self).transaction_pool_state_updates == old(self).transaction_pool_state_updates,
    {
        let i = match find_index(&self.blocks, block_id) {
            Some(i) => i,
            None => {
                proof {
                    assert forall|j: int| 0 <= j < block_ids(self.blocks@).len() implies block_ids(self.blocks@)[j]
                        != *block_id by {
                        assert(block_ids(self.blocks@)[j] == self.blocks@[j].block.id);
                    }
                }
                return None;
            },
        };
        proof {
            assert forall|x: int|
                0 <= x < self.blocks@.len() && self.blocks@[x].block.id == *block_id implies x == i by {}
            assert(block_ids(self.blocks@)[i as int] == *block_id);
        }
        let a = match justified_of(&self.blocks, i) {
            Some(a) => a,
            None => {
                return None;
            },
        };
        let b = match justified_of(&self.blocks, a) {
            Some(b) => b,
            None => {
                return None;
            },
        };
        let t = match justified_of(&self.blocks, b) {
            Some(t) => t,
            None => {
                return None;
            },
        };
        let ghost old_blocks = self.blocks@;
        let mut rec = self.blocks.remove(t);
        rec.block.is_committed = true;
        let id = rec.block.id;
        self.blocks.insert(t, rec);
        proof {
            let nb = self.blocks@;
            assert(nb =~= old_blocks.update(
                t as int,
                BlockRecord {
                    block: crate::model::Block { is_committed: true, ..old_blocks[t as int].block },
                    ..old_blocks[t as int]
                },
            ));
            lemma_mark_committed(old_blocks, nb, i as int, a as int, b as int, t as int);
        }
        Some(id)
    }

    /// Sets the flags of a stored block; `None` leaves a flag as it is. A block can be marked
    /// committed only when three stored blocks extend it, each certifying the one before. A
    /// block that is not stored is left alone.
    pub fn blocks_set_flags(&mut self, block_id: &FixedHash, is_committed: Option<bool>, is_processed: Option<
        bool,
    >) -> (r: Result<(), StorageError>)
        requires
            old(self).wf(),
        ensures
            final(self).wf(),
            final(self).blocks@.len() == old(self).blocks@.len(),
            final(self).parked_blocks == old(self).parked_blocks,
            !has_id(block_ids(old(self).blocks@), *block_id) ==> r is Ok && final(self).blocks == old(self).blocks,
            forall|i: int|
                0 <= i < old(self).blocks@.len() && old(self).blocks@[i].block.id == *block_id ==> ({
                    let o = old(self).blocks@[i];
                    if is_committed == Some(true) && !has_three_chain(old(self).blocks@, i) {
                        r == Err::<(), StorageError>(
                            StorageError::QueryError { reason: QueryErrorReason::NoThreeChain },
                        ) && final(self).blocks == old(self).blocks
                    } else {
                        r is Ok && final(self).blocks@ == old(self).blocks@.update(
                            i,
                            BlockRecord {
                                block: crate::model::Block {
                                    is_committed: match is_committed {
                                        Some(c) => c,
                                        None => o.block.is_committed,
                                    },
                                    is_processed: match is_processed {
                                        Some(p) => p,
                                        None => o.block.is_processed,
                                    },
                                    ..o.block
                                },
                                ..o
                            },
                        )
                    }
                }),
    {
        let i = match find_index(&self.blocks, block_id) {
            Some(i) => i,
            None => {
                proof {
                    assert forall|j: int| 0 <= j < block_ids(self.blocks@).len() implies block_ids(self.blocks@)[j]
                        != *block_id by {
                        assert(block_ids(self.blocks@)[j] == self.blocks@[j].block.id);
                    }
                }
                return Ok(());
            },
        };
        proof {
            assert forall|x: int|
                0 <= x < self.blocks@.len() && self.blocks@[x].block.id == *block_id implies x == i by {}
            assert(block_ids(self.blocks@)[i as int] == *block_id);
        }
        if is_committed == Some(true) && !three_chain_exists(&self.blocks, i) {
            return Err(StorageError::QueryError { reason: QueryErrorReason::NoThreeChain });
        }
        let ghost ob = self.blocks@;
        let mut rec = self.blocks.remove(i);
        if let Some(c) = is_committed {
            rec.block.is_committed = c;
        }
        if let Some(p) = is_processed {
            rec.block.is_processed = p;
        }
        self.blocks.insert(i, rec);
        proof {
            assert(self.blocks@ =~= ob.update(i as int, rec));
            lemma_flags_keep_wf(ob, self.blocks@, i as int);
        }
        Ok(())
    }
}

/// Within an epoch, moving a pointer never lowers its height; it never moves to an earlier
/// epoch either.
pub proof fn lemma_pointer_monotone(cur: BlockPointer, new: BlockPointer)
    ensures
        advance_pointer(Some(cur), new) matches Some(p) && (p.epoch > cur.epoch || (p.epoch == cur.epoch
            && p.height >= cur.height)),
{
}

/// Within an epoch, moving the high QC never lowers its height; it never moves to an earlier
/// epoch either.
pub proof fn lemma_high_qc_monotone(cur: HighQc, new: HighQc)
    ensures
        advance_high_qc(Some(cur), new) matches Some(p) && (p.epoch > cur.epoch || (p.epoch == cur.epoch
            && p.block_height >= cur.block_height)),
{
}

} // verus!
