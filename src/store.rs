use vstd::prelude::*;

use crate::hash::{hash_eq, hex_chars, to_hex, FixedHash};
use crate::model::{Block, QuorumCertificate};

verus! {

/// Errors of the state store. "Not found" is a variant of its own.
#[derive(Clone, Debug, PartialEq, Eq)]
pub enum StorageError {
    NotFound { item: &'static str, key: String },
    QueryError { reason: QueryErrorReason },
    NotAllTransactionsFound { operation: &'static str, found: u64, queried: u64 },
}

/// Why a write was refused.
#[derive(Clone, Copy, Debug, PartialEq, Eq, Structural)]
pub enum QueryErrorReason {
    /// A row with the same key is already stored.
    DuplicateKey,
    /// A block that is already in the chain cannot be parked.
    BlockAlreadyStored,
    /// A destroyed substate cannot be created.
    SubstateAlreadyDestroyed,
    /// The lock conflicts with a lock already held on the same substate version.
    LockConflict,
    /// The pending update does not move the transaction to the next pool stage.
    InvalidStageTransition,
    /// A block without a three-chain above it cannot be marked committed.
    NoThreeChain,
}

/// A block as the `blocks` table holds it.
#[derive(Clone, Debug)]
pub struct BlockRecord {
    pub block: Block,
    /// The block's timestamp minus that of its parent, when the parent is stored and not later.
    pub block_time: Option<u64>,
}

/// A transaction that a parked block is waiting for.
#[derive(Clone, Copy, Debug)]
pub struct MissingTransaction {
    pub block_id: FixedHash,
    pub block_height: u64,
    pub transaction_id: FixedHash,
    pub is_awaiting_execution: bool,
}

/// Every record the consensus core keeps.
pub struct StoreState {
    pub blocks: Vec<BlockRecord>,
    pub quorum_certificates: Vec<QuorumCertificate>,
    pub parked_blocks: Vec<Block>,
    pub missing_transactions: Vec<MissingTransaction>,
    pub transaction_pool: Vec<crate::pool::TransactionPoolRecord>,
    pub transaction_pool_state_updates: Vec<crate::pool::TransactionPoolStatusUpdate>,
    pub substates: Vec<crate::substate::SubstateRecord>,
    pub state_transitions: Vec<crate::substate::StateTransition>,
    pub state_tree_shard_versions: Vec<crate::substate::ShardVersion>,
    pub substate_locks: Vec<crate::substate::SubstateLockRecord>,
    pub transactions: Vec<crate::transaction::TransactionRecord>,
    pub transaction_executions: Vec<crate::transaction::TransactionExecution>,
    pub protocol: crate::records::ProtocolRecords,
    pub pending_state_tree_diffs: Vec<crate::pending::PendingStateTreeDiff>,
    pub block_diffs: Vec<crate::diffs::BlockDiffRow>,
    pub high_qc: Option<crate::chain::HighQc>,
    pub locked_block: Option<crate::pool::BlockPointer>,
    pub leaf_block: Option<crate::pool::BlockPointer>,
    pub last_voted: Option<crate::pool::BlockPointer>,
    pub last_executed: Option<crate::pool::BlockPointer>,
    pub last_proposed: Option<crate::pool::BlockPointer>,
}

/// `ids` holds `id`.
pub open spec fn has_id(ids: Seq<FixedHash>, id: FixedHash) -> bool {
    exists|i: int| 0 <= i < ids.len() && ids[i] == id
}

/// Whether a list of identifiers holds `id`.
pub fn ids_contain(ids: &Vec<FixedHash>, id: &FixedHash) -> (r: bool)
    ensures
        r == has_id(ids@, *id),
{
    let mut i: usize = 0;
    while i < ids.len()
        invariant
            i <= ids@.len(),
            forall|j: int| 0 <= j < i ==> ids@[j] != *id,
        decreases ids@.len() - i,
    {
        if hash_eq(&ids[i], id) {
            assert(ids@[i as int] =~= *id);
            return true;
        }
        i = i + 1;
    }
    false
}

pub open spec fn block_ids(blocks: Seq<BlockRecord>) -> Seq<FixedHash> {
    blocks.map_values(|r: BlockRecord| r.block.id)
}

pub open spec fn parked_ids(blocks: Seq<Block>) -> Seq<FixedHash> {
    blocks.map_values(|b: Block| b.id)
}

/// Index of the stored block with id `id`, if any.
fn find_block(blocks: &Vec<BlockRecord>, id: &FixedHash) -> (r: Option<usize>)
    ensures
        r matches Some(i) ==> i < blocks@.len() && blocks@[i as int].block.id == *id,
        r is None ==> !has_id(block_ids(blocks@), *id),
{
    let mut i: usize = 0;
    while i < blocks.len()
        invariant
            i <= blocks@.len(),
            forall|j: int| 0 <= j < i ==> blocks@[j].block.id != *id,
        decreases blocks@.len() - i,
    {
        if hash_eq(&blocks[i].block.id, id) {
            assert(blocks@[i as int].block.id =~= *id);
            return Some(i);
        }
        i = i + 1;
    }
    proof {
        assert forall|j: int| 0 <= j < block_ids(blocks@).len() implies block_ids(blocks@)[j] != *id by {
            assert(block_ids(blocks@)[j] == blocks@[j].block.id);
        }
    }
    None
}

/// Index of the parked block with id `id`, if any.
fn find_parked(blocks: &Vec<Block>, id: &FixedHash) -> (r: Option<usize>)
    ensures
        r matches Some(i) ==> i < blocks@.len() && blocks@[i as int].id == *id,
        r is None ==> !has_id(parked_ids(blocks@), *id),
{
    let mut i: usize = 0;
    while i < blocks.len()
        invariant
            i <= blocks@.len(),
            forall|j: int| 0 <= j < i ==> blocks@[j].id != *id,
        decreases blocks@.len() - i,
    {
        if hash_eq(&blocks[i].id, id) {
            assert(blocks@[i as int].id =~= *id);
            return Some(i);
        }
        i = i + 1;
    }
    proof {
        assert forall|j: int| 0 <= j < parked_ids(blocks@).len() implies parked_ids(blocks@)[j] != *id by {
            assert(parked_ids(blocks@)[j] == blocks@[j].id);
        }
    }
    None
}

/// The rows of `missing_transactions` that remain after removing those of `tx`.
pub open spec fn without_transaction(rows: Seq<MissingTransaction>, tx: FixedHash) -> Seq<MissingTransaction>
    decreases rows.len(),
{
    if rows.len() == 0 {
        seq![]
    } else {
        let rest = without_transaction(rows.drop_last(), tx);
        if rows.last().transaction_id == tx {
            rest
        } else {
            rest.push(rows.last())
        }
    }
}

/// The rows that remain after removing those below `height`.
pub open spec fn without_lower(rows: Seq<MissingTransaction>, height: u64) -> Seq<MissingTransaction>
    decreases rows.len(),
{
    if rows.len() == 0 {
        seq![]
    } else {
        let rest = without_lower(rows.drop_last(), height);
        if rows.last().block_height < height {
            rest
        } else {
            rest.push(rows.last())
        }
    }
}

/// The block that the first row of `tx` at `height` waits on.
pub open spec fn first_waiting_block(rows: Seq<MissingTransaction>, tx: FixedHash, height: u64) -> Option<
    FixedHash,
>
    decreases rows.len(),
{
    if rows.len() == 0 {
        None
    } else if rows[0].transaction_id == tx && rows[0].block_height == height {
        Some(rows[0].block_id)
    } else {
        first_waiting_block(rows.subrange(1, rows.len() as int), tx, height)
    }
}

pub open spec fn waits_on(rows: Seq<MissingTransaction>, block_id: FixedHash) -> bool {
    exists|i: int| 0 <= i < rows.len() && rows[i].block_id == block_id
}

fn keep_other_transactions(rows: &Vec<MissingTransaction>, tx: &FixedHash) -> (r: Vec<MissingTransaction>)
    ensures
        r@ == without_transaction(rows@, *tx),
{
    let mut out: Vec<MissingTransaction> = Vec::new();
    let mut i: usize = 0;
    while i < rows.len()
        invariant
            i <= rows@.len(),
            out@ == without_transaction(rows@.subrange(0, i as int), *tx),
        decreases rows@.len() - i,
    {
        let row = rows[i];
        proof {
            assert(rows@.subrange(0, i as int + 1).drop_last() =~= rows@.subrange(0, i as int));
        }
        if !hash_eq(&row.transaction_id, tx) {
            out.push(row);
        } else {
            assert(row.transaction_id =~= *tx);
        }
        i = i + 1;
    }
    assert(rows@.subrange(0, rows@.len() as int) =~= rows@);
    out
}

fn keep_from_height(rows: &Vec<MissingTransaction>, height: u64) -> (r: Vec<MissingTransaction>)
    ensures
        r@ == without_lower(rows@, height),
{
    let mut out: Vec<MissingTransaction> = Vec::new();
    let mut i: usize = 0;
    while i < rows.len()
        invariant
            i <= rows@.len(),
            out@ == without_lower(rows@.subrange(0, i as int), height),
        decreases rows@.len() - i,
    {
        let row = rows[i];
        proof {
            assert(rows@.subrange(0, i as int + 1).drop_last() =~= rows@.subrange(0, i as int));
        }
        if row.block_height >= height {
            out.push(row);
        }
        i = i + 1;
    }
    assert(rows@.subrange(0, rows@.len() as int) =~= rows@);
    out
}

fn find_waiting_block(rows: &Vec<MissingTransaction>, tx: &FixedHash, height: u64) -> (r: Option<FixedHash>)
    ensures
        r == first_waiting_block(rows@, *tx, height),
{
    let mut i: usize = 0;
    assert(rows@.subrange(0, rows@.len() as int) =~= rows@);
    while i < rows.len()
        invariant
            i <= rows@.len(),
            first_waiting_block(rows@, *tx, height) == first_waiting_block(
                rows@.subrange(i as int, rows@.len() as int),
                *tx,
                height,
            ),
        decreases rows@.len() - i,
    {
        let ghost tail = rows@.subrange(i as int, rows@.len() as int);
        assert(tail[0] == rows@[i as int]);
        assert(tail.subrange(1, tail.len() as int) =~= rows@.subrange(i as int + 1, rows@.len() as int));
        if rows[i].block_height == height && hash_eq(&rows[i].transaction_id, tx) {
            assert(rows@[i as int].transaction_id =~= *tx);
            return Some(rows[i].block_id);
        }
        i = i + 1;
    }
    assert(rows@.subrange(rows@.len() as int, rows@.len() as int).len() == 0);
    None
}

fn any_waits_on(rows: &Vec<MissingTransaction>, block_id: &FixedHash) -> (r: bool)
    ensures
        r == waits_on(rows@, *block_id),
{
    let mut i: usize = 0;
    while i < rows.len()
        invariant
            i <= rows@.len(),
            forall|j: int| 0 <= j < i ==> rows@[j].block_id != *block_id,
        decreases rows@.len() - i,
    {
        if hash_eq(&rows[i].block_id, block_id) {
            assert(rows@[i as int].block_id =~= *block_id);
            return true;
        }
        i = i + 1;
    }
    false
}

impl StoreState {
    /// An empty store.
    pub fn new() -> (r: StoreState)
        ensures
            r.blocks@.len() == 0,
            r.quorum_certificates@.len() == 0,
            r.parked_blocks@.len() == 0,
            r.missing_transactions@.len() == 0,
            r.transaction_pool@.len() == 0,
            r.transaction_pool_state_updates@.len() == 0,
            r.substates@.len() == 0,
            r.state_transitions@.len() == 0,
            r.state_tree_shard_versions@.len() == 0,
            r.substate_locks@.len() == 0,
            r.transactions@.len() == 0,
            r.transaction_executions@.len() == 0,
            r.high_qc is None && r.locked_block is None && r.leaf_block is None,
            r.last_voted is None && r.last_executed is None && r.last_proposed is None,
            r.wf(),
    {
        StoreState {
            blocks: Vec::new(),
            quorum_certificates: Vec::new(),
            parked_blocks: Vec::new(),
            missing_transactions: Vec::new(),
            transaction_pool: Vec::new(),
            transaction_pool_state_updates: Vec::new(),
            substates: Vec::new(),
            state_transitions: Vec::new(),
            state_tree_shard_versions: Vec::new(),
            substate_locks: Vec::new(),
            transactions: Vec::new(),
            transaction_executions: Vec::new(),
            protocol: crate::records::ProtocolRecords::new(),
            pending_state_tree_diffs: Vec::new(),
            block_diffs: Vec::new(),
            high_qc: None,
            locked_block: None,
            leaf_block: None,
            last_voted: None,
            last_executed: None,
            last_proposed: None,
        }
    }

    /// Block ids are unique, as are parked block ids; only a block with a three-chain above it
    /// is committed.
    pub open spec fn wf(&self) -> bool {
        &&& crate::chain::commit_wf(self.blocks@)
        &&& forall|i: int, j: int|
            0 <= i < j < self.blocks@.len() ==> self.blocks@[i].block.id != self.blocks@[j].block.id
        &&& forall|i: int, j: int|
            0 <= i < j < self.parked_blocks@.len() ==> self.parked_blocks@[i].id
                != self.parked_blocks@[j].id
    }

    /// Whether a block with this id is stored.
    pub open spec fn has_block(&self, id: FixedHash) -> bool {
        has_id(block_ids(self.blocks@), id)
    }

    pub fn blocks_exists(&self, id: &FixedHash) -> (r: bool)
        ensures
            r == self.has_block(*id),
    {
        match find_block(&self.blocks, id) {
            Some(i) => {
                assert(block_ids(self.blocks@)[i as int] == *id);
                true
            },
            None => false,
        }
    }

    /// Stores a block, not committed. Its `block_time` is its timestamp minus that of its parent
    /// block. A block id that is already stored is refused.
    pub fn blocks_insert(&mut self, block: Block) -> (r: Result<(), StorageError>)
        requires
            old(self).wf(),
        ensures
            final(self).wf(),
            old(self).has_block(block.id) ==> r == Err::<(), StorageError>(
                StorageError::QueryError { reason: QueryErrorReason::DuplicateKey },
            ) && *final(self) == *old(self),
            !old(self).has_block(block.id) ==> r is Ok && final(self).blocks@.len() == old(self).blocks@.len() + 1
                && final(self).blocks@.drop_last() == old(self).blocks@ && final(self).blocks@.last().block
                == (Block { is_committed: false, ..block }) && final(self).quorum_certificates == old(self).quorum_certificates
                && final(self).parked_blocks == old(self).parked_blocks
                && final(self).missing_transactions == old(self).missing_transactions,
            !old(self).has_block(block.id) ==> final(self).blocks@.last().block_time == (
                if exists|i: int|
                    0 <= i < old(self).blocks@.len() && old(self).blocks@[i].block.id == block.parent {
                    let p = choose|i: int|
                        0 <= i < old(self).blocks@.len() && old(self).blocks@[i].block.id
                            == block.parent;
                    let pt = old(self).blocks@[p].block.timestamp;
                    if pt <= block.timestamp {
                        Some((block.timestamp - pt) as u64)
                    } else {
                        None
                    }
                } else {
                    None
                }),
    {
        if self.blocks_exists(&block.id) {
            return Err(StorageError::QueryError { reason: QueryErrorReason::DuplicateKey });
        }
        let block_time = match find_block(&self.blocks, &block.parent) {
            Some(p) => {
                let ghost g = p as int;
                proof {
                    let c = choose|i: int|
                        0 <= i < self.blocks@.len() && self.blocks@[i].block.id == block.parent;
                    if c != g {
                        assert(self.blocks@[c].block.id == self.blocks@[g].block.id);
                    }
                }
                let pt = self.blocks[p].block.timestamp;
                if pt <= block.timestamp {
                    Some(block.timestamp - pt)
                } else {
                    None
                }
            },
            None => {
                proof {
                    assert forall|i: int| 0 <= i < self.blocks@.len() implies self.blocks@[i].block.id
                        != block.parent by {
                        assert(block_ids(self.blocks@)[i] == self.blocks@[i].block.id);
                    }
                }
                None
            },
        };
        proof {
            assert forall|i: int| 0 <= i < self.blocks@.len() implies self.blocks@[i].block.id != block.id by {
                assert(block_ids(self.blocks@)[i] == self.blocks@[i].block.id);
            }
        }
        let mut block = block;
        block.is_committed = false;
        let ghost ob = self.blocks@;
        self.blocks.push(BlockRecord { block, block_time });
        proof {
            let nb = self.blocks@;
            assert(nb.drop_last() =~= ob);
            assert forall|x: int, y: int| crate::chain::justifies(ob, x, y) implies crate::chain::justifies(nb, x, y) by {
                assert(nb[x] == ob[x] && nb[y] == ob[y]);
            }
            assert forall|x: int| 0 <= x < nb.len() && (#[trigger] nb[x]).block.is_committed implies crate::chain::has_three_chain(
                nb,
                x,
            ) by {
                assert(nb[x] == ob[x]);
                let (p, q, r) = choose|p: int, q: int, r: int|
                    crate::chain::justifies(ob, p, x) && crate::chain::justifies(ob, q, p) && crate::chain::justifies(ob, r, q);
                assert(crate::chain::justifies(nb, p, x));
                assert(crate::chain::justifies(nb, q, p));
                assert(crate::chain::justifies(nb, r, q));
            }
        }
        Ok(())
    }

    /// Stores a QC.
    pub fn quorum_certificates_insert(&mut self, qc: QuorumCertificate)
        ensures
            final(self).quorum_certificates@ == old(self).quorum_certificates@.push(qc),
            final(self).blocks == old(self).blocks,
            final(self).parked_blocks == old(self).parked_blocks,
            final(self).missing_transactions == old(self).missing_transactions,
    {
        self.quorum_certificates.push(qc);
    }

    /// Parks a fully received block whose transactions are not all known yet. A block that is
    /// already in the chain is refused; one that is already parked is left as it is.
    pub fn parked_blocks_insert(&mut self, block: Block) -> (r: Result<(), StorageError>)
        requires
            old(self).wf(),
        ensures
            final(self).wf(),
            final(self).blocks == old(self).blocks,
            final(self).quorum_certificates == old(self).quorum_certificates,
            final(self).missing_transactions == old(self).missing_transactions,
            final(self).transaction_pool == old(self).transaction_pool,
            final(self).transaction_pool_state_updates == old(self).transaction_pool_state_updates,
            r is Err ==> *final(self) == *old(self),
            old(self).has_block(block.id) ==> r == Err::<(), StorageError>(
                StorageError::QueryError { reason: QueryErrorReason::BlockAlreadyStored },
            ) && final(self).parked_blocks == old(self).parked_blocks,
            !old(self).has_block(block.id) ==> r is Ok,
            !old(self).has_block(block.id) && has_id(parked_ids(old(self).parked_blocks@), block.id)
                ==> final(self).parked_blocks == old(self).parked_blocks,
            !old(self).has_block(block.id) && !has_id(parked_ids(old(self).parked_blocks@), block.id)
                ==> final(self).parked_blocks@ == old(self).parked_blocks@.push(block),
    {
        if self.blocks_exists(&block.id) {
            return Err(StorageError::QueryError { reason: QueryErrorReason::BlockAlreadyStored });
        }
        match find_parked(&self.parked_blocks, &block.id) {
            Some(i) => {
                proof {
                    assert(parked_ids(self.parked_blocks@)[i as int] == block.id);
                }
                Ok(())
            },
            None => {
                proof {
                    assert forall|i: int| 0 <= i < self.parked_blocks@.len() implies self.parked_blocks@[i].id
                        != block.id by {
                        assert(parked_ids(self.parked_blocks@)[i] == self.parked_blocks@[i].id);
                    }
                }
                self.parked_blocks.push(block);
                Ok(())
            },
        }
    }

    /// Takes a parked block out of the store.
    pub fn parked_blocks_remove(&mut self, block_id: &FixedHash) -> (r: Result<Block, StorageError>)
        requires
            old(self).wf(),
        ensures
            final(self).wf(),
            final(self).blocks == old(self).blocks,
            final(self).quorum_certificates == old(self).quorum_certificates,
            final(self).missing_transactions == old(self).missing_transactions,
            has_id(parked_ids(old(self).parked_blocks@), *block_id) <==> r is Ok,
            r matches Ok(b) ==> b.id == *block_id && exists|i: int|
                0 <= i < old(self).parked_blocks@.len() && old(self).parked_blocks@[i] == b
                    && final(self).parked_blocks@ == old(self).parked_blocks@.remove(i),
            r is Err ==> final(self).parked_blocks == old(self).parked_blocks && not_found(r, "parked_blocks", *block_id),
    {
        match find_parked(&self.parked_blocks, block_id) {
            Some(i) => {
                proof {
                    assert(parked_ids(self.parked_blocks@)[i as int] == *block_id);
                }
                let b = self.parked_blocks.remove(i);
                proof {
                    assert forall|x: int, y: int| 0 <= x < y < self.parked_blocks@.len() implies self.parked_blocks@[x].id
                        != self.parked_blocks@[y].id by {
                        let ox = if x < i { x } else { x + 1 };
                        let oy = if y < i { y } else { y + 1 };
                        assert(self.parked_blocks@[x] == old(self).parked_blocks@[ox]);
                        assert(self.parked_blocks@[y] == old(self).parked_blocks@[oy]);
                    }
                }
                Ok(b)
            },
            None => Err(StorageError::NotFound { item: "parked_blocks", key: to_hex(block_id) }),
        }
    }

    /// Parks `block` and records the transactions it waits for: the missing ones, then those
    /// awaiting execution.
    pub fn missing_transactions_insert(
        &mut self,
        block: Block,
        missing_transaction_ids: &Vec<FixedHash>,
        awaiting_transaction_ids: &Vec<FixedHash>,
    ) -> (r: Result<(), StorageError>)
        requires
            old(self).wf(),
        ensures
            final(self).wf(),
            old(self).has_block(block.id) <==> r is Err,
            r is Err ==> *final(self) == *old(self),
            r is Ok ==> final(self).missing_transactions@ == old(self).missing_transactions@ + missing_transaction_ids@.map_values(
                |t: FixedHash|
                    MissingTransaction {
                        block_id: block.id,
                        block_height: block.height,
                        transaction_id: t,
                        is_awaiting_execution: false,
                    },
            ) + awaiting_transaction_ids@.map_values(
                |t: FixedHash|
                    MissingTransaction {
                        block_id: block.id,
                        block_height: block.height,
                        transaction_id: t,
                        is_awaiting_execution: true,
                    },
            ),
            r is Ok ==> has_id(parked_ids(final(self).parked_blocks@), block.id),
            r is Ok && has_id(parked_ids(old(self).parked_blocks@), block.id) ==> final(self).parked_blocks
                == old(self).parked_blocks,
            r is Ok && !has_id(parked_ids(old(self).parked_blocks@), block.id) ==> final(self).parked_blocks@
                == old(self).parked_blocks@.push(block),
    {
        let block_id = block.id;
        let block_height = block.height;
        let ghost old_parked = self.parked_blocks@;
        self.parked_blocks_insert(block)?;
        let ghost parked_after = self.parked_blocks;
        proof {
            if has_id(parked_ids(old_parked), block_id) {
                assert(parked_ids(self.parked_blocks@) == parked_ids(old_parked));
            } else {
                let n = old_parked.len() as int;
                assert(parked_ids(self.parked_blocks@)[n] == block_id);
            }
        }
        let ghost start = self.missing_transactions@;
        let mut i: usize = 0;
        while i < missing_transaction_ids.len()
            invariant
                i <= missing_transaction_ids@.len(),
                self.wf(),
                has_id(parked_ids(self.parked_blocks@), block_id),
                self.parked_blocks == parked_after,
                self.missing_transactions@ == start + missing_transaction_ids@.subrange(0, i as int).map_values(
                    |t: FixedHash|
                        MissingTransaction {
                            block_id: block_id,
                            block_height: block_height,
                            transaction_id: t,
                            is_awaiting_execution: false,
                        },
                ),
            decreases missing_transaction_ids@.len() - i,
        {
            self.missing_transactions.push(
                MissingTransaction {
                    block_id,
                    block_height,
                    transaction_id: missing_transaction_ids[i],
                    is_awaiting_execution: false,
                },
            );
            proof {
                assert(missing_transaction_ids@.subrange(0, i as int + 1) =~= missing_transaction_ids@.subrange(
                    0,
                    i as int,
                ).push(missing_transaction_ids@[i as int]));
                assert(self.missing_transactions@ =~= start + missing_transaction_ids@.subrange(0, i as int + 1).map_values(
                    |t: FixedHash|
                        MissingTransaction {
                            block_id: block_id,
                            block_height: block_height,
                            transaction_id: t,
                            is_awaiting_execution: false,
                        },
                ));
            }
            i = i + 1;
        }
        assert(missing_transaction_ids@.subrange(0, missing_transaction_ids@.len() as int)
            =~= missing_transaction_ids@);
        let ghost mid = self.missing_transactions@;
        let mut k: usize = 0;
        while k < awaiting_transaction_ids.len()
            invariant
                k <= awaiting_transaction_ids@.len(),
                self.wf(),
                has_id(parked_ids(self.parked_blocks@), block_id),
                self.parked_blocks == parked_after,
                self.missing_transactions@ == mid + awaiting_transaction_ids@.subrange(0, k as int).map_values(
                    |t: FixedHash|
                        MissingTransaction {
                            block_id: block_id,
                            block_height: block_height,
                            transaction_id: t,
                            is_awaiting_execution: true,
                        },
                ),
            decreases awaiting_transaction_ids@.len() - k,
        {
            self.missing_transactions.push(
                MissingTransaction {
                    block_id,
                    block_height,
                    transaction_id: awaiting_transaction_ids[k],
                    is_awaiting_execution: true,
                },
            );
            proof {
                assert(awaiting_transaction_ids@.subrange(0, k as int + 1) =~= awaiting_transaction_ids@.subrange(
                    0,
                    k as int,
                ).push(awaiting_transaction_ids@[k as int]));
                assert(self.missing_transactions@ =~= mid + awaiting_transaction_ids@.subrange(0, k as int + 1).map_values(
                    |t: FixedHash|
                        MissingTransaction {
                            block_id: block_id,
                            block_height: block_height,
                            transaction_id: t,
                            is_awaiting_execution: true,
                        },
                ));
            }
            k = k + 1;
        }
        assert(awaiting_transaction_ids@.subrange(0, awaiting_transaction_ids@.len() as int)
            =~= awaiting_transaction_ids@);
        Ok(())
    }

    /// Records that transaction `transaction_id` has arrived. When the block it was awaited for
    /// at `current_height` no longer waits on anything, the rows of lower heights are dropped
    /// and that block leaves the parked blocks and is returned for re-entry.
    pub fn missing_transactions_remove(&mut self, current_height: u64, transaction_id: &FixedHash) -> (r:
        Result<Option<Block>, StorageError>)
        requires
            old(self).wf(),
        ensures
            final(self).wf(),
            final(self).blocks == old(self).blocks,
            final(self).quorum_certificates == old(self).quorum_certificates,
            first_waiting_block(old(self).missing_transactions@, *transaction_id, current_height) is None
                ==> r == Ok::<Option<Block>, StorageError>(None) && *final(self) == *old(self),
            first_waiting_block(old(self).missing_transactions@, *transaction_id, current_height) matches Some(bid)
                ==> ({
                let after = without_transaction(old(self).missing_transactions@, *transaction_id);
                if waits_on(after, bid) {
                    r == Ok::<Option<Block>, StorageError>(None) && final(self).missing_transactions@ == after
                        && final(self).parked_blocks == old(self).parked_blocks
                } else {
                    &&& final(self).missing_transactions@ == without_lower(after, current_height)
                    &&& has_id(parked_ids(old(self).parked_blocks@), bid) ==> (r matches Ok(Some(b)) && b.id
                        == bid && exists|i: int|
                        0 <= i < old(self).parked_blocks@.len() && old(self).parked_blocks@[i] == b
                            && final(self).parked_blocks@ == old(self).parked_blocks@.remove(i))
                    &&& !has_id(parked_ids(old(self).parked_blocks@), bid) ==> not_found(
                        r,
                        "parked_blocks",
                        bid,
                    ) && final(self).parked_blocks == old(self).parked_blocks
                }
            }),
    {
        let block_id = match find_waiting_block(&self.missing_transactions, transaction_id, current_height) {
            Some(b) => b,
            None => {
                return Ok(None);
            },
        };
        let remaining = keep_other_transactions(&self.missing_transactions, transaction_id);
        if any_waits_on(&remaining, &block_id) {
            self.missing_transactions = remaining;
            return Ok(None);
        }
        self.missing_transactions = keep_from_height(&remaining, current_height);
        let block = self.parked_blocks_remove(&block_id)?;
        Ok(Some(block))
    }
}

/// `r` is the "not found" error for `item`, keyed by the hex form of `key`.
pub open spec fn not_found<T>(r: Result<T, StorageError>, item: &'static str, key: FixedHash) -> bool {
    r matches Err(StorageError::NotFound { item: i, key: k }) && i == item && k@ == hex_chars(key@)
}

/// A write transaction on the consensus store. Changes go to its own copy of the store's
/// records and become the store's state only when it commits; dropping it rolls them back.
pub struct SqliteStateStoreWriteTransaction {
    pub store: StoreState,
}

impl SqliteStateStoreWriteTransaction {
    /// Opens a write transaction over the store's current records.
    pub fn new(store: StoreState) -> (r: SqliteStateStoreWriteTransaction)
        ensures
            r.store == store,
    {
        SqliteStateStoreWriteTransaction { store }
    }

    /// Ends the transaction; its records become the store's state.
    pub fn commit(self) -> (r: StoreState)
        ensures
            r == self.store,
    {
        self.store
    }

    /// Ends the transaction and discards its changes.
    pub fn rollback(self) {
    }
}

} // verus!
