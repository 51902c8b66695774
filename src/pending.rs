use indexmap::IndexMap;
use vstd::prelude::*;

use crate::hash::{hash_eq, FixedHash};
use crate::state_tree::LeafChange;
use crate::store::{block_ids, StoreState};

verus! {

/// A state tree diff of one shard, computed for a block that is not committed yet.
#[derive(Debug)]
pub struct PendingStateTreeDiff {
    pub block_id: FixedHash,
    pub block_height: u64,
    pub shard: u32,
    pub version: u64,
    pub diff: Vec<LeafChange>,
}

/// An insertion-ordered map from keys to values, from the indexmap crate.
#[verifier::external_type_specification]
#[verifier::external_body]
#[verifier::reject_recursive_types(K)]
#[verifier::reject_recursive_types(V)]
#[verifier::reject_recursive_types(S)]
pub struct ExIndexMap<K, V, S>(IndexMap<K, V, S>);

/// The groups of a map of pending diffs by shard: each shard with its diffs, in the order the
/// shards were first inserted.
pub uninterp spec fn diff_groups(m: IndexMap<u32, Vec<PendingStateTreeDiff>>) -> Seq<(u32, Seq<PendingStateTreeDiff>)>;

/// Relies on indexmap::IndexMap::new: the map starts empty.
#[verifier::external_body]
fn new_groups() -> (r: IndexMap<u32, Vec<PendingStateTreeDiff>>)
    ensures
        diff_groups(r) == Seq::<(u32, Seq<PendingStateTreeDiff>)>::empty(),
{
    IndexMap::new()
}

/// The position of `shard`'s group, if it has one.
pub open spec fn group_index(groups: Seq<(u32, Seq<PendingStateTreeDiff>)>, shard: u32) -> Option<int> {
    if exists|i: int| 0 <= i < groups.len() && groups[i].0 == shard {
        Some(choose|i: int| 0 <= i < groups.len() && groups[i].0 == shard)
    } else {
        None
    }
}

/// The groups after `d` joins the group of `shard`: the end of it when the shard has a group,
/// a new group at the end otherwise.
pub open spec fn add_to_group(groups: Seq<(u32, Seq<PendingStateTreeDiff>)>, shard: u32, d: PendingStateTreeDiff) -> Seq<
    (u32, Seq<PendingStateTreeDiff>),
> {
    match group_index(groups, shard) {
        Some(i) => groups.update(i, (shard, groups[i].1.push(d))),
        None => groups.push((shard, seq![d])),
    }
}

/// Keys of a map are distinct.
pub open spec fn groups_distinct(groups: Seq<(u32, Seq<PendingStateTreeDiff>)>) -> bool {
    forall|i: int, j: int| 0 <= i < j < groups.len() ==> groups[i].0 != groups[j].0
}

/// Relies on indexmap::IndexMap::entry and Entry::or_default: an existing key keeps its
/// position and its value is handed out; a new key is appended with an empty vector. The
/// diff is then pushed onto that vector. Keys stay distinct.
#[verifier::external_body]
fn push_to_group(m: &mut IndexMap<u32, Vec<PendingStateTreeDiff>>, shard: u32, d: PendingStateTreeDiff)
    ensures
        groups_distinct(diff_groups(*old(m))) ==> groups_distinct(diff_groups(*final(m))),
        groups_distinct(diff_groups(*old(m))) ==> diff_groups(*final(m)) == add_to_group(
            diff_groups(*old(m)),
            shard,
            d,
        ),
{
    m.entry(shard).or_default().push(d);
}

/// The diffs kept for other blocks.
pub open spec fn diffs_not_of(ds: Seq<PendingStateTreeDiff>, block_id: FixedHash) -> Seq<PendingStateTreeDiff>
    decreases ds.len(),
{
    if ds.len() == 0 {
        seq![]
    } else {
        let rest = diffs_not_of(ds.drop_last(), block_id);
        if ds.last().block_id == block_id {
            rest
        } else {
            rest.push(ds.last())
        }
    }
}

/// The diffs of `block_id`, grouped by shard in the order they were stored.
pub open spec fn groups_of(ds: Seq<PendingStateTreeDiff>, block_id: FixedHash) -> Seq<(u32, Seq<PendingStateTreeDiff>)>
    decreases ds.len(),
{
    if ds.len() == 0 {
        seq![]
    } else {
        let rest = groups_of(ds.drop_last(), block_id);
        if ds.last().block_id == block_id {
            add_to_group(rest, ds.last().shard, ds.last())
        } else {
            rest
        }
    }
}

proof fn lemma_add_keeps_distinct(groups: Seq<(u32, Seq<PendingStateTreeDiff>)>, shard: u32, d: PendingStateTreeDiff)
    requires
        groups_distinct(groups),
    ensures
        groups_distinct(add_to_group(groups, shard, d)),
{
    let g = add_to_group(groups, shard, d);
    match group_index(groups, shard) {
        Some(i) => {
            assert forall|a: int, b: int| 0 <= a < b < g.len() implies g[a].0 != g[b].0 by {
                assert(g[a].0 == groups[a].0 && g[b].0 == groups[b].0);
            }
        },
        None => {
            assert forall|a: int, b: int| 0 <= a < b < g.len() implies g[a].0 != g[b].0 by {
                if b == groups.len() {
                    assert(g[a] == groups[a]);
                } else {
                    assert(g[a] == groups[a] && g[b] == groups[b]);
                }
            }
        },
    }
}

proof fn lemma_groups_distinct(ds: Seq<PendingStateTreeDiff>, block_id: FixedHash)
    ensures
        groups_distinct(groups_of(ds, block_id)),
    decreases ds.len(),
{
    if ds.len() > 0 {
        lemma_groups_distinct(ds.drop_last(), block_id);
        if ds.last().block_id == block_id {
            lemma_add_keeps_distinct(groups_of(ds.drop_last(), block_id), ds.last().shard, ds.last());
        }
    }
}

impl StoreState {
    /// Records a shard's pending diff for a stored block, at that block's height. A block
    /// that is not stored has no height, and nothing is recorded.
    pub fn pending_state_tree_diffs_insert(&mut self, block_id: FixedHash, shard: u32, version: u64, diff: Vec<LeafChange>) -> (r: bool)
        ensures
            r == old(self).has_block(block_id),
            r ==> final(self).pending_state_tree_diffs@.len() == old(self).pending_state_tree_diffs@.len() + 1
                && final(self).pending_state_tree_diffs@.drop_last() == old(self).pending_state_tree_diffs@ && ({
                let p = final(self).pending_state_tree_diffs@.last();
                &&& p.block_id == block_id
                &&& p.shard == shard
                &&& p.version == version
                &&& p.diff == diff
                &&& exists|i: int| 0 <= i < old(self).blocks@.len() && old(self).blocks@[i].block.id == block_id
                    && old(self).blocks@[i].block.height == p.block_height
            }),
            !r ==> final(self).pending_state_tree_diffs == old(self).pending_state_tree_diffs,
            final(self).blocks == old(self).blocks,
    {
        let mut i: usize = 0;
        while i < self.blocks.len()
            invariant
                i <= self.blocks@.len(),
                self.blocks == old(self).blocks,
                self.pending_state_tree_diffs == old(self).pending_state_tree_diffs,
                forall|j: int| 0 <= j < i ==> self.blocks@[j].block.id != block_id,
            decreases self.blocks@.len() - i,
        {
            if hash_eq(&self.blocks[i].block.id, &block_id) {
                assert(self.blocks@[i as int].block.id =~= block_id);
                assert(block_ids(self.blocks@)[i as int] == block_id);
                let block_height = self.blocks[i].block.height;
                self.pending_state_tree_diffs.push(PendingStateTreeDiff { block_id, block_height, shard, version, diff });
                assert(self.pending_state_tree_diffs@.drop_last() =~= old(self).pending_state_tree_diffs@);
                return true;
            }
            i = i + 1;
        }
        proof {
            assert forall|j: int| 0 <= j < block_ids(self.blocks@).len() implies block_ids(self.blocks@)[j] != block_id by {
                assert(block_ids(self.blocks@)[j] == self.blocks@[j].block.id);
            }
        }
        false
    }

    /// Takes out the pending diffs of a block, grouped by shard in the order they were stored.
    pub fn pending_state_tree_diffs_remove_by_block(&mut self, block_id: &FixedHash) -> (r: IndexMap<
        u32,
        Vec<PendingStateTreeDiff>,
    >)
        ensures
            diff_groups(r) == groups_of(old(self).pending_state_tree_diffs@, *block_id),
            final(self).pending_state_tree_diffs@ == diffs_not_of(old(self).pending_state_tree_diffs@, *block_id),
            final(self).blocks == old(self).blocks,
    {
        let mut groups = new_groups();
        let mut kept: Vec<PendingStateTreeDiff> = Vec::new();
        let mut ds: Vec<PendingStateTreeDiff> = Vec::new();
        std::mem::swap(&mut ds, &mut self.pending_state_tree_diffs);
        let ghost orig = ds@;
        let ghost mut taken: int = 0;
        while ds.len() > 0
            invariant
                0 <= taken <= orig.len(),
                ds@ == orig.subrange(taken, orig.len() as int),
                kept@ == diffs_not_of(orig.subrange(0, taken), *block_id),
                diff_groups(groups) == groups_of(orig.subrange(0, taken), *block_id),
                self.blocks == old(self).blocks,
                orig == old(self).pending_state_tree_diffs@,
            decreases ds@.len(),
        {
            let d = ds.remove(0);
            proof {
                assert(d == orig[taken]);
                assert(orig.subrange(0, taken + 1).drop_last() =~= orig.subrange(0, taken));
                lemma_groups_distinct(orig.subrange(0, taken), *block_id);
                taken = taken + 1;
                assert(ds@ =~= orig.subrange(taken, orig.len() as int));
            }
            let mine = hash_eq(&d.block_id, block_id);
            proof {
                if d.block_id@ == block_id@ {
                    assert(d.block_id =~= *block_id);
                }
            }
            if mine {
                let shard = d.shard;
                push_to_group(&mut groups, shard, d);
            } else {
                kept.push(d);
            }
        }
        assert(orig.subrange(0, orig.len() as int) =~= orig);
        self.pending_state_tree_diffs = kept;
        groups
    }
}

} // verus!
