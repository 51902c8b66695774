use vstd::prelude::*;

use crate::hash::{hash_eq, FixedHash};
use crate::store::StoreState;
use crate::substate::Transition;

verus! {

/// Most rows a bulk write puts in one batch.
pub const WRITE_CHUNK_SIZE: usize = 1000;

/// The `i`-th batch of a bulk write of `n` rows in batches of `size`: rows `start..end`.
pub open spec fn chunk_at(n: int, size: int, i: int) -> (int, int) {
    (i * size, if (i + 1) * size <= n { (i + 1) * size } else { n })
}

/// Splits `n` rows into consecutive batches of at most `size` rows, covering them all in order.
pub fn chunk_ranges(n: usize, size: usize) -> (r: Vec<(usize, usize)>)
    requires
        size > 0,
    ensures
        r@.len() == (n as int + size as int - 1) / (size as int),
        forall|i: int| 0 <= i < r@.len() ==> (#[trigger] r@[i]).0 == chunk_at(n as int, size as int, i).0
            && r@[i].1 == chunk_at(n as int, size as int, i).1,
{
    let mut out: Vec<(usize, usize)> = Vec::new();
    let mut start: usize = 0;
    while start < n
        invariant
            size > 0,
            start <= n,
            start < n ==> start as int == out@.len() * size as int,
            start == n && out@.len() > 0 ==> (out@.len() - 1) * (size as int) < n && n <= out@.len() * (size as int),
            start == n && out@.len() == 0 ==> n == 0,
            start == 0 ==> out@.len() == 0,
            forall|i: int| 0 <= i < out@.len() ==> (#[trigger] out@[i]).0 == chunk_at(n as int, size as int, i).0
                && out@[i].1 == chunk_at(n as int, size as int, i).1,
        decreases n - start,
    {
        let ghost k = out@.len() as int;
        let end: usize = if n - start > size {
            start + size
        } else {
            n
        };
        proof {
            assert((k + 1) * size as int == k * size as int + size as int) by (nonlinear_arith);
        }
        out.push((start, end));
        start = end;
    }
    proof {
        let m = out@.len() as int;
        let s = size as int;
        if m == 0 {
            assert((n as int + s - 1) / s == 0) by (nonlinear_arith)
                requires
                    n == 0,
                    s > 0,
            ;
        } else {
            assert((n as int + s - 1) / s == m) by (nonlinear_arith)
                requires
                    (m - 1) * s < n as int,
                    n as int <= m * s,
                    s > 0,
            ;
        }
    }
    out
}

/// One row of a block's diff, as the `block_diffs` table keeps it.
#[derive(Debug)]
pub struct BlockDiffRow {
    pub block_id: FixedHash,
    pub transaction_id: FixedHash,
    pub substate_id: FixedHash,
    pub version: u32,
    pub shard: u32,
    pub change: Transition,
    pub state: Option<Vec<u8>>,
}

/// The rows that remain once those of `block_id` are removed.
pub open spec fn rows_not_of(rows: Seq<BlockDiffRow>, block_id: FixedHash) -> Seq<BlockDiffRow>
    decreases rows.len(),
{
    if rows.len() == 0 {
        seq![]
    } else {
        let rest = rows_not_of(rows.drop_last(), block_id);
        if rows.last().block_id == block_id {
            rest
        } else {
            rest.push(rows.last())
        }
    }
}

impl StoreState {
    /// Stores a block's diff, in batches of at most `WRITE_CHUNK_SIZE` rows, in order.
    pub fn block_diffs_insert(&mut self, changes: Vec<BlockDiffRow>)
        ensures
            final(self).block_diffs@ == old(self).block_diffs@ + changes@,
            final(self).blocks == old(self).blocks,
    {
        let n = changes.len();
        let ranges = chunk_ranges(n, WRITE_CHUNK_SIZE);
        let ghost all = changes@;
        let ghost start = self.block_diffs@;
        let mut rest = changes;
        let mut done: usize = 0;
        let mut c: usize = 0;
        while c < ranges.len()
            invariant
                c <= ranges@.len(),
                ranges@.len() == (n as int + WRITE_CHUNK_SIZE as int - 1) / (WRITE_CHUNK_SIZE as int),
                forall|i: int| 0 <= i < ranges@.len() ==> (#[trigger] ranges@[i]).0 == chunk_at(
                    n as int,
                    WRITE_CHUNK_SIZE as int,
                    i,
                ).0 && ranges@[i].1 == chunk_at(n as int, WRITE_CHUNK_SIZE as int, i).1,
                n == all.len(),
                done <= n,
                c < ranges@.len() ==> done == ranges@[c as int].0,
                c == ranges@.len() ==> done == n || ranges@.len() == 0,
                ranges@.len() == 0 ==> n == 0,
                self.blocks == old(self).blocks,
                self.block_diffs@ == start + all.subrange(0, done as int),
                rest@ == all.subrange(done as int, all.len() as int),
            decreases ranges@.len() - c,
        {
            let (lo, hi) = ranges[c];
            proof {
                let s = WRITE_CHUNK_SIZE as int;
                let ci = c as int;
                assert(ci * s < n as int) by (nonlinear_arith)
                    requires
                        ci < (n as int + s - 1) / s,
                        s > 0,
                ;
                if ci + 1 < ranges@.len() {
                    assert((ci + 1) * s <= n as int) by (nonlinear_arith)
                        requires
                            ci + 1 < (n as int + s - 1) / s,
                            s > 0,
                    ;
                    assert(ranges@[ci + 1].0 == hi);
                }
                if ci + 1 == ranges@.len() {
                    assert(n as int <= (ci + 1) * s) by (nonlinear_arith)
                        requires
                            ci + 1 == (n as int + s - 1) / s,
                            s > 0,
                    ;
                }
            }
            while done < hi
                invariant
                    done <= hi,
                    hi <= n,
                    n == all.len(),
                    rest@ == all.subrange(done as int, all.len() as int),
                    self.block_diffs@ == start + all.subrange(0, done as int),
                    self.blocks == old(self).blocks,
                decreases hi - done,
            {
                let row = rest.remove(0);
                proof {
                    assert(row == all[done as int]);
                    assert(all.subrange(0, done as int + 1) =~= all.subrange(0, done as int).push(row));
                    assert(rest@ =~= all.subrange(done as int + 1, all.len() as int));
                }
                self.block_diffs.push(row);
                done = done + 1;
            }
            c = c + 1;
        }
        assert(all.subrange(0, all.len() as int) =~= all);
    }

    /// Removes the diff rows of a block.
    pub fn block_diffs_remove(&mut self, block_id: &FixedHash)
        ensures
            final(self).block_diffs@ == rows_not_of(old(self).block_diffs@, *block_id),
            final(self).blocks == old(self).blocks,
    {
        let mut rows: Vec<BlockDiffRow> = Vec::new();
        std::mem::swap(&mut rows, &mut self.block_diffs);
        let ghost orig = rows@;
        let ghost mut taken: int = 0;
        let mut kept: Vec<BlockDiffRow> = Vec::new();
        while rows.len() > 0
            invariant
                0 <= taken <= orig.len(),
                rows@ == orig.subrange(taken, orig.len() as int),
                kept@ == rows_not_of(orig.subrange(0, taken), *block_id),
                self.blocks == old(self).blocks,
                orig == old(self).block_diffs@,
            decreases rows@.len(),
        {
            let r = rows.remove(0);
            proof {
                assert(r == orig[taken]);
                assert(orig.subrange(0, taken + 1).drop_last() =~= orig.subrange(0, taken));
                taken = taken + 1;
                assert(rows@ =~= orig.subrange(taken, orig.len() as int));
            }
            let mine = hash_eq(&r.block_id, block_id);
            proof {
                if r.block_id@ == block_id@ {
                    assert(r.block_id =~= *block_id);
                }
            }
            if !mine {
                kept.push(r);
            }
        }
        assert(orig.subrange(0, orig.len() as int) =~= orig);
        self.block_diffs = kept;
    }
}

} // verus!
