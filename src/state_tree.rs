use vstd::prelude::*;

use crate::hash::{hash_eq, FixedHash};

verus! {

/// A leaf of a shard's state tree: the key derived from a substate id and the hash of its value.
#[derive(Clone, Copy, Debug)]
pub struct TreeLeaf {
    pub key: FixedHash,
    pub value_hash: FixedHash,
}

/// One change to a state tree: a value hash for an UP, `None` for a DOWN.
#[derive(Clone, Copy, Debug)]
pub struct LeafChange {
    pub key: FixedHash,
    pub value_hash: Option<FixedHash>,
}

/// The leaves of a list, as a map from key to value hash.
pub open spec fn leaf_map(s: Seq<TreeLeaf>) -> Map<FixedHash, FixedHash>
    decreases s.len(),
{
    if s.len() == 0 {
        Map::empty()
    } else {
        leaf_map(s.drop_last()).insert(s.last().key, s.last().value_hash)
    }
}

pub open spec fn leaf_keys_unique(s: Seq<TreeLeaf>) -> bool {
    forall|i: int, j: int| 0 <= i < j < s.len() ==> s[i].key != s[j].key
}

/// The tree's contents after one change.
pub open spec fn apply_change(m: Map<FixedHash, FixedHash>, c: LeafChange) -> Map<FixedHash, FixedHash> {
    match c.value_hash {
        Some(v) => m.insert(c.key, v),
        None => m.remove(c.key),
    }
}

/// The change that puts back what `c` overwrites in `m`.
pub open spec fn undo_change(m: Map<FixedHash, FixedHash>, c: LeafChange) -> LeafChange {
    LeafChange { key: c.key, value_hash: if m.contains_key(c.key) { Some(m[c.key]) } else { None } }
}

/// The tree's contents after a diff, applied in order.
pub open spec fn apply_diff_spec(m: Map<FixedHash, FixedHash>, d: Seq<LeafChange>) -> Map<FixedHash, FixedHash>
    decreases d.len(),
{
    if d.len() == 0 {
        m
    } else {
        apply_change(apply_diff_spec(m, d.drop_last()), d.last())
    }
}

/// The inverse of a diff on `m`: for each change, what it overwrote.
pub open spec fn undo_log(m: Map<FixedHash, FixedHash>, d: Seq<LeafChange>) -> Seq<LeafChange>
    decreases d.len(),
{
    if d.len() == 0 {
        seq![]
    } else {
        undo_log(m, d.drop_last()).push(undo_change(apply_diff_spec(m, d.drop_last()), d.last()))
    }
}

/// The tree's contents after an inverse diff, applied from its last change to its first.
pub open spec fn revert_spec(m: Map<FixedHash, FixedHash>, u: Seq<LeafChange>) -> Map<FixedHash, FixedHash>
    decreases u.len(),
{
    if u.len() == 0 {
        m
    } else {
        revert_spec(apply_change(m, u.last()), u.drop_last())
    }
}

proof fn lemma_undo_one(m: Map<FixedHash, FixedHash>, c: LeafChange)
    ensures
        apply_change(apply_change(m, c), undo_change(m, c)) == m,
{
    let back = apply_change(apply_change(m, c), undo_change(m, c));
    assert(back =~= m);
}

/// Applying a diff and then its inverse leaves the tree as it was, so the root, which the
/// leaves determine, is the one it had before.
pub proof fn lemma_diff_then_inverse(m: Map<FixedHash, FixedHash>, d: Seq<LeafChange>)
    ensures
        revert_spec(apply_diff_spec(m, d), undo_log(m, d)) == m,
    decreases d.len(),
{
    if d.len() > 0 {
        let init = d.drop_last();
        let m1 = apply_diff_spec(m, init);
        lemma_undo_one(m1, d.last());
        lemma_diff_then_inverse(m, init);
        let u = undo_log(m, d);
        assert(u.drop_last() =~= undo_log(m, init));
    }
}

proof fn lemma_leaf_map_dom(s: Seq<TreeLeaf>, k: FixedHash)
    ensures
        leaf_map(s).contains_key(k) <==> exists|i: int| 0 <= i < s.len() && s[i].key == k,
    decreases s.len(),
{
    if s.len() > 0 {
        lemma_leaf_map_dom(s.drop_last(), k);
        if exists|i: int| 0 <= i < s.drop_last().len() && s.drop_last()[i].key == k {
            let i = choose|i: int| 0 <= i < s.drop_last().len() && s.drop_last()[i].key == k;
            assert(s[i].key == k);
        }
        if exists|i: int| 0 <= i < s.len() && s[i].key == k {
            let i = choose|i: int| 0 <= i < s.len() && s[i].key == k;
            if i < s.len() - 1 {
                assert(s.drop_last()[i].key == k);
            }
        }
    }
}

proof fn lemma_leaf_map_update(s: Seq<TreeLeaf>, i: int, e: TreeLeaf)
    requires
        leaf_keys_unique(s),
        0 <= i < s.len(),
        e.key == s[i].key,
    ensures
        leaf_map(s.update(i, e)) == leaf_map(s).insert(e.key, e.value_hash),
        leaf_keys_unique(s.update(i, e)),
    decreases s.len(),
{
    let t = s.update(i, e);
    if i == s.len() - 1 {
        assert(t.drop_last() =~= s.drop_last());
        assert(leaf_map(t) =~= leaf_map(s).insert(e.key, e.value_hash));
    } else {
        let d = s.drop_last();
        assert(t.drop_last() =~= d.update(i, e));
        lemma_leaf_map_update(d, i, e);
        assert(s.last().key != e.key);
        assert(leaf_map(t) =~= leaf_map(s).insert(e.key, e.value_hash));
    }
}

proof fn lemma_leaf_map_remove(s: Seq<TreeLeaf>, i: int)
    requires
        leaf_keys_unique(s),
        0 <= i < s.len(),
    ensures
        leaf_map(s.remove(i)) == leaf_map(s).remove(s[i].key),
        leaf_keys_unique(s.remove(i)),
    decreases s.len(),
{
    let t = s.remove(i);
    assert forall|a: int, b: int| 0 <= a < b < t.len() implies t[a].key != t[b].key by {
        let oa = if a < i { a } else { a + 1 };
        let ob = if b < i { b } else { b + 1 };
        assert(t[a] == s[oa] && t[b] == s[ob]);
    }
    if i == s.len() - 1 {
        assert(t =~= s.drop_last());
        assert forall|j: int| 0 <= j < t.len() implies t[j].key != s[i].key by {
            assert(t[j] == s[j]);
        }
        lemma_leaf_map_dom(t, s[i].key);
        assert(leaf_map(t) =~= leaf_map(s).remove(s[i].key));
    } else {
        let d = s.drop_last();
        assert(t.drop_last() =~= d.remove(i));
        assert(t.last() == s.last());
        lemma_leaf_map_remove(d, i);
        assert(d[i] == s[i]);
        assert(s.last().key != s[i].key);
        assert(leaf_map(t) =~= leaf_map(s).remove(s[i].key));
    }
}

proof fn lemma_leaf_map_push(s: Seq<TreeLeaf>, e: TreeLeaf)
    requires
        leaf_keys_unique(s),
        !leaf_map(s).contains_key(e.key),
    ensures
        leaf_map(s.push(e)) == leaf_map(s).insert(e.key, e.value_hash),
        leaf_keys_unique(s.push(e)),
{
    lemma_leaf_map_dom(s, e.key);
    let t = s.push(e);
    assert(t.drop_last() =~= s);
    assert forall|a: int, b: int| 0 <= a < b < t.len() implies t[a].key != t[b].key by {
        if b == s.len() {
            assert(t[a] == s[a]);
        } else {
            assert(t[a] == s[a] && t[b] == s[b]);
        }
    }
}

proof fn lemma_leaf_map_at(s: Seq<TreeLeaf>, i: int)
    requires
        leaf_keys_unique(s),
        0 <= i < s.len(),
    ensures
        leaf_map(s).contains_key(s[i].key),
        leaf_map(s)[s[i].key] == s[i].value_hash,
    decreases s.len(),
{
    if i < s.len() - 1 {
        assert(s.drop_last()[i] == s[i]);
        lemma_leaf_map_at(s.drop_last(), i);
    }
}

/// The leaves of one shard's state tree.
pub struct StateTree {
    leaves: Vec<TreeLeaf>,
}

impl StateTree {
    /// What the tree holds: leaf key to value hash.
    pub closed spec fn view(&self) -> Map<FixedHash, FixedHash> {
        leaf_map(self.leaves@)
    }

    pub closed spec fn wf(&self) -> bool {
        leaf_keys_unique(self.leaves@)
    }

    /// An empty tree.
    pub fn new() -> (r: StateTree)
        ensures
            r.wf(),
            r.view() == Map::<FixedHash, FixedHash>::empty(),
    {
        StateTree { leaves: Vec::new() }
    }

    fn find(&self, key: &FixedHash) -> (r: Option<usize>)
        requires
            self.wf(),
        ensures
            r matches Some(i) ==> i < self.leaves@.len() && self.leaves@[i as int].key == *key,
            r is None ==> !self.view().contains_key(*key),
    {
        let mut i: usize = 0;
        while i < self.leaves.len()
            invariant
                i <= self.leaves@.len(),
                forall|j: int| 0 <= j < i ==> self.leaves@[j].key != *key,
            decreases self.leaves@.len() - i,
        {
            if hash_eq(&self.leaves[i].key, key) {
                assert(self.leaves@[i as int].key =~= *key);
                return Some(i);
            }
            i = i + 1;
        }
        proof {
            lemma_leaf_map_dom(self.leaves@, *key);
        }
        None
    }

    /// The value hash under `key`, if any.
    pub fn get(&self, key: &FixedHash) -> (r: Option<FixedHash>)
        requires
            self.wf(),
        ensures
            r == (if self.view().contains_key(*key) {
                Some(self.view()[*key])
            } else {
                None
            }),
    {
        match self.find(key) {
            Some(i) => {
                proof {
                    lemma_leaf_map_at(self.leaves@, i as int);
                }
                Some(self.leaves[i].value_hash)
            },
            None => None,
        }
    }

    /// Applies one change and returns the change that undoes it.
    pub fn apply(&mut self, c: LeafChange) -> (undo: LeafChange)
        requires
            old(self).wf(),
        ensures
            final(self).wf(),
            final(self).view() == apply_change(old(self).view(), c),
            undo == undo_change(old(self).view(), c),
    {
        let found = self.find(&c.key);
        let prev = match found {
            Some(i) => {
                proof {
                    lemma_leaf_map_at(self.leaves@, i as int);
                }
                Some(self.leaves[i].value_hash)
            },
            None => None,
        };
        match (found, c.value_hash) {
            (Some(i), Some(v)) => {
                proof {
                    lemma_leaf_map_update(self.leaves@, i as int, TreeLeaf { key: c.key, value_hash: v });
                }
                self.leaves.set(i, TreeLeaf { key: c.key, value_hash: v });
            },
            (None, Some(v)) => {
                proof {
                    lemma_leaf_map_push(self.leaves@, TreeLeaf { key: c.key, value_hash: v });
                }
                self.leaves.push(TreeLeaf { key: c.key, value_hash: v });
            },
            (Some(i), None) => {
                proof {
                    lemma_leaf_map_remove(self.leaves@, i as int);
                }
                self.leaves.remove(i);
            },
            (None, None) => {
                assert(self.view() =~= old(self).view().remove(c.key));
            },
        }
        LeafChange { key: c.key, value_hash: prev }
    }

    /// Applies a diff in order and returns its inverse.
    pub fn apply_diff(&mut self, diff: &Vec<LeafChange>) -> (undo: Vec<LeafChange>)
        requires
            old(self).wf(),
        ensures
            final(self).wf(),
            final(self).view() == apply_diff_spec(old(self).view(), diff@),
            undo@ == undo_log(old(self).view(), diff@),
    {
        let ghost m0 = self.view();
        let mut undo: Vec<LeafChange> = Vec::new();
        let mut i: usize = 0;
        while i < diff.len()
            invariant
                i <= diff@.len(),
                self.wf(),
                self.view() == apply_diff_spec(m0, diff@.subrange(0, i as int)),
                undo@ == undo_log(m0, diff@.subrange(0, i as int)),
            decreases diff@.len() - i,
        {
            proof {
                assert(diff@.subrange(0, i as int + 1).drop_last() =~= diff@.subrange(0, i as int));
            }
            let u = self.apply(diff[i]);
            undo.push(u);
            i = i + 1;
        }
        assert(diff@.subrange(0, diff@.len() as int) =~= diff@);
        undo
    }

    /// Applies an inverse diff from its last change to its first.
    pub fn revert(&mut self, undo: &Vec<LeafChange>)
        requires
            old(self).wf(),
        ensures
            final(self).wf(),
            final(self).view() == revert_spec(old(self).view(), undo@),
    {
        let mut i: usize = undo.len();
        assert(undo@.subrange(0, undo@.len() as int) =~= undo@);
        while i > 0
            invariant
                i <= undo@.len(),
                self.wf(),
                revert_spec(old(self).view(), undo@) == revert_spec(self.view(), undo@.subrange(0, i as int)),
            decreases i,
        {
            proof {
                assert(undo@.subrange(0, i as int).drop_last() =~= undo@.subrange(0, i as int - 1));
            }
            self.apply(undo[i - 1]);
            i = i - 1;
        }
    }
}

} // verus!
