use vstd::prelude::*;

use crate::hash::{bytes_to_hex, hex_chars};

verus! {

/// One key and its value.
pub type KvEntry = (Vec<u8>, Vec<u8>);

/// The value stored under `k`, looking from the most recent entry.
pub open spec fn lookup(s: Seq<KvEntry>, k: Seq<u8>) -> Option<Seq<u8>>
    decreases s.len(),
{
    if s.len() == 0 {
        None
    } else if s.last().0@ == k {
        Some(s.last().1@)
    } else {
        lookup(s.drop_last(), k)
    }
}

/// No key occurs twice.
pub open spec fn keys_unique(s: Seq<KvEntry>) -> bool {
    forall|i: int, j: int| 0 <= i < j < s.len() ==> s[i].0@ != s[j].0@
}

/// What a key reads as in a transaction: its own writes first, then the store.
pub open spec fn overlay(pending: Seq<KvEntry>, base: Seq<KvEntry>, k: Seq<u8>) -> Option<Seq<u8>> {
    match lookup(pending, k) {
        Some(v) => Some(v),
        None => lookup(base, k),
    }
}

/// Errors of the key-value state store.
#[derive(Clone, Debug, PartialEq, Eq)]
pub enum StateStoreError {
    NotFound { kind: &'static str, key: String },
}

pub(crate) proof fn lemma_lookup_absent(s: Seq<KvEntry>, k: Seq<u8>)
    ensures
        (forall|i: int| 0 <= i < s.len() ==> s[i].0@ != k) <==> lookup(s, k) is None,
    decreases s.len(),
{
    if s.len() > 0 {
        lemma_lookup_absent(s.drop_last(), k);
        if lookup(s, k) is None {
            assert forall|i: int| 0 <= i < s.len() implies s[i].0@ != k by {
                if i < s.len() - 1 {
                    assert(s.drop_last()[i] == s[i]);
                }
            }
        }
        if forall|i: int| 0 <= i < s.len() ==> s[i].0@ != k {
            assert(s.last().0@ != k);
            assert forall|i: int| 0 <= i < s.drop_last().len() implies s.drop_last()[i].0@ != k by {
                assert(s.drop_last()[i] == s[i]);
            }
        }
    }
}

pub(crate) proof fn lemma_lookup_at(s: Seq<KvEntry>, i: int)
    requires
        keys_unique(s),
        0 <= i < s.len(),
    ensures
        lookup(s, s[i].0@) == Some(s[i].1@),
    decreases s.len(),
{
    if i < s.len() - 1 {
        assert(s.last().0@ != s[i].0@);
        assert(s.drop_last()[i] == s[i]);
        lemma_lookup_at(s.drop_last(), i);
    }
}

pub(crate) proof fn lemma_lookup_update(s: Seq<KvEntry>, i: int, e: KvEntry)
    requires
        keys_unique(s),
        0 <= i < s.len(),
        e.0@ == s[i].0@,
    ensures
        forall|x: Seq<u8>| #[trigger] lookup(s.update(i, e), x) == if x == e.0@ {
            Some(e.1@)
        } else {
            lookup(s, x)
        },
        keys_unique(s.update(i, e)),
    decreases s.len(),
{
    let t = s.update(i, e);
    assert forall|a: int, b: int| 0 <= a < b < t.len() implies t[a].0@ != t[b].0@ by {}
    if i == s.len() - 1 {
        assert(t.drop_last() =~= s.drop_last());
        assert forall|x: Seq<u8>| #[trigger] lookup(t, x) == if x == e.0@ {
            Some(e.1@)
        } else {
            lookup(s, x)
        } by {}
    } else {
        let d = s.drop_last();
        assert(t.drop_last() =~= d.update(i, e));
        assert forall|a: int, b: int| 0 <= a < b < d.len() implies d[a].0@ != d[b].0@ by {
            assert(d[a] == s[a] && d[b] == s[b]);
        }
        lemma_lookup_update(d, i, e);
        assert(t.last() == s.last());
        assert(s.last().0@ != e.0@);
        assert forall|x: Seq<u8>| #[trigger] lookup(t, x) == if x == e.0@ {
            Some(e.1@)
        } else {
            lookup(s, x)
        } by {
            if t.last().0@ == x {
            } else {
                assert(lookup(t, x) == lookup(d.update(i, e), x));
            }
        }
    }
}

pub(crate) proof fn lemma_lookup_remove(s: Seq<KvEntry>, i: int)
    requires
        keys_unique(s),
        0 <= i < s.len(),
    ensures
        forall|x: Seq<u8>| #[trigger] lookup(s.remove(i), x) == if x == s[i].0@ {
            None
        } else {
            lookup(s, x)
        },
        keys_unique(s.remove(i)),
    decreases s.len(),
{
    let t = s.remove(i);
    assert forall|a: int, b: int| 0 <= a < b < t.len() implies t[a].0@ != t[b].0@ by {
        let oa = if a < i { a } else { a + 1 };
        let ob = if b < i { b } else { b + 1 };
        assert(t[a] == s[oa] && t[b] == s[ob]);
    }
    if i == s.len() - 1 {
        assert(t =~= s.drop_last());
        assert forall|x: Seq<u8>| #[trigger] lookup(t, x) == if x == s[i].0@ {
            None
        } else {
            lookup(s, x)
        } by {
            if x == s[i].0@ {
                assert forall|j: int| 0 <= j < t.len() implies t[j].0@ != x by {
                    assert(t[j] == s[j]);
                }
                lemma_lookup_absent(t, x);
            }
        }
    } else {
        let d = s.drop_last();
        assert(t.drop_last() =~= d.remove(i));
        assert(t.last() == s.last());
        assert forall|a: int, b: int| 0 <= a < b < d.len() implies d[a].0@ != d[b].0@ by {
            assert(d[a] == s[a] && d[b] == s[b]);
        }
        lemma_lookup_remove(d, i);
        assert(d[i] == s[i]);
        assert forall|x: Seq<u8>| #[trigger] lookup(t, x) == if x == s[i].0@ {
            None
        } else {
            lookup(s, x)
        } by {
            if t.last().0@ == x {
                assert(s.last().0@ != s[i].0@);
            } else {
                assert(lookup(t, x) == lookup(d.remove(i), x));
            }
        }
    }
}

pub(crate) proof fn lemma_lookup_push(s: Seq<KvEntry>, e: KvEntry)
    requires
        keys_unique(s),
        lookup(s, e.0@) is None,
    ensures
        forall|x: Seq<u8>| #[trigger] lookup(s.push(e), x) == if x == e.0@ {
            Some(e.1@)
        } else {
            lookup(s, x)
        },
        keys_unique(s.push(e)),
{
    lemma_lookup_absent(s, e.0@);
    let t = s.push(e);
    assert(t.drop_last() =~= s);
    assert forall|a: int, b: int| 0 <= a < b < t.len() implies t[a].0@ != t[b].0@ by {
        if b == s.len() {
            assert(t[a] == s[a]);
        } else {
            assert(t[a] == s[a] && t[b] == s[b]);
        }
    }
}

/// Byte-wise equality of a stored key with a probe.
pub(crate) fn bytes_eq(a: &Vec<u8>, b: &[u8]) -> (r: bool)
    ensures
        r == (a@ == b@),
{
    if a.len() != b.len() {
        return false;
    }
    let mut i: usize = 0;
    while i < a.len()
        invariant
            i <= a@.len(),
            a@.len() == b@.len(),
            forall|j: int| 0 <= j < i ==> a@[j] == b@[j],
        decreases a@.len() - i,
    {
        if a[i] != b[i] {
            return false;
        }
        i = i + 1;
    }
    assert(a@ =~= b@);
    true
}

/// A copy of some bytes.
pub(crate) fn copy_bytes(b: &[u8]) -> (r: Vec<u8>)
    ensures
        r@ == b@,
{
    let mut out: Vec<u8> = Vec::new();
    let mut i: usize = 0;
    while i < b.len()
        invariant
            i <= b@.len(),
            out@ == b@.subrange(0, i as int),
        decreases b@.len() - i,
    {
        out.push(b[i]);
        assert(b@.subrange(0, i as int + 1) =~= b@.subrange(0, i as int).push(b@[i as int]));
        i = i + 1;
    }
    assert(b@.subrange(0, b@.len() as int) =~= b@);
    out
}

/// Index of the entry with key `k`, if any.
pub(crate) fn find_key(s: &Vec<KvEntry>, k: &[u8]) -> (r: Option<usize>)
    requires
        keys_unique(s@),
    ensures
        r matches Some(i) ==> i < s@.len() && s@[i as int].0@ == k@ && lookup(s@, k@) == Some(
            s@[i as int].1@,
        ),
        r is None ==> lookup(s@, k@) is None,
{
    let mut i: usize = 0;
    while i < s.len()
        invariant
            i <= s@.len(),
            keys_unique(s@),
            forall|j: int| 0 <= j < i ==> s@[j].0@ != k@,
        decreases s@.len() - i,
    {
        if bytes_eq(&s[i].0, k) {
            proof {
                lemma_lookup_at(s@, i as int);
            }
            return Some(i);
        }
        i = i + 1;
    }
    proof {
        lemma_lookup_absent(s@, k@);
    }
    None
}

fn copy_entries(s: &Vec<KvEntry>) -> (r: Vec<KvEntry>)
    ensures
        r@.len() == s@.len(),
        forall|i: int| 0 <= i < s@.len() ==> (#[trigger] r@[i]).0@ == s@[i].0@ && r@[i].1@ == s@[i].1@,
{
    let mut out: Vec<KvEntry> = Vec::new();
    let mut i: usize = 0;
    while i < s.len()
        invariant
            i <= s@.len(),
            out@.len() == i,
            forall|j: int| 0 <= j < i ==> (#[trigger] out@[j]).0@ == s@[j].0@ && out@[j].1@ == s@[j].1@,
        decreases s@.len() - i,
    {
        let k = copy_bytes(s[i].0.as_slice());
        let v = copy_bytes(s[i].1.as_slice());
        out.push((k, v));
        i = i + 1;
    }
    out
}

proof fn lemma_same_views(a: Seq<KvEntry>, b: Seq<KvEntry>)
    requires
        a.len() == b.len(),
        forall|i: int| 0 <= i < a.len() ==> (#[trigger] a[i]).0@ == b[i].0@ && a[i].1@ == b[i].1@,
    ensures
        forall|x: Seq<u8>| #[trigger] lookup(a, x) == lookup(b, x),
        keys_unique(a) ==> keys_unique(b),
    decreases a.len(),
{
    if a.len() > 0 {
        assert forall|i: int| 0 <= i < a.drop_last().len() implies (#[trigger] a.drop_last()[i]).0@
            == b.drop_last()[i].0@ && a.drop_last()[i].1@ == b.drop_last()[i].1@ by {
            assert(a.drop_last()[i] == a[i] && b.drop_last()[i] == b[i]);
        }
        lemma_same_views(a.drop_last(), b.drop_last());
        assert(a.last() == a[a.len() - 1] && b.last() == b[b.len() - 1]);
        assert forall|x: Seq<u8>| #[trigger] lookup(a, x) == lookup(b, x) by {
            assert(lookup(a.drop_last(), x) == lookup(b.drop_last(), x));
        }
    }
    if keys_unique(a) {
        assert forall|i: int, j: int| 0 <= i < j < b.len() implies b[i].0@ != b[j].0@ by {
            assert(a[i].0@ == b[i].0@);
            assert(a[j].0@ == b[j].0@);
        }
    }
}

/// An in-memory key-value store of committed state.
pub struct MemoryStateStore {
    state: Vec<KvEntry>,
}

/// A read or write transaction on a [`MemoryStateStore`]: its own writes over a snapshot of the
/// store. Dropping it without committing discards the writes.
pub struct MemoryTransaction {
    pending: Vec<KvEntry>,
    base: Vec<KvEntry>,
}

impl MemoryStateStore {
    /// What the store holds under `k`.
    pub closed spec fn get_spec(&self, k: Seq<u8>) -> Option<Seq<u8>> {
        lookup(self.state@, k)
    }

    pub closed spec fn wf(&self) -> bool {
        keys_unique(self.state@)
    }

    /// The value under `key`, if any.
    pub fn get(&self, key: &[u8]) -> (r: Option<Vec<u8>>)
        requires
            self.wf(),
        ensures
            r matches Some(v) ==> self.get_spec(key@) == Some(v@),
            r is None ==> self.get_spec(key@) is None,
    {
        match find_key(&self.state, key) {
            Some(i) => Some(copy_bytes(self.state[i].1.as_slice())),
            None => None,
        }
    }

    /// An empty store.
    pub fn new() -> (r: MemoryStateStore)
        ensures
            r.wf(),
            forall|k: Seq<u8>| r.get_spec(k) is None,
    {
        MemoryStateStore { state: Vec::new() }
    }

    /// A transaction over a snapshot of the store.
    pub fn read_access(&self) -> (r: MemoryTransaction)
        requires
            self.wf(),
        ensures
            r.wf(),
            forall|k: Seq<u8>| #[trigger] r.get_spec(k) == self.get_spec(k),
    {
        let base = copy_entries(&self.state);
        proof {
            lemma_same_views(self.state@, base@);
        }
        MemoryTransaction { pending: Vec::new(), base }
    }

    /// A transaction over a snapshot of the store, for writing.
    pub fn write_access(&self) -> (r: MemoryTransaction)
        requires
            self.wf(),
        ensures
            r.wf(),
            forall|k: Seq<u8>| #[trigger] r.get_spec(k) == self.get_spec(k),
    {
        self.read_access()
    }

    /// Writes every pair in one transaction and commits it.
    pub fn set_many(&mut self, items: Vec<KvEntry>)
        requires
            old(self).wf(),
        ensures
            final(self).wf(),
            forall|k: Seq<u8>| #[trigger] final(self).get_spec(k) == match lookup(items@, k) {
                Some(v) => Some(v),
                None => old(self).get_spec(k),
            },
    {
        let mut tx = self.write_access();
        let mut i: usize = 0;
        while i < items.len()
            invariant
                i <= items@.len(),
                tx.wf(),
                forall|k: Seq<u8>| #[trigger] tx.get_spec(k) == match lookup(items@.subrange(0, i as int), k) {
                    Some(v) => Some(v),
                    None => old(self).get_spec(k),
                },
            decreases items@.len() - i,
        {
            let v = copy_bytes(items[i].1.as_slice());
            tx.set_state_raw(items[i].0.as_slice(), v);
            proof {
                assert(items@.subrange(0, i as int + 1).drop_last() =~= items@.subrange(0, i as int));
                assert(items@.subrange(0, i as int + 1).last() == items@[i as int]);
            }
            i = i + 1;
        }
        assert(items@.subrange(0, items@.len() as int) =~= items@);
        tx.commit(self);
    }
}

impl MemoryTransaction {
    /// The transaction's own writes, in the order their keys were first written.
    pub closed spec fn pending_spec(&self) -> Seq<KvEntry> {
        self.pending@
    }

    /// What `k` reads as in the transaction.
    pub closed spec fn get_spec(&self, k: Seq<u8>) -> Option<Seq<u8>> {
        overlay(self.pending@, self.base@, k)
    }

    pub closed spec fn wf(&self) -> bool {
        keys_unique(self.pending@) && keys_unique(self.base@)
    }

    /// The value under `key`, or "not found" naming the key in hex.
    pub fn get_state_raw(&self, key: &[u8]) -> (r: Result<Vec<u8>, StateStoreError>)
        requires
            self.wf(),
        ensures
            self.get_spec(key@) matches Some(v) ==> (r matches Ok(x) && x@ == v),
            self.get_spec(key@) is None ==> (r matches Err(StateStoreError::NotFound { kind, key: k }) && kind
                == "state" && (key@.len() <= 262144 ==> k@ == hex_chars(key@))),
    {
        match find_key(&self.pending, key) {
            Some(i) => Ok(copy_bytes(self.pending[i].1.as_slice())),
            None => match find_key(&self.base, key) {
                Some(i) => Ok(copy_bytes(self.base[i].1.as_slice())),
                None => Err(StateStoreError::NotFound { kind: "state", key: bytes_to_hex(key) }),
            },
        }
    }

    /// Whether `key` has a value in the transaction.
    pub fn exists_raw(&self, key: &[u8]) -> (r: bool)
        requires
            self.wf(),
        ensures
            r == self.get_spec(key@) is Some,
    {
        find_key(&self.pending, key).is_some() || find_key(&self.base, key).is_some()
    }

    /// Writes `value` under `key`, visible to this transaction until it commits.
    pub fn set_state_raw(&mut self, key: &[u8], value: Vec<u8>)
        requires
            old(self).wf(),
        ensures
            final(self).wf(),
            forall|k: Seq<u8>| #[trigger] final(self).get_spec(k) == if k == key@ {
                Some(value@)
            } else {
                old(self).get_spec(k)
            },
    {
        let k = copy_bytes(key);
        match find_key(&self.pending, key) {
            Some(i) => {
                proof {
                    lemma_lookup_update(self.pending@, i as int, (k, value));
                }
                self.pending.set(i, (k, value));
            },
            None => {
                proof {
                    lemma_lookup_push(self.pending@, (k, value));
                }
                self.pending.push((k, value));
            },
        }
    }

    /// Deletes `key` from the transaction's view; "not found" when it has no value.
    pub fn delete_state_raw(&mut self, key: &[u8]) -> (r: Result<(), StateStoreError>)
        requires
            old(self).wf(),
        ensures
            final(self).wf(),
            old(self).get_spec(key@) is Some ==> r is Ok && forall|k: Seq<u8>| #[trigger] final(self).get_spec(k)
                == if k == key@ {
                None
            } else {
                old(self).get_spec(k)
            },
            old(self).get_spec(key@) is None ==> (r matches Err(StateStoreError::NotFound { kind, key: k })
                && kind == "state" && (key@.len() <= 262144 ==> k@ == hex_chars(key@))),
    {
        let in_pending = find_key(&self.pending, key);
        let in_base = find_key(&self.base, key);
        if in_pending.is_none() && in_base.is_none() {
            return Err(StateStoreError::NotFound { kind: "state", key: bytes_to_hex(key) });
        }
        if let Some(i) = in_pending {
            proof {
                lemma_lookup_remove(self.pending@, i as int);
            }
            self.pending.remove(i);
        }
        if let Some(i) = in_base {
            proof {
                lemma_lookup_remove(self.base@, i as int);
            }
            self.base.remove(i);
        }
        proof {
            lemma_lookup_absent(self.pending@, key@);
            lemma_lookup_absent(self.base@, key@);
        }
        Ok(())
    }

    /// Makes the transaction's view the store's state.
    pub fn commit(self, store: &mut MemoryStateStore)
        requires
            self.wf(),
        ensures
            final(store).wf(),
            forall|k: Seq<u8>| #[trigger] final(store).get_spec(k) == self.get_spec(k),
    {
        let mut merged = self.base;
        let pending = self.pending;
        let ghost base0 = merged@;
        let mut i: usize = 0;
        while i < pending.len()
            invariant
                i <= pending@.len(),
                keys_unique(merged@),
                keys_unique(pending@),
                forall|k: Seq<u8>| #[trigger] lookup(merged@, k) == match lookup(pending@.subrange(0, i as int), k) {
                    Some(v) => Some(v),
                    None => lookup(base0, k),
                },
            decreases pending@.len() - i,
        {
            let k = copy_bytes(pending[i].0.as_slice());
            let v = copy_bytes(pending[i].1.as_slice());
            proof {
                assert(pending@.subrange(0, i as int + 1).drop_last() =~= pending@.subrange(0, i as int));
                assert(pending@.subrange(0, i as int + 1).last() == pending@[i as int]);
            }
            match find_key(&merged, k.as_slice()) {
                Some(j) => {
                    proof {
                        lemma_lookup_update(merged@, j as int, (k, v));
                    }
                    merged.set(j, (k, v));
                },
                None => {
                    proof {
                        lemma_lookup_push(merged@, (k, v));
                    }
                    merged.push((k, v));
                },
            }
            i = i + 1;
        }
        assert(pending@.subrange(0, pending@.len() as int) =~= pending@);
        store.state = merged;
    }

    /// Every key and value the transaction sees, each key once: its own writes first, then the snapshot's
    /// entries that it did not overwrite.
    pub fn iter_raw(&self) -> (r: Vec<KvEntry>)
        requires
            self.wf(),
        ensures
            keys_unique(r@),
            forall|k: Seq<u8>| #[trigger] lookup(r@, k) == self.get_spec(k),
            r@.len() >= self.pending_spec().len(),
            forall|i: int| 0 <= i < self.pending_spec().len() ==> (#[trigger] r@[i]).0@ == self.pending_spec()[i].0@
                && r@[i].1@ == self.pending_spec()[i].1@,
    {
        let mut out = copy_entries(&self.pending);
        proof {
            lemma_same_views(self.pending@, out@);
        }
        let mut i: usize = 0;
        while i < self.base.len()
            invariant
                i <= self.base@.len(),
                self.wf(),
                keys_unique(out@),
                out@.len() >= self.pending@.len(),
                forall|j: int| 0 <= j < self.pending@.len() ==> (#[trigger] out@[j]).0@ == self.pending@[j].0@
                    && out@[j].1@ == self.pending@[j].1@,
                forall|k: Seq<u8>| #[trigger] lookup(out@, k) == match lookup(self.pending@, k) {
                    Some(v) => Some(v),
                    None => lookup(self.base@.subrange(0, i as int), k),
                },
            decreases self.base@.len() - i,
        {
            proof {
                assert(self.base@.subrange(0, i as int + 1).drop_last() =~= self.base@.subrange(0, i as int));
                assert(self.base@.subrange(0, i as int + 1).last() == self.base@[i as int]);
            }
            if find_key(&self.pending, self.base[i].0.as_slice()).is_none() {
                let k = copy_bytes(self.base[i].0.as_slice());
                let v = copy_bytes(self.base[i].1.as_slice());
                proof {
                    let bi = self.base@.subrange(0, i as int);
                    assert forall|j: int| 0 <= j < bi.len() implies bi[j].0@ != k@ by {
                        assert(bi[j] == self.base@[j]);
                    }
                    lemma_lookup_absent(bi, k@);
                    assert(lookup(out@, k@) is None);
                    lemma_lookup_push(out@, (k, v));
                }
                out.push((k, v));
            } else {
                proof {
                    let bi = self.base@.subrange(0, i as int);
                    let k = self.base@[i as int].0@;
                    assert forall|j: int| 0 <= j < bi.len() implies bi[j].0@ != k by {
                        assert(bi[j] == self.base@[j]);
                    }
                    lemma_lookup_absent(bi, k);
                }
            }
            i = i + 1;
        }
        assert(self.base@.subrange(0, self.base@.len() as int) =~= self.base@);
        out
    }
}

} // verus!
