use indexmap::IndexMap;
use vstd::prelude::*;

use crate::hash::{hash_eq, FixedHash};
use crate::memory::{copy_bytes, find_key, keys_unique, lemma_lookup_push, lookup, KvEntry, MemoryStateStore};

verus! {

/// How a running transaction holds a substate.
#[derive(Clone, Copy, Debug, PartialEq, Eq, Structural)]
pub enum LockFlag {
    Read,
    Write,
}

/// A lock taken by the running transaction.
#[derive(Clone, Copy, Debug)]
pub struct LockedSubstate {
    pub lock_id: u32,
    pub address: FixedHash,
    pub flag: LockFlag,
}

/// Errors of the engine while it runs a transaction.
#[derive(Clone, Copy, Debug, PartialEq, Eq)]
pub enum RuntimeError {
    SubstateNotFound { address: FixedHash },
    DuplicateSubstate { address: FixedHash },
    SubstateNotLocked { address: FixedHash },
    LockConflict { address: FixedHash },
    LockIdNotFound { lock_id: u32 },
    WriteLockRequired { lock_id: u32 },
    /// Every lock id has been handed out.
    LockIdsExhausted,
}

/// A new lock on `address` with `flag` conflicts with a held one: a write lock excludes every
/// other lock on the same substate.
pub open spec fn conflicts(locks: Seq<LockedSubstate>, address: FixedHash, flag: LockFlag) -> bool {
    exists|i: int|
        0 <= i < locks.len() && locks[i].address == address && (locks[i].flag == LockFlag::Write || flag
            == LockFlag::Write)
}

/// The lock with this id, if held.
pub open spec fn lock_by_id(locks: Seq<LockedSubstate>, id: u32) -> Option<LockedSubstate>
    decreases locks.len(),
{
    if locks.len() == 0 {
        None
    } else if locks.last().lock_id == id {
        Some(locks.last())
    } else {
        lock_by_id(locks.drop_last(), id)
    }
}

/// The entries of a map of substates, in insertion order, each value read as its bytes.
pub uninterp spec fn substate_entries(m: IndexMap<FixedHash, Vec<u8>>) -> Seq<(FixedHash, Seq<u8>)>;

/// No key occurs twice among the entries.
pub open spec fn entries_distinct(e: Seq<(FixedHash, Seq<u8>)>) -> bool {
    forall|i: int, j: int| 0 <= i < j < e.len() ==> e[i].0 != e[j].0
}

/// The position of key `k` among the entries, if it is there.
pub open spec fn entry_index(e: Seq<(FixedHash, Seq<u8>)>, k: FixedHash) -> Option<int> {
    if exists|i: int| 0 <= i < e.len() && e[i].0 == k {
        Some(choose|i: int| 0 <= i < e.len() && e[i].0 == k)
    } else {
        None
    }
}

/// The value under key `k`, if it is there.
pub open spec fn entry_value(e: Seq<(FixedHash, Seq<u8>)>, k: FixedHash) -> Option<Seq<u8>> {
    match entry_index(e, k) {
        Some(i) => Some(e[i].1),
        None => None,
    }
}

/// Relies on indexmap::IndexMap::new: the map starts empty.
#[verifier::external_body]
fn new_substate_map() -> (r: IndexMap<FixedHash, Vec<u8>>)
    ensures
        substate_entries(r) == Seq::<(FixedHash, Seq<u8>)>::empty(),
{
    IndexMap::new()
}

/// Relies on indexmap::IndexMap::get: the value stored under the key, if any, copied out.
#[verifier::external_body]
fn substate_map_get(m: &IndexMap<FixedHash, Vec<u8>>, k: &FixedHash) -> (r: Option<Vec<u8>>)
    ensures
        entries_distinct(substate_entries(*m)) ==> match entry_index(substate_entries(*m), *k) {
            Some(i) => r matches Some(v) && v@ == substate_entries(*m)[i].1,
            None => r is None,
        },
{
    m.get(k).cloned()
}

/// Relies on indexmap::IndexMap::insert: a key already present keeps its position and takes
/// the new value; a new key is appended. Keys stay distinct.
#[verifier::external_body]
fn substate_map_insert(m: &mut IndexMap<FixedHash, Vec<u8>>, k: FixedHash, v: Vec<u8>)
    ensures
        entries_distinct(substate_entries(*old(m))) ==> entries_distinct(substate_entries(*final(m))),
        entries_distinct(substate_entries(*old(m))) ==> substate_entries(*final(m)) == match entry_index(
            substate_entries(*old(m)),
            k,
        ) {
            Some(i) => substate_entries(*old(m)).update(i, (k, v@)),
            None => substate_entries(*old(m)).push((k, v@)),
        },
{
    m.insert(k, v);
}

/// Relies on `Default` for indexmap::IndexMap (an empty map): the map is taken out and an
/// empty one left in its place.
#[verifier::external_body]
fn substate_map_take(m: &mut IndexMap<FixedHash, Vec<u8>>) -> (r: IndexMap<FixedHash, Vec<u8>>)
    ensures
        substate_entries(r) == substate_entries(*old(m)),
        substate_entries(*final(m)) == Seq::<(FixedHash, Seq<u8>)>::empty(),
{
    std::mem::take(m)
}

proof fn lemma_entry_index_at(e: Seq<(FixedHash, Seq<u8>)>, j: int)
    requires
        entries_distinct(e),
        0 <= j < e.len(),
    ensures
        entry_index(e, e[j].0) == Some(j),
{
    let c = choose|i: int| 0 <= i < e.len() && e[i].0 == e[j].0;
    if c != j {
        if c < j {
            assert(e[c].0 != e[j].0);
        } else {
            assert(e[j].0 != e[c].0);
        }
    }
}

proof fn lemma_entry_set(e: Seq<(FixedHash, Seq<u8>)>, n: Seq<(FixedHash, Seq<u8>)>, k: FixedHash, v: Seq<u8>)
    requires
        entries_distinct(e),
        entries_distinct(n),
        n == match entry_index(e, k) {
            Some(i) => e.update(i, (k, v)),
            None => e.push((k, v)),
        },
    ensures
        entry_value(n, k) == Some(v),
        forall|x: FixedHash| x != k ==> #[trigger] entry_value(n, x) == entry_value(e, x),
{
    if entries_distinct(n) {
        match entry_index(e, k) {
            Some(i) => {
                lemma_entry_index_at(n, i);
                assert forall|x: FixedHash| x != k implies #[trigger] entry_value(n, x) == entry_value(e, x) by {
                    if exists|j: int| 0 <= j < e.len() && e[j].0 == x {
                        let j = choose|j: int| 0 <= j < e.len() && e[j].0 == x;
                        lemma_entry_index_at(e, j);
                        assert(n[j] == e[j]);
                        lemma_entry_index_at(n, j);
                    } else {
                        assert forall|j: int| 0 <= j < n.len() implies n[j].0 != x by {
                            if j != i {
                                assert(n[j] == e[j]);
                            }
                        }
                    }
                }
            },
            None => {
                lemma_entry_index_at(n, e.len() as int);
                assert forall|x: FixedHash| x != k implies #[trigger] entry_value(n, x) == entry_value(e, x) by {
                    if exists|j: int| 0 <= j < e.len() && e[j].0 == x {
                        let j = choose|j: int| 0 <= j < e.len() && e[j].0 == x;
                        lemma_entry_index_at(e, j);
                        assert(n[j] == e[j]);
                        lemma_entry_index_at(n, j);
                    } else {
                        assert forall|j: int| 0 <= j < n.len() implies n[j].0 != x by {
                            if j < e.len() {
                                assert(n[j] == e[j]);
                            }
                        }
                    }
                }
            },
        }
    }
}

/// The substates a transaction works on: those it created or changed, in the order it did,
/// those it read from the committed state, and its locks.
pub struct WorkingStateStore {
    new_substates: IndexMap<FixedHash, Vec<u8>>,
    loaded_substates: Vec<KvEntry>,
    locks: Vec<LockedSubstate>,
    next_lock_id: u32,
    state_store: MemoryStateStore,
}

fn find_lock(locks: &Vec<LockedSubstate>, id: u32) -> (r: Option<usize>)
    ensures
        r matches Some(i) ==> i < locks@.len() && lock_by_id(locks@, id) == Some(locks@[i as int]),
        r is None ==> lock_by_id(locks@, id) is None,
{
    let mut i: usize = locks.len();
    assert(locks@.subrange(0, locks@.len() as int) =~= locks@);
    while i > 0
        invariant
            i <= locks@.len(),
            lock_by_id(locks@, id) == lock_by_id(locks@.subrange(0, i as int), id),
        decreases i,
    {
        proof {
            assert(locks@.subrange(0, i as int).drop_last() =~= locks@.subrange(0, i as int - 1));
        }
        if locks[i - 1].lock_id == id {
            return Some(i - 1);
        }
        i = i - 1;
    }
    None
}

fn has_conflict(locks: &Vec<LockedSubstate>, address: &FixedHash, flag: LockFlag) -> (r: bool)
    ensures
        r == conflicts(locks@, *address, flag),
{
    let mut i: usize = 0;
    while i < locks.len()
        invariant
            i <= locks@.len(),
            forall|j: int|
                0 <= j < i ==> !(locks@[j].address == *address && (locks@[j].flag == LockFlag::Write || flag
                    == LockFlag::Write)),
        decreases locks@.len() - i,
    {
        if hash_eq(&locks[i].address, address) && (locks[i].flag == LockFlag::Write || flag == LockFlag::Write) {
            assert(locks@[i as int].address =~= *address);
            return true;
        }
        i = i + 1;
    }
    false
}

impl WorkingStateStore {
    /// What `address` reads as: the transaction's own value, else what it loaded, else the
    /// committed state.
    pub closed spec fn get_spec(&self, address: FixedHash) -> Option<Seq<u8>> {
        match entry_value(substate_entries(self.new_substates), address) {
            Some(v) => Some(v),
            None => match lookup(self.loaded_substates@, address@) {
                Some(v) => Some(v),
                None => self.state_store.get_spec(address@),
            },
        }
    }

    /// The lock held under `lock_id`.
    pub closed spec fn lock_spec(&self, lock_id: u32) -> Option<LockedSubstate> {
        lock_by_id(self.locks@, lock_id)
    }

    /// The id the next lock gets; ids run out when it reaches `u32::MAX`.
    pub closed spec fn next_lock_id_spec(&self) -> u32 {
        self.next_lock_id
    }

    /// The locks held.
    pub closed spec fn locks_spec(&self) -> Seq<LockedSubstate> {
        self.locks@
    }

    /// The substates the transaction created or changed, in order.
    pub closed spec fn mutated_spec(&self) -> Seq<(FixedHash, Seq<u8>)> {
        substate_entries(self.new_substates)
    }

    pub closed spec fn wf(&self) -> bool {
        &&& entries_distinct(substate_entries(self.new_substates))
        &&& keys_unique(self.loaded_substates@)
        &&& self.state_store.wf()
        &&& forall|i: int| 0 <= i < self.locks@.len() ==> (#[trigger] self.locks@[i]).lock_id < self.next_lock_id
    }

    /// A working set over the committed state, with nothing changed and no lock held.
    pub fn new(state_store: MemoryStateStore) -> (r: WorkingStateStore)
        requires
            state_store.wf(),
        ensures
            r.wf(),
            forall|a: FixedHash| #[trigger] r.get_spec(a) == state_store.get_spec(a@),
            r.locks_spec().len() == 0,
            r.mutated_spec().len() == 0,
    {
        WorkingStateStore {
            new_substates: new_substate_map(),
            loaded_substates: Vec::new(),
            locks: Vec::new(),
            next_lock_id: 0,
            state_store,
        }
    }

    /// Whether the substate exists for the transaction.
    pub fn substate_exists(&self, address: &FixedHash) -> (r: bool)
        requires
            self.wf(),
        ensures
            r == self.get_spec(*address) is Some,
    {
        substate_map_get(&self.new_substates, address).is_some() || find_key(
            &self.loaded_substates,
            address.as_slice(),
        ).is_some() || self.state_store.get(address.as_slice()).is_some()
    }

    /// Creates a substate. One that exists already is refused.
    pub fn insert(&mut self, address: FixedHash, value: Vec<u8>) -> (r: Result<(), RuntimeError>)
        requires
            old(self).wf(),
        ensures
            final(self).wf(),
            final(self).locks_spec() == old(self).locks_spec(),
            old(self).get_spec(address) is Some ==> r == Err::<(), RuntimeError>(
                RuntimeError::DuplicateSubstate { address },
            ) && *final(self) == *old(self),
            old(self).get_spec(address) is None ==> r is Ok && final(self).get_spec(address) == Some(value@)
                && final(self).mutated_spec() == old(self).mutated_spec().push((address, value@)),
            forall|a: FixedHash| a != address ==> #[trigger] final(self).get_spec(a) == old(self).get_spec(a),
    {
        if self.substate_exists(&address) {
            return Err(RuntimeError::DuplicateSubstate { address });
        }
        let ghost before = substate_entries(self.new_substates);
        substate_map_insert(&mut self.new_substates, address, value);
        proof {
            lemma_entry_set(before, substate_entries(self.new_substates), address, value@);
            assert(entry_index(before, address) is None);
            assert(substate_entries(self.new_substates) == before.push((address, value@)));
            assert forall|a: FixedHash| a != address implies #[trigger] self.get_spec(a) == old(self).get_spec(a) by {
                assert(entry_value(substate_entries(self.new_substates), a) == entry_value(before, a));
            }
        }
        Ok(())
    }

    /// Copies a committed substate into the working set, unless it is there already.
    fn load(&mut self, address: &FixedHash) -> (r: Result<(), RuntimeError>)
        requires
            old(self).wf(),
        ensures
            final(self).wf(),
            final(self).locks == old(self).locks,
            final(self).next_lock_id == old(self).next_lock_id,
            final(self).new_substates == old(self).new_substates,
            forall|a: FixedHash| #[trigger] final(self).get_spec(a) == old(self).get_spec(a),
            r is Ok <==> old(self).get_spec(*address) is Some,
            r is Err ==> r == Err::<(), RuntimeError>(RuntimeError::SubstateNotFound { address: *address }),
    {
        if substate_map_get(&self.new_substates, address).is_some() {
            return Ok(());
        }
        if find_key(&self.loaded_substates, address.as_slice()).is_some() {
            return Ok(());
        }
        match self.state_store.get(address.as_slice()) {
            Some(v) => {
                let key = copy_bytes(address.as_slice());
                proof {
                    lemma_lookup_push(self.loaded_substates@, (key, v));
                    assert forall|a: FixedHash| #[trigger] self.get_spec(a) == old(self).get_spec(a) by {}
                }
                self.loaded_substates.push((key, v));
                proof {
                    assert forall|a: FixedHash| #[trigger] self.get_spec(a) == old(self).get_spec(a) by {
                        if a@ == address@ {
                        }
                    }
                }
                Ok(())
            },
            None => Err(RuntimeError::SubstateNotFound { address: *address }),
        }
    }

    /// Locks an existing substate for the transaction and returns the lock's id. A substate
    /// that does not exist is not found; a lock that conflicts with a held one is refused.
    pub fn try_lock(&mut self, address: &FixedHash, lock_flag: LockFlag) -> (r: Result<u32, RuntimeError>)
        requires
            old(self).wf(),
        ensures
            final(self).wf(),
            forall|a: FixedHash| #[trigger] final(self).get_spec(a) == old(self).get_spec(a),
            final(self).mutated_spec() == old(self).mutated_spec(),
            old(self).get_spec(*address) is None ==> r == Err::<u32, RuntimeError>(
                RuntimeError::SubstateNotFound { address: *address },
            ) && final(self).locks_spec() == old(self).locks_spec(),
            old(self).get_spec(*address) is Some && conflicts(old(self).locks_spec(), *address, lock_flag) ==> r
                == Err::<u32, RuntimeError>(RuntimeError::LockConflict { address: *address })
                && final(self).locks_spec() == old(self).locks_spec(),
            old(self).get_spec(*address) is Some && !conflicts(old(self).locks_spec(), *address, lock_flag)
                && old(self).next_lock_id_spec() == u32::MAX ==> r == Err::<u32, RuntimeError>(
                RuntimeError::LockIdsExhausted,
            ) && final(self).locks_spec() == old(self).locks_spec(),
            old(self).get_spec(*address) is Some && !conflicts(old(self).locks_spec(), *address, lock_flag)
                && old(self).next_lock_id_spec() < u32::MAX ==> r == Ok::<u32, RuntimeError>(
                old(self).next_lock_id_spec(),
            ) && final(self).next_lock_id_spec() == old(self).next_lock_id_spec() + 1 && final(self).locks_spec()
                == old(self).locks_spec().push(
                LockedSubstate { lock_id: old(self).next_lock_id_spec(), address: *address, flag: lock_flag },
            ) && final(self).lock_spec(old(self).next_lock_id_spec()) == Some(
                LockedSubstate { lock_id: old(self).next_lock_id_spec(), address: *address, flag: lock_flag },
            ),
    {
        if !self.substate_exists(address) {
            return Err(RuntimeError::SubstateNotFound { address: *address });
        }
        if has_conflict(&self.locks, address, lock_flag) {
            return Err(RuntimeError::LockConflict { address: *address });
        }
        if self.next_lock_id == u32::MAX {
            return Err(RuntimeError::LockIdsExhausted);
        }
        let _ = self.load(address);
        let ghost mid = *self;
        let id = self.next_lock_id;
        self.next_lock_id = self.next_lock_id + 1;
        let l = LockedSubstate { lock_id: id, address: *address, flag: lock_flag };
        self.locks.push(l);
        proof {
            assert(self.locks@.drop_last() =~= old(self).locks@);
            assert forall|a: FixedHash| #[trigger] self.get_spec(a) == old(self).get_spec(a) by {
                assert(self.get_spec(a) == mid.get_spec(a));
            }
        }
        Ok(id)
    }

    /// Releases a lock.
    pub fn try_unlock(&mut self, lock_id: u32) -> (r: Result<(), RuntimeError>)
        requires
            old(self).wf(),
        ensures
            final(self).wf(),
            forall|a: FixedHash| #[trigger] final(self).get_spec(a) == old(self).get_spec(a),
            final(self).mutated_spec() == old(self).mutated_spec(),
            old(self).lock_spec(lock_id) is None ==> r == Err::<(), RuntimeError>(
                RuntimeError::LockIdNotFound { lock_id },
            ) && final(self).locks_spec() == old(self).locks_spec(),
            old(self).lock_spec(lock_id) is Some ==> r is Ok && exists|i: int|
                0 <= i < old(self).locks_spec().len() && final(self).locks_spec() == old(self).locks_spec().remove(i)
                    && old(self).locks_spec()[i].lock_id == lock_id,
    {
        match find_lock(&self.locks, lock_id) {
            Some(i) => {
                let ghost ls = self.locks@;
                proof {
                    lemma_lock_by_id_found(ls, lock_id);
                }
                self.locks.remove(i);
                proof {
                    assert(ls[i as int].lock_id == lock_id);
                    assert(0 <= i < ls.len() && self.locks@ == ls.remove(i as int));
                    assert(self.locks_spec() == old(self).locks_spec().remove(i as int));
                    assert(old(self).locks_spec()[i as int].lock_id == lock_id);
                    assert forall|x: int| 0 <= x < self.locks@.len() implies (#[trigger] self.locks@[x]).lock_id
                        < self.next_lock_id by {
                        let o = if x < i { x } else { x + 1 };
                        assert(self.locks@[x] == ls[o]);
                    }
                }
                Ok(())
            },
            None => Err(RuntimeError::LockIdNotFound { lock_id }),
        }
    }

    /// The substate a lock holds, and its value.
    pub fn get_locked_substate(&self, lock_id: u32) -> (r: Result<(FixedHash, Vec<u8>), RuntimeError>)
        requires
            self.wf(),
        ensures
            self.lock_spec(lock_id) is None ==> r == Err::<(FixedHash, Vec<u8>), RuntimeError>(
                RuntimeError::LockIdNotFound { lock_id },
            ),
            self.lock_spec(lock_id) matches Some(l) ==> match self.get_spec(l.address) {
                Some(v) => r matches Ok((a, x)) && a == l.address && x@ == v,
                None => r == Err::<(FixedHash, Vec<u8>), RuntimeError>(
                    RuntimeError::SubstateNotLocked { address: l.address },
                ),
            },
    {
        let l = match find_lock(&self.locks, lock_id) {
            Some(i) => self.locks[i],
            None => {
                return Err(RuntimeError::LockIdNotFound { lock_id });
            },
        };
        if let Some(v) = substate_map_get(&self.new_substates, &l.address) {
            return Ok((l.address, v));
        }
        if let Some(i) = find_key(&self.loaded_substates, l.address.as_slice()) {
            return Ok((l.address, copy_bytes(self.loaded_substates[i].1.as_slice())));
        }
        match self.state_store.get(l.address.as_slice()) {
            Some(v) => Ok((l.address, v)),
            None => Err(RuntimeError::SubstateNotLocked { address: l.address }),
        }
    }

    /// Sets the value of the substate a write lock holds. The substate joins the changed ones:
    /// at its place if it is already among them, else at the end.
    pub fn set_locked_substate(&mut self, lock_id: u32, value: Vec<u8>) -> (r: Result<(), RuntimeError>)
        requires
            old(self).wf(),
        ensures
            final(self).wf(),
            final(self).locks_spec() == old(self).locks_spec(),
            old(self).lock_spec(lock_id) is None ==> r == Err::<(), RuntimeError>(
                RuntimeError::LockIdNotFound { lock_id },
            ),
            old(self).lock_spec(lock_id) matches Some(l) && l.flag == LockFlag::Read ==> r == Err::<(), RuntimeError>(
                RuntimeError::WriteLockRequired { lock_id },
            ),
            r is Err ==> *final(self) == *old(self),
            r is Ok ==> final(self).mutated_spec() == match entry_index(
                old(self).mutated_spec(),
                old(self).lock_spec(lock_id)->Some_0.address,
            ) {
                Some(i) => old(self).mutated_spec().update(
                    i,
                    (old(self).lock_spec(lock_id)->Some_0.address, value@),
                ),
                None => old(self).mutated_spec().push((old(self).lock_spec(lock_id)->Some_0.address, value@)),
            },
            old(self).lock_spec(lock_id) matches Some(l) ==> (l.flag == LockFlag::Write ==> (r is Ok && final(self).get_spec(l.address) == Some(value@) && forall|a: FixedHash|
                a != l.address ==> #[trigger] final(self).get_spec(a) == old(self).get_spec(a))),
    {
        let l = match find_lock(&self.locks, lock_id) {
            Some(i) => self.locks[i],
            None => {
                return Err(RuntimeError::LockIdNotFound { lock_id });
            },
        };
        if l.flag != LockFlag::Write {
            return Err(RuntimeError::WriteLockRequired { lock_id });
        }
        let ghost before = substate_entries(self.new_substates);
        substate_map_insert(&mut self.new_substates, l.address, value);
        proof {
            lemma_entry_set(before, substate_entries(self.new_substates), l.address, value@);
        }
        Ok(())
    }

    /// Hands out the changed substates in the order they were changed, and forgets them.
    pub fn take_mutated_substates(&mut self) -> (r: IndexMap<FixedHash, Vec<u8>>)
        requires
            old(self).wf(),
        ensures
            final(self).wf(),
            substate_entries(r) == old(self).mutated_spec(),
            final(self).mutated_spec().len() == 0,
            final(self).locks_spec() == old(self).locks_spec(),
    {
        substate_map_take(&mut self.new_substates)
    }
}

proof fn lemma_hash_view_injective()
    ensures
        forall|a: FixedHash, b: FixedHash| #[trigger] a@ == #[trigger] b@ ==> a == b,
{
    assert forall|a: FixedHash, b: FixedHash| #[trigger] a@ == #[trigger] b@ implies a == b by {
        assert(a =~= b);
    }
}

proof fn lemma_lock_by_id_found(locks: Seq<LockedSubstate>, id: u32)
    ensures
        lock_by_id(locks, id) matches Some(l) ==> l.lock_id == id,
    decreases locks.len(),
{
    if locks.len() > 0 {
        lemma_lock_by_id_found(locks.drop_last(), id);
    }
}

} // verus!
