use dan_consensus::memory::MemoryStateStore;
use dan_consensus::working::{LockFlag, RuntimeError, WorkingStateStore};

fn k(n: u8) -> [u8; 32] {
    [n; 32]
}

fn committed() -> MemoryStateStore {
    let mut store = MemoryStateStore::new();
    store.set_many(vec![(k(1).to_vec(), vec![10]), (k(2).to_vec(), vec![20])]);
    store
}

#[test]
fn locks_read_shared_write_exclusive() {
    let mut ws = WorkingStateStore::new(committed());
    let r1 = ws.try_lock(&k(1), LockFlag::Read).unwrap();
    let r2 = ws.try_lock(&k(1), LockFlag::Read).unwrap();
    assert_ne!(r1, r2);
    assert_eq!(ws.try_lock(&k(1), LockFlag::Write), Err(RuntimeError::LockConflict { address: k(1) }));
    assert_eq!(ws.try_lock(&k(9), LockFlag::Read), Err(RuntimeError::SubstateNotFound { address: k(9) }));
    ws.try_unlock(r1).unwrap();
    ws.try_unlock(r2).unwrap();
    assert_eq!(ws.try_unlock(r2), Err(RuntimeError::LockIdNotFound { lock_id: r2 }));
    let w = ws.try_lock(&k(1), LockFlag::Write).unwrap();
    assert_eq!(ws.try_lock(&k(1), LockFlag::Read), Err(RuntimeError::LockConflict { address: k(1) }));
    assert_eq!(ws.get_locked_substate(w).unwrap(), (k(1), vec![10]));
}

#[test]
fn writes_need_write_lock_and_are_collected_in_order() {
    let mut ws = WorkingStateStore::new(committed());
    let r = ws.try_lock(&k(2), LockFlag::Read).unwrap();
    assert_eq!(ws.set_locked_substate(r, vec![1]), Err(RuntimeError::WriteLockRequired { lock_id: r }));
    ws.insert(k(3), vec![30]).unwrap();
    assert_eq!(ws.insert(k(1), vec![0]), Err(RuntimeError::DuplicateSubstate { address: k(1) }));
    let w = ws.try_lock(&k(1), LockFlag::Write).unwrap();
    ws.set_locked_substate(w, vec![11]).unwrap();
    assert!(ws.substate_exists(&k(3)));
    assert_eq!(ws.get_locked_substate(w).unwrap().1, vec![11]);
    let changed: Vec<([u8; 32], Vec<u8>)> = ws.take_mutated_substates().into_iter().collect();
    assert_eq!(changed, vec![(k(3), vec![30]), (k(1), vec![11])]);
    assert!(ws.take_mutated_substates().is_empty());
    assert_eq!(ws.set_locked_substate(99, vec![]), Err(RuntimeError::LockIdNotFound { lock_id: 99 }));
}

#[test]
fn lock_ids_are_handed_out_in_order() {
    let mut ws = WorkingStateStore::new(committed());
    assert_eq!(ws.try_lock(&k(1), LockFlag::Read), Ok(0));
    assert_eq!(ws.try_lock(&k(2), LockFlag::Write), Ok(1));
    ws.insert(k(4), vec![40]).unwrap();
    let changed = ws.take_mutated_substates();
    assert_eq!(changed.last(), Some((&k(4), &vec![40])));
}
