use dan_consensus::memory::{MemoryStateStore, StateStoreError};

#[test]
fn read_write() {
    let store = MemoryStateStore::new();
    let mut access = store.write_access();
    access.set_state_raw(b"abc", vec![1, 2, 3]);
    let res = access.get_state_raw(b"abc").unwrap();
    assert_eq!(res, vec![1, 2, 3]);
    let res = access.get_state_raw(b"def").ok();
    assert_eq!(res, None);
}

#[test]
fn read_write_rollback_commit() {
    let mut store = MemoryStateStore::new();
    {
        let mut access = store.write_access();
        access.set_state_raw(b"abc", b"Foo99".to_vec());
        assert_eq!(access.get_state_raw(b"abc").unwrap(), b"Foo99".to_vec());
        assert_eq!(access.get_state_raw(b"def").ok(), None);
    }
    let access = store.read_access();
    assert!(!access.exists_raw(b"abc"));
    let mut access = store.write_access();
    access.set_state_raw(b"abc", b"Foo99".to_vec());
    access.commit(&mut store);
    let access = store.read_access();
    assert_eq!(access.get_state_raw(b"abc").unwrap(), b"Foo99".to_vec());
}

#[test]
fn not_found_names_key_in_hex() {
    let store = MemoryStateStore::new();
    let mut access = store.write_access();
    assert_eq!(
        access.get_state_raw(b"\x01\xab"),
        Err(StateStoreError::NotFound { kind: "state", key: "01ab".to_string() })
    );
    assert_eq!(
        access.delete_state_raw(b"\x01\xab"),
        Err(StateStoreError::NotFound { kind: "state", key: "01ab".to_string() })
    );
}

#[test]
fn delete_overwrite_and_iterate() {
    let mut store = MemoryStateStore::new();
    store.set_many(vec![(b"a".to_vec(), vec![1]), (b"b".to_vec(), vec![2])]);
    let mut access = store.write_access();
    access.set_state_raw(b"a", vec![9]);
    access.set_state_raw(b"c", vec![3]);
    access.delete_state_raw(b"b").unwrap();
    let mut all = access.iter_raw();
    assert_eq!(all[0], (b"a".to_vec(), vec![9]));
    assert_eq!(all[1], (b"c".to_vec(), vec![3]));
    all.sort();
    assert_eq!(all, vec![(b"a".to_vec(), vec![9]), (b"c".to_vec(), vec![3])]);
    access.commit(&mut store);
    let read = store.read_access();
    assert_eq!(read.get_state_raw(b"a").unwrap(), vec![9]);
    assert!(!read.exists_raw(b"b"));
}
