use dan_consensus::state_tree::{LeafChange, StateTree};

fn k(n: u8) -> [u8; 32] {
    [n; 32]
}

#[test]
fn diff_then_inverse_restores_tree() {
    let mut tree = StateTree::new();
    tree.apply_diff(&vec![
        LeafChange { key: k(1), value_hash: Some(k(11)) },
        LeafChange { key: k(2), value_hash: Some(k(12)) },
    ]);
    let diff = vec![
        LeafChange { key: k(1), value_hash: Some(k(21)) },
        LeafChange { key: k(2), value_hash: None },
        LeafChange { key: k(3), value_hash: Some(k(13)) },
        LeafChange { key: k(3), value_hash: Some(k(23)) },
        LeafChange { key: k(4), value_hash: None },
    ];
    let undo = tree.apply_diff(&diff);
    assert_eq!(tree.get(&k(1)), Some(k(21)));
    assert_eq!(tree.get(&k(2)), None);
    assert_eq!(tree.get(&k(3)), Some(k(23)));
    assert_eq!(undo.len(), 5);
    assert_eq!(undo[0].value_hash, Some(k(11)));
    assert_eq!(undo[2].value_hash, None);
    assert_eq!(undo[3].value_hash, Some(k(13)));
    tree.revert(&undo);
    assert_eq!(tree.get(&k(1)), Some(k(11)));
    assert_eq!(tree.get(&k(2)), Some(k(12)));
    assert_eq!(tree.get(&k(3)), None);
    assert_eq!(tree.get(&k(4)), None);
}

#[test]
fn delete_of_absent_leaf_is_noop() {
    let mut tree = StateTree::new();
    let undo = tree.apply(LeafChange { key: k(9), value_hash: None });
    assert_eq!(undo.value_hash, None);
    assert_eq!(tree.get(&k(9)), None);
}
