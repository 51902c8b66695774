use dan_consensus::accounts::{AccountsApi, AccountsApiError, WalletStorageError, WalletStore};
use dan_consensus::models::{address_in_range, copy_fixed, validator_node_info, MissingPort};
use dan_consensus::model::{Decision, ValidatorSignature};
use dan_consensus::votes::{OnReceiveVoteHandler, VoteMessage, VoteReceiver};

#[test]
fn accounts_add_and_query() {
    let mut api = AccountsApi::new(WalletStore::new());
    api.add_account(Some("alice"), "component_a", 0, true).unwrap();
    api.add_account(None, "component_b", 1, false).unwrap();
    api.add_account(Some("carol"), "component_c", 2, true).unwrap();
    assert_eq!(api.count().unwrap(), 3);
    assert_eq!(api.get_default().unwrap().address, "component_c");
    assert_eq!(api.get_account_by_name("alice").unwrap().key_index, 0);
    let page = api.get_many(1, 5).unwrap();
    assert_eq!(page.len(), 2);
    assert_eq!(page[0].address, "component_b");
    assert!(api.get_many(9, 5).unwrap().is_empty());
    assert!(matches!(
        api.add_account(Some("alice"), "component_d", 3, false),
        Err(AccountsApiError::AccountNameAlreadyExists { name }) if name == "alice"
    ));
    assert!(matches!(
        api.add_account(Some("dave"), "component_a", 3, false),
        Err(AccountsApiError::StoreError(WalletStorageError::DuplicateEntry { .. }))
    ));
    let err = api.get_account_by_name("nobody").unwrap_err();
    assert!(err.is_not_found_error());
    api.set_default_account("component_a").unwrap();
    assert_eq!(api.get_default().unwrap().name.as_deref(), Some("alice"));
    assert!(api.has_account("component_b").unwrap());
    assert!(!api.exists_by_address("component_z").unwrap());
    assert_eq!(api.get_account_or_default(None).unwrap().address, "component_a");
}

#[test]
fn no_default_account_is_not_found() {
    let api = AccountsApi::new(WalletStore::new());
    assert!(api.get_default().unwrap_err().is_not_found_error());
}

#[test]
fn copy_fixed_copies_bytes() {
    let a: [u8; 4] = copy_fixed(&[1, 2, 3, 4]);
    assert_eq!(a, [1, 2, 3, 4]);
}

fn vote(signer: u8, block: u8) -> VoteMessage {
    VoteMessage {
        epoch: 1,
        block_id: [block; 32],
        block_height: 4,
        decision: Decision::Commit,
        signature: ValidatorSignature { public_key: [signer; 32], signature: [signer; 64] },
    }
}

#[test]
fn votes_form_qc_at_quorum() {
    let mut handler = OnReceiveVoteHandler::new(VoteReceiver::new(4, 3));
    assert!(handler.handle(vote(1, 9)).is_none());
    assert!(handler.handle(vote(1, 9)).is_none());
    assert!(handler.handle(vote(2, 9)).is_none());
    assert!(handler.handle(vote(5, 8)).is_none());
    let qc = handler.handle(vote(3, 9)).unwrap();
    assert_eq!(qc.block_id, [9; 32]);
    assert_eq!(qc.shard_group, 3);
    assert_eq!(qc.signatures.len(), 3);
    assert_ne!(qc.qc_id, [0; 32]);
    assert!(handler.handle(vote(4, 9)).is_none());
}

#[test]
fn validator_node_urls() {
    let ports = vec![("jrpc".to_string(), 18145u16), ("web".to_string(), 8080u16)];
    let info = validator_node_info("vn1".to_string(), &ports, true).unwrap();
    assert_eq!(info.web, "http://localhost:8080");
    assert_eq!(info.jrpc, "http://localhost:18145");
    assert!(info.is_running);
    let only_web = vec![("web".to_string(), 1u16)];
    assert_eq!(validator_node_info("x".to_string(), &only_web, false).unwrap_err(), MissingPort { port_name: "jrpc" });
    assert_eq!(validator_node_info("x".to_string(), &vec![], false).unwrap_err(), MissingPort { port_name: "web" });
}

#[test]
fn address_in_range_wraps_the_draw() {
    assert_eq!(address_in_range(10, 20, 37), 17);
    assert_eq!(address_in_range(0, 1, u128::MAX), 0);
}
