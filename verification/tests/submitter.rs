use tx_sitter::db::Database;
use tx_sitter::signing_keys::SigningKey;
use tx_sitter::submitter::{conclude_dispatch, CycleAction, Submitter};
use tx_sitter::types::{Address, TransactionRequest, Tx, TxSender};
use tx_sitter::u256::U256;

fn store_with_one_request(chain_id: u32) -> Database {
    let mut db = Database::new();
    let key = SigningKey::new_random_insecure();
    db.insert_signing_key_with_name(&key, "one").unwrap();
    let req = TransactionRequest {
        chain_id,
        sender: TxSender::from("one"),
        tx: Tx::Call { receiver: Address::zeroed(), value: U256::zero(), calldata: vec![1] },
        idempotency_key: None,
        gas_limit: None,
    };
    db.insert_transaction_request(&req).unwrap();
    db
}

#[test]
fn empty_store_means_sleep() {
    let db = Database::new();
    let submitter = Submitter::new(vec![1]);
    assert!(matches!(submitter.plan_cycle(&db).unwrap(), CycleAction::Sleep));
}

#[test]
fn known_chain_is_dispatched_with_its_key() {
    let db = store_with_one_request(1);
    let submitter = Submitter::new(vec![1, 5]);
    match submitter.plan_cycle(&db).unwrap() {
        CycleAction::Dispatch { id, request, key } => {
            assert_eq!(id, 1);
            assert_eq!(request.chain_id, 1);
            assert_eq!(request.sender, TxSender::from("one"));
            assert!(matches!(key, SigningKey::Insecure { .. }));
        },
        other => panic!("expected a dispatch, got {:?}", other),
    }
}

#[test]
fn unknown_chain_is_skipped_for_the_cycle() {
    let db = store_with_one_request(77);
    let submitter = Submitter::new(vec![1, 5]);
    match submitter.plan_cycle(&db).unwrap() {
        CycleAction::SkipUnknownChain { id, chain_id } => {
            assert_eq!(id, 1);
            assert_eq!(chain_id, 77);
        },
        other => panic!("expected an unknown-chain skip, got {:?}", other),
    }
}

#[test]
fn reload_replaces_the_routing_table() {
    let db = store_with_one_request(77);
    let mut submitter = Submitter::new(vec![1]);
    assert!(matches!(
        submitter.plan_cycle(&db).unwrap(),
        CycleAction::SkipUnknownChain { .. }
    ));
    submitter.reload(vec![77]);
    assert!(matches!(submitter.plan_cycle(&db).unwrap(), CycleAction::Dispatch { .. }));
    assert!(submitter.has_upstream(77));
    assert!(!submitter.has_upstream(1));
}

#[test]
fn successful_dispatch_is_marked_and_leaves_the_queue() {
    let mut db = store_with_one_request(1);
    let submitter = Submitter::new(vec![1]);
    let id = match submitter.plan_cycle(&db).unwrap() {
        CycleAction::Dispatch { id, .. } => id,
        other => panic!("expected a dispatch, got {:?}", other),
    };
    conclude_dispatch(&mut db, id, true).unwrap();
    assert!(matches!(submitter.plan_cycle(&db).unwrap(), CycleAction::Sleep));
}

#[test]
fn failed_dispatch_stays_queued_for_the_next_cycle() {
    let mut db = store_with_one_request(1);
    let submitter = Submitter::new(vec![1]);
    let id = match submitter.plan_cycle(&db).unwrap() {
        CycleAction::Dispatch { id, .. } => id,
        other => panic!("expected a dispatch, got {:?}", other),
    };
    conclude_dispatch(&mut db, id, false).unwrap();
    match submitter.plan_cycle(&db).unwrap() {
        CycleAction::Dispatch { id: again, .. } => assert_eq!(again, id),
        other => panic!("expected the same dispatch again, got {:?}", other),
    }
}
