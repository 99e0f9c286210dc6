use tx_sitter::db::Database;
use tx_sitter::signing_keys::SigningKey;
use tx_sitter::transaction_requests::Error;
use tx_sitter::types::{Address, TransactionRequest, Tx, TxSender};
use tx_sitter::u256::U256;

fn new_test_db() -> Database {
    Database::new()
}

fn base_request() -> TransactionRequest {
    TransactionRequest {
        idempotency_key: None,
        chain_id: 1,
        sender: TxSender::from(""),
        gas_limit: None,
        tx: Tx::Call {
            receiver: Address::zeroed(),
            value: U256::zero(),
            calldata: Vec::new(),
        },
    }
}

fn request_with_sender(sender: TxSender) -> TransactionRequest {
    let mut req = base_request();
    req.sender = sender;
    req
}

// try to round-trip an insecure key through the store
#[test]
fn insert_and_read() {
    let db = &mut new_test_db();
    let key = SigningKey::new_random_insecure();

    db.insert_signing_key_with_name(&key, "name").unwrap();

    let res = db.sender_to_key(&TxSender::from("name")).unwrap();
    match res {
        Some(key_with_id) => {
            assert_eq!(key_with_id.key, key);
            assert_eq!(key_with_id.id, 1);
        },
        None => panic!("expected a key for the registered name"),
    }

    let key_with_id = db.sender_to_key(&TxSender::from(key.address())).unwrap();
    match &key_with_id {
        Some(key_with_id) => {
            assert_eq!(key_with_id.key, key);
            assert_eq!(key_with_id.id, 1);
        },
        None => panic!("expected a key for the registered address"),
    }

    let key_with_id = db.sender_to_key(&TxSender::from("other_name")).unwrap();
    assert!(matches!(key_with_id, None));
}

#[test]
fn test_no_such_sender() {
    let db = &mut new_test_db();

    let req = request_with_sender(TxSender::from("nosuchsender"));
    let res = db.insert_transaction_request(&req);

    assert!(matches!(res, Err(Error::NoSuchSender(_))));
}

#[test]
fn test_idempotency_key_is_null() {
    let db = &mut new_test_db();

    let key = SigningKey::new_random_insecure();
    db.insert_signing_key_with_name(&key, "one").unwrap();

    let mut req = request_with_sender(TxSender::from("one"));
    req.idempotency_key = None;

    // if nulls conflict with each other the second request will fail
    db.insert_transaction_request(&req).unwrap();
    db.insert_transaction_request(&req).unwrap();
}

#[test]
fn test_idempotency_key_exists() {
    let db = &mut new_test_db();

    let key = SigningKey::new_random_insecure();
    db.insert_signing_key_with_name(&key, "one").unwrap();

    let mut req = request_with_sender(TxSender::from("one"));
    req.idempotency_key = Some(vec![0xde, 0xad, 0xbe, 0xef]);

    db.insert_transaction_request(&req).unwrap();
    assert!(matches!(db.insert_transaction_request(&req), Err(Error::Idempotency)));
}

#[test]
fn test_find_transaction_no_transaction() {
    let db = new_test_db();
    let res = db.find_unsubmitted_transaction();
    assert!(matches!(res, Ok(None)));
}

#[test]
fn test_find_transaction_roundtrip() {
    let db = &mut new_test_db();

    let key = SigningKey::new_random_insecure();
    db.insert_signing_key_with_name(&key, "one").unwrap();

    let mut req = request_with_sender(TxSender::from("one"));
    req.idempotency_key = Some(vec![0xde, 0xad, 0xbe, 0xef]);

    db.insert_transaction_request(&req).unwrap();

    let res = db.find_unsubmitted_transaction();
    match res {
        Ok(Some(resp_req)) => assert_eq!(req, resp_req),
        other => panic!("expected the stored request back, got {:?}", other),
    }
}

#[test]
fn fifo_returns_oldest_then_next() {
    // Insert A, B, C in order; the store hands back A first, and B
    // once A is marked dispatched.
    let db = &mut new_test_db();
    let key = SigningKey::new_random_insecure();
    db.insert_signing_key_with_name(&key, "one").unwrap();

    let mut a = request_with_sender(TxSender::from("one"));
    a.tx = Tx::Call { receiver: Address::zeroed(), value: U256::zero(), calldata: vec![1] };
    let mut b = request_with_sender(TxSender::from("one"));
    b.tx = Tx::Call { receiver: Address::zeroed(), value: U256::zero(), calldata: vec![2] };
    let mut c = request_with_sender(TxSender::from("one"));
    c.tx = Tx::Call { receiver: Address::zeroed(), value: U256::zero(), calldata: vec![3] };

    db.insert_transaction_request(&a).unwrap();
    db.insert_transaction_request(&b).unwrap();
    db.insert_transaction_request(&c).unwrap();

    let (first_id, first) = db.find_unsubmitted_transaction_with_id().unwrap().unwrap();
    assert_eq!(first, a);
    assert_eq!(first_id, 1);

    db.mark_transaction_dispatched(first_id).unwrap();

    let (second_id, second) = db.find_unsubmitted_transaction_with_id().unwrap().unwrap();
    assert_eq!(second, b);
    assert_eq!(second_id, 2);
}

#[test]
fn sender_resolution_matches_exactly() {
    // Exact address or exact name only; an unregistered sender is
    // None, never an error.
    let db = &mut new_test_db();
    let key = SigningKey::new_random_insecure();
    db.insert_signing_key_with_name(&key, "one").unwrap();

    let found = db.find_key_for_sender(&TxSender::from("one")).unwrap();
    assert_eq!(found, Some(key.duplicate()));

    let by_address = db.find_key_for_sender(&TxSender::from(key.address())).unwrap();
    assert_eq!(by_address, Some(key.duplicate()));

    assert!(matches!(db.find_key_for_sender(&TxSender::from("on")), Ok(None)));
    assert!(matches!(db.find_key_for_sender(&TxSender::from("one ")), Ok(None)));
    assert!(matches!(db.find_key_for_sender(&TxSender::from("")), Ok(None)));

    let mut other = vec![0u8; 20];
    other[0] = !key.address().bytes[0];
    let other = Address::from_bytes(other).unwrap();
    assert!(matches!(db.find_key_for_sender(&TxSender::from(&other)), Ok(None)));
}

#[test]
fn registry_rejects_duplicate_names_and_addresses() {
    let db = &mut new_test_db();
    let key = SigningKey::new_random_insecure();
    db.insert_signing_key_with_name(&key, "one").unwrap();

    // The same address cannot be registered twice.
    assert!(matches!(db.insert_signing_key(&key), Err(Error::Internal(_))));

    // Another key cannot take a name already in use.
    let other = SigningKey::new_random_insecure();
    assert!(matches!(db.insert_signing_key_with_name(&other, "one"), Err(Error::Internal(_))));

    // A fresh name and address are fine.
    db.insert_signing_key_with_name(&other, "two").unwrap();
}

#[test]
fn external_reference_keys_register_and_resolve() {
    // An external-reference key registers like any other: the registry
    // stores the address and the reference, never private material.
    let db = &mut new_test_db();
    let mut addr = vec![0u8; 20];
    addr[0] = 0xaa;
    let key = SigningKey::AwsKms {
        address: Address::from_bytes(addr).unwrap(),
        key_id: "alias/ops".to_owned(),
    };
    db.insert_signing_key_with_name(&key, "kms").unwrap();

    let found = db.find_key_for_sender(&TxSender::from("kms")).unwrap();
    assert_eq!(found, Some(key.duplicate()));
    let by_address = db.find_key_for_sender(&TxSender::from(key.address())).unwrap();
    assert_eq!(by_address, Some(key.duplicate()));

    // A request naming that sender is accepted.
    let req = request_with_sender(TxSender::from("kms"));
    db.insert_transaction_request(&req).unwrap();
}

#[test]
fn scenario_register_submit_resubmit_find() {
    // Register a signing key; submit a call request with an
    // idempotency key on chain 1; a resubmission is rejected as a
    // duplicate; retrieval returns a request matching the stored
    // identity triple.
    let db = &mut new_test_db();
    let key = SigningKey::new_random_insecure();
    db.insert_signing_key(&key).unwrap();

    let mut receiver = vec![0xaau8; 20];
    receiver[19] = 0x01;
    let mut req = request_with_sender(TxSender::from(key.address()));
    req.tx = Tx::Call {
        receiver: Address::from_bytes(receiver).unwrap(),
        value: U256::from_u64(10),
        calldata: vec![0x01, 0x02],
    };
    req.idempotency_key = Some(vec![0xde, 0xad, 0xbe, 0xef]);
    req.chain_id = 1;

    db.insert_transaction_request(&req).unwrap();
    assert!(matches!(db.insert_transaction_request(&req), Err(Error::Idempotency)));

    let found = db.find_unsubmitted_transaction().unwrap().unwrap();
    assert_eq!(found.chain_id, req.chain_id);
    assert_eq!(found.sender, req.sender);
    assert_eq!(found.tx, req.tx);
    assert_eq!(found, req);
}

#[test]
fn engine_message_mapping_detects_idempotency_violations() {
    let mapped = Error::from_database_message(
        "UNIQUE constraint failed: tx_requests.idempotency_key",
    );
    assert!(matches!(mapped, Error::Idempotency));

    let other = Error::from_database_message("UNIQUE constraint failed: signing_keys.address");
    assert!(matches!(other, Error::Internal(_)));

    let plain = Error::from_database_message("disk I/O error");
    assert!(matches!(plain, Error::Internal(_)));
}
