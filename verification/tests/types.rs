use tx_sitter::types::{Address, TransactionRequest, Tx, TxSender};
use tx_sitter::u256::U256;

fn some_address(last: u8) -> Address {
    let mut bytes = vec![0u8; 20];
    bytes[19] = last;
    Address::from_bytes(bytes).unwrap()
}

fn call_request(chain_id: u32, sender: TxSender) -> TransactionRequest {
    TransactionRequest {
        chain_id,
        sender,
        tx: Tx::Call { receiver: some_address(7), value: U256::from_u64(5), calldata: vec![1, 2] },
        idempotency_key: None,
        gas_limit: None,
    }
}

#[test]
fn identity_ignores_metadata() {
    // Equal (chain_id, sender, tx) triples are equal requests,
    // whatever their idempotency keys and gas limits.
    let mut a = call_request(1, TxSender::from("alice"));
    let mut b = call_request(1, TxSender::from("alice"));
    a.idempotency_key = Some(vec![0xde, 0xad]);
    b.idempotency_key = None;
    a.gas_limit = Some(U256::from_u64(21000));
    b.gas_limit = Some(U256::from_u64(42000));
    assert_eq!(a, b);
}

#[test]
fn identity_distinguishes_the_triple() {
    let a = call_request(1, TxSender::from("alice"));
    let b = call_request(2, TxSender::from("alice"));
    assert_ne!(a, b);

    let c = call_request(1, TxSender::from("bob"));
    assert_ne!(a, c);

    let mut d = call_request(1, TxSender::from("alice"));
    d.tx = Tx::Call { receiver: some_address(8), value: U256::from_u64(5), calldata: vec![1, 2] };
    assert_ne!(a, d);

    let mut e = call_request(1, TxSender::from("alice"));
    e.tx = Tx::Deploy { value: U256::from_u64(5), initcode: vec![1, 2] };
    assert_ne!(a, e);
}

#[test]
fn senders_compare_exactly() {
    assert_eq!(TxSender::from("alice"), TxSender::from("alice"));
    assert_ne!(TxSender::from("alice"), TxSender::from("Alice"));
    assert_ne!(TxSender::from("alice"), TxSender::from(&some_address(1)));
    assert_eq!(TxSender::from(&some_address(1)), TxSender::from(&some_address(1)));
    assert_ne!(TxSender::from(&some_address(1)), TxSender::from(&some_address(2)));
}

#[test]
fn duplicate_preserves_every_field() {
    let mut a = call_request(9, TxSender::from(&some_address(3)));
    a.idempotency_key = Some(vec![5, 6]);
    a.gas_limit = Some(U256::from_u64(100));
    let b = a.duplicate();
    assert_eq!(a, b);
    assert_eq!(a.idempotency_key, b.idempotency_key);
    assert_eq!(a.gas_limit, b.gas_limit);
}
