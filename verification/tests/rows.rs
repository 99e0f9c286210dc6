use tx_sitter::codec::{address_to_blob, bytes_to_blob, u256_to_blob, CodecError};
use tx_sitter::types::{Address, TransactionRequest, Tx, TxSender};
use tx_sitter::u256::U256;

fn address_ending_in(last: u8) -> Address {
    let mut bytes = vec![0u8; 20];
    bytes[19] = last;
    Address::from_bytes(bytes).unwrap()
}

#[test]
fn sender_row_prefers_the_name() {
    let blob = address_to_blob(&address_ending_in(9));
    let named = TxSender::from_row(Some("one".to_owned()), &blob).unwrap();
    assert_eq!(named, TxSender::from("one"));

    let addressed = TxSender::from_row(None, &blob).unwrap();
    assert_eq!(addressed, TxSender::from(&address_ending_in(9)));

    let bad = TxSender::from_row(None, &vec![0u8; 19]);
    assert!(matches!(bad, Err(CodecError::BadLength)));
}

#[test]
fn call_row_round_trips() {
    let receiver = address_ending_in(3);
    let value = U256::from_u64(77);
    let calldata = vec![1u8, 2, 3];

    let receiver_blob = address_to_blob(&receiver);
    let value_blob = u256_to_blob(&value);
    let data_blob = bytes_to_blob(&calldata);

    let tx = Tx::from_row("call", Some(&receiver_blob), Some(&value_blob), Some(&data_blob))
        .unwrap();
    assert_eq!(tx, Tx::Call { receiver, value, calldata });
}

#[test]
fn deploy_row_round_trips() {
    let value = U256::from_u64(5);
    let initcode = vec![9u8];
    let value_blob = u256_to_blob(&value);
    let data_blob = bytes_to_blob(&initcode);

    let tx = Tx::from_row("deploy", None, Some(&value_blob), Some(&data_blob)).unwrap();
    assert_eq!(tx, Tx::Deploy { value, initcode });
}

#[test]
fn null_payload_columns_fail_to_hydrate() {
    let value_blob = u256_to_blob(&U256::zero());
    let r = Tx::from_row("deploy", None, None, Some(&vec![]));
    assert!(matches!(r, Err(CodecError::NullColumn)));
    let r = Tx::from_row("deploy", None, Some(&value_blob), None);
    assert!(matches!(r, Err(CodecError::NullColumn)));
    let r = Tx::from_row("call", None, Some(&value_blob), Some(&vec![]));
    assert!(matches!(r, Err(CodecError::NullColumn)));
}

#[test]
fn whole_request_row_round_trips() {
    let receiver = address_ending_in(4);
    let value = U256::from_u64(11);
    let calldata = vec![8u8, 8];
    let gas = U256::from_u64(21000);

    let original = TransactionRequest {
        chain_id: 5,
        sender: TxSender::from("one"),
        tx: Tx::Call {
            receiver: receiver.duplicate(),
            value,
            calldata: calldata.clone(),
        },
        idempotency_key: Some(vec![0xde, 0xad]),
        gas_limit: Some(gas),
    };

    let receiver_blob = address_to_blob(&receiver);
    let value_blob = u256_to_blob(&value);
    let data_blob = bytes_to_blob(&calldata);
    let gas_blob = u256_to_blob(&gas);
    let idem = vec![0xde, 0xad];
    let signer_address = address_to_blob(&address_ending_in(1));

    let hydrated = TransactionRequest::from_row(
        5,
        Some("one".to_owned()),
        &signer_address,
        "call",
        Some(&receiver_blob),
        Some(&value_blob),
        Some(&data_blob),
        Some(&idem),
        Some(&gas_blob),
    )
    .unwrap();

    assert_eq!(hydrated, original);
    assert_eq!(hydrated.idempotency_key, original.idempotency_key);
    assert_eq!(hydrated.gas_limit, original.gas_limit);
}
