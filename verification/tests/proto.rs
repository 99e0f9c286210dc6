use tx_sitter::proto::{
    h160_from_str, ReadProtobufError, SendTransactionRequest, WireSender, WireTransaction,
    WireTxCall, WireTxDeploy, WireU256, WireU256Value,
};
use tx_sitter::types::{Tx, TxSender};
use tx_sitter::u256::{HexParseError, U256};

fn wire_value(n: &str) -> Option<WireU256> {
    Some(WireU256 { u256: Some(WireU256Value::DecimalEncoded(n.to_owned())) })
}

#[test]
fn address_text_decodes_with_and_without_marker() {
    let plain = "00000000000000000000000000000000deadbeef";
    let a = h160_from_str(plain).unwrap();
    let b = h160_from_str("0x00000000000000000000000000000000deadbeef").unwrap();
    assert_eq!(a, b);
    assert_eq!(a.bytes[16..], [0xde, 0xad, 0xbe, 0xef]);
}

#[test]
fn address_text_of_wrong_length_fails() {
    assert!(matches!(
        h160_from_str("abcd"),
        Err(ReadProtobufError::DecodeAddressError(HexParseError::InvalidLength))
    ));
    assert!(matches!(
        h160_from_str(""),
        Err(ReadProtobufError::DecodeAddressError(HexParseError::InvalidLength))
    ));
}

#[test]
fn address_text_reports_the_first_bad_character() {
    let r = h160_from_str("0xz0000000000000000000000000000000deadbeef");
    assert!(matches!(
        r,
        Err(ReadProtobufError::DecodeAddressError(HexParseError::InvalidCharacter('z')))
    ));
}

#[test]
fn empty_u256_field_is_rejected() {
    let w = WireU256 { u256: None };
    assert!(matches!(U256::try_from(w), Err(ReadProtobufError::EmptyU256)));
}

#[test]
fn oversized_byte_encoding_is_rejected() {
    let w = WireU256 { u256: Some(WireU256Value::BigEndian(vec![0u8; 33])) };
    assert!(matches!(U256::try_from(w), Err(ReadProtobufError::U256TooManyBytes)));
}

#[test]
fn wire_sender_decodes_both_kinds() {
    let named = TxSender::try_from(WireSender::Named("alice".to_owned())).unwrap();
    assert_eq!(named, TxSender::from("alice"));

    let addressed =
        TxSender::try_from(WireSender::Address("0x00000000000000000000000000000000deadbeef".to_owned()))
            .unwrap();
    let expected = h160_from_str("00000000000000000000000000000000deadbeef").unwrap();
    assert_eq!(addressed, TxSender::from(&expected));
}

#[test]
fn wire_call_decodes_receiver_then_value() {
    let call = WireTransaction::Call(WireTxCall {
        receiver: "0x00000000000000000000000000000000deadbeef".to_owned(),
        value: wire_value("7"),
        calldata: vec![1, 2, 3],
    });
    let tx = Tx::try_from(call).unwrap();
    match tx {
        Tx::Call { receiver, value, calldata } => {
            assert_eq!(receiver, h160_from_str("00000000000000000000000000000000deadbeef").unwrap());
            assert_eq!(value, U256::from_u64(7));
            assert_eq!(calldata, vec![1, 2, 3]);
        },
        Tx::Deploy { .. } => panic!("decoded the wrong payload kind"),
    }

    let missing_value = WireTransaction::Call(WireTxCall {
        receiver: "0x00000000000000000000000000000000deadbeef".to_owned(),
        value: None,
        calldata: vec![],
    });
    assert!(matches!(Tx::try_from(missing_value), Err(ReadProtobufError::EmptyU256)));

    let bad_receiver = WireTransaction::Call(WireTxCall {
        receiver: "nonsense".to_owned(),
        value: wire_value("7"),
        calldata: vec![],
    });
    assert!(matches!(Tx::try_from(bad_receiver), Err(ReadProtobufError::DecodeAddressError(_))));
}

#[test]
fn wire_deploy_decodes_value_and_initcode() {
    let deploy =
        WireTransaction::Deploy(WireTxDeploy { value: wire_value("0"), initcode: vec![9, 9] });
    let tx = Tx::try_from(deploy).unwrap();
    match tx {
        Tx::Deploy { value, initcode } => {
            assert_eq!(value, U256::zero());
            assert_eq!(initcode, vec![9, 9]);
        },
        Tx::Call { .. } => panic!("decoded the wrong payload kind"),
    }
}

#[test]
fn whole_request_requires_sender_and_transaction() {
    let missing_sender = SendTransactionRequest {
        chain_id: 1,
        sender: None,
        transaction: Some(WireTransaction::Deploy(WireTxDeploy {
            value: wire_value("0"),
            initcode: vec![],
        })),
        gas_limit: None,
        idempotency_key: None,
    };
    assert!(matches!(
        tx_sitter::types::TransactionRequest::try_from(missing_sender),
        Err(ReadProtobufError::EmptySender)
    ));

    let missing_tx = SendTransactionRequest {
        chain_id: 1,
        sender: Some(WireSender::Named("alice".to_owned())),
        transaction: None,
        gas_limit: None,
        idempotency_key: None,
    };
    assert!(matches!(
        tx_sitter::types::TransactionRequest::try_from(missing_tx),
        Err(ReadProtobufError::EmptyTransaction)
    ));
}

#[test]
fn whole_request_reads_gas_limit_first() {
    // A malformed gas limit is reported even when the sender is also
    // missing, matching the order the fields are read.
    let bad_gas = SendTransactionRequest {
        chain_id: 1,
        sender: None,
        transaction: None,
        gas_limit: Some(WireU256 { u256: Some(WireU256Value::DecimalEncoded("x".to_owned())) }),
        idempotency_key: None,
    };
    assert!(matches!(
        tx_sitter::types::TransactionRequest::try_from(bad_gas),
        Err(ReadProtobufError::DecodeDecimalError(_))
    ));
}

#[test]
fn whole_request_carries_every_field() {
    let wire = SendTransactionRequest {
        chain_id: 5,
        sender: Some(WireSender::Named("alice".to_owned())),
        transaction: Some(WireTransaction::Deploy(WireTxDeploy {
            value: wire_value("3"),
            initcode: vec![7],
        })),
        gas_limit: wire_value("21000"),
        idempotency_key: Some(vec![0xde, 0xad]),
    };
    let req = tx_sitter::types::TransactionRequest::try_from(wire).unwrap();
    assert_eq!(req.chain_id, 5);
    assert_eq!(req.sender, TxSender::from("alice"));
    assert_eq!(req.gas_limit, Some(U256::from_u64(21000)));
    assert_eq!(req.idempotency_key, Some(vec![0xde, 0xad]));
    match req.tx {
        Tx::Deploy { value, initcode } => {
            assert_eq!(value, U256::from_u64(3));
            assert_eq!(initcode, vec![7]);
        },
        Tx::Call { .. } => panic!("decoded the wrong payload kind"),
    }
}

#[test]
fn empty_field_messages_name_the_field() {
    assert_eq!(ReadProtobufError::EmptyU256.message(), "U256 oneof must not be empty");
    assert_eq!(ReadProtobufError::EmptySender.message(), "sender oneof must not be empty");
    assert_eq!(
        ReadProtobufError::EmptyTransaction.message(),
        "transaction oneof must not be empty"
    );
}
