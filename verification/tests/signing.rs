use tx_sitter::signing_keys::{KeyError, SigningKey};

#[test]
fn zero_key_material_is_rejected() {
    // Zero is no valid scalar, whatever the backend.
    let r = SigningKey::new_insecure(vec![0u8; 32]);
    assert!(matches!(r, Err(KeyError::InvalidPrivateKey)));
}

#[test]
fn key_above_the_group_order_is_rejected() {
    // All-ones exceeds the secp256k1 group order.
    let r = SigningKey::new_insecure(vec![0xffu8; 32]);
    assert!(matches!(r, Err(KeyError::InvalidPrivateKey)));
}

#[test]
fn smallest_valid_scalar_is_accepted_with_a_fixed_address() {
    let mut one = vec![0u8; 32];
    one[31] = 1;
    let key = SigningKey::new_insecure(one.clone()).unwrap();
    match &key {
        SigningKey::Insecure { address, private_key } => {
            assert_eq!(*private_key, one);
            // The address of the scalar one is a fixed, well-known value.
            assert_eq!(
                address.bytes,
                vec![
                    0x7e, 0x5f, 0x45, 0x52, 0x09, 0x1a, 0x69, 0x12, 0x5d, 0x5d, 0xfc, 0xb7, 0xb8,
                    0xc2, 0x65, 0x90, 0x29, 0x39, 0x5b, 0xdf
                ]
            );
        },
        SigningKey::AwsKms { .. } => panic!("expected in-process key material"),
    }

    // Derivation is deterministic: the same bytes give the same key.
    let again = SigningKey::new_insecure(one).unwrap();
    assert_eq!(key, again);
}

#[test]
fn random_keys_are_valid_and_carry_their_address() {
    let key = SigningKey::new_random_insecure();
    match &key {
        SigningKey::Insecure { address, private_key } => {
            assert_eq!(address.bytes.len(), 20);
            assert_eq!(private_key.len(), 32);
            assert_eq!(key.address().bytes, address.bytes);
        },
        SigningKey::AwsKms { .. } => panic!("expected in-process key material"),
    }
}

#[test]
fn from_row_rebuilds_both_kinds() {
    let key = SigningKey::new_random_insecure();
    let (address, material) = match &key {
        SigningKey::Insecure { address, private_key } => {
            (address.bytes.clone(), private_key.clone())
        },
        SigningKey::AwsKms { .. } => panic!("expected in-process key material"),
    };

    let rebuilt = SigningKey::from_row(&address, Some(&material), None).unwrap();
    assert_eq!(rebuilt, key);

    let kms = SigningKey::from_row(&address, None, Some("alias/ops".to_owned())).unwrap();
    match kms {
        SigningKey::AwsKms { address: a, key_id } => {
            assert_eq!(a.bytes, address);
            assert_eq!(key_id, "alias/ops");
        },
        SigningKey::Insecure { .. } => panic!("expected an external key reference"),
    }

    // A malformed stored address fails to decode.
    let bad = SigningKey::from_row(&vec![0u8; 19], None, Some("alias/ops".to_owned()));
    assert!(bad.is_err());
}
