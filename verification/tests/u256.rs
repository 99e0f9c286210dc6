use tx_sitter::proto::{WireU256, WireU256Value};
use tx_sitter::u256::{DecParseError, HexParseError, U256};

#[test]
fn test_u256_0x_prefix_ignored() {
    let u256 = WireU256 { u256: Some(WireU256Value::HexEncoded("0xdeadbeef".to_owned())) };

    let u256: U256 = U256::try_from(u256).unwrap();
    assert_eq!(u256, U256::from_hex_str("deadbeef").unwrap());
}

#[test]
fn test_u256_bad_hex_string() {
    let u256 = WireU256 { u256: Some(WireU256Value::HexEncoded("0xdeadbeefg".to_owned())) };

    let u256 = U256::try_from(u256);
    assert!(u256.is_err());

    let err = u256.unwrap_err().message();
    assert!(
        err.contains("could not decode hex encoded"),
        "expected {:?} to contain {:?}",
        err,
        "could not decode hex encoded"
    );
    assert!(
        err.contains("Invalid character 'g'"),
        "expected {:?} to contain {:?}",
        err,
        "Invalid character 'g'"
    );
}

#[test]
fn test_u256_bad_dec_string() {
    let u256 = WireU256 { u256: Some(WireU256Value::DecimalEncoded("10x".to_owned())) };

    let u256 = U256::try_from(u256);
    assert!(u256.is_err());

    let err = u256.unwrap_err().message();
    assert!(
        err.contains("could not decode decimal encoded"),
        "expected {:?} to contain {:?}",
        err,
        "could not decode decimal encoded"
    );
    assert!(
        err.contains("character is not in the range"),
        "expected {:?} to contain {:?}",
        err,
        "character is not in the range"
    );
}

#[test]
fn hex_empty_and_marker_only_are_zero() {
    assert_eq!(U256::from_hex_str("").unwrap(), U256::zero());
    assert_eq!(U256::from_hex_str("0x").unwrap(), U256::zero());
}

#[test]
fn hex_sixty_four_digits_is_the_limit() {
    let max = "f".repeat(64);
    let v = U256::from_hex_str(&max).unwrap();
    assert_eq!(v, U256 { limb0: u64::MAX, limb1: u64::MAX, limb2: u64::MAX, limb3: u64::MAX });

    let over = "f".repeat(65);
    assert_eq!(U256::from_hex_str(&over), Err(HexParseError::InvalidLength));
}

#[test]
fn hex_reports_first_bad_character() {
    assert_eq!(U256::from_hex_str("12zx34"), Err(HexParseError::InvalidCharacter('z')));
}

#[test]
fn dec_empty_is_zero_and_overflow_is_too_large() {
    assert_eq!(U256::from_dec_str("").unwrap(), U256::zero());
    assert_eq!(U256::from_dec_str("4660").unwrap(), U256::from_u64(4660));

    // 2^256 - 1 decodes; 2^256 does not.
    let max = "115792089237316195423570985008687907853269984665640564039457584007913129639935";
    let v = U256::from_dec_str(max).unwrap();
    assert_eq!(v, U256 { limb0: u64::MAX, limb1: u64::MAX, limb2: u64::MAX, limb3: u64::MAX });

    let over = "115792089237316195423570985008687907853269984665640564039457584007913129639936";
    assert_eq!(U256::from_dec_str(over), Err(DecParseError::InvalidLength));
}

#[test]
fn dec_character_check_runs_before_overflow() {
    // The bad character comes first in the scan, so it wins even
    // though the digits after it would overflow.
    let text = format!("x{}", "9".repeat(100));
    assert_eq!(U256::from_dec_str(&text), Err(DecParseError::InvalidCharacter));
    // With enough digits before the bad character, overflow wins.
    let text = format!("{}x", "9".repeat(100));
    assert_eq!(U256::from_dec_str(&text), Err(DecParseError::InvalidLength));
}

#[test]
fn big_endian_round_trip_full_range() {
    let zero = U256::zero();
    let blob = zero.to_be_bytes();
    assert_eq!(blob, vec![0u8; 32]);
    assert_eq!(U256::from_be_bytes(&blob).unwrap(), zero);

    let max = U256 { limb0: u64::MAX, limb1: u64::MAX, limb2: u64::MAX, limb3: u64::MAX };
    let blob = max.to_be_bytes();
    assert_eq!(blob, vec![0xffu8; 32]);
    assert_eq!(U256::from_be_bytes(&blob).unwrap(), max);

    let v = U256::from_hex_str("0102030405060708090a0b0c0d0e0f101112131415161718191a1b1c1d1e1f20")
        .unwrap();
    assert_eq!(U256::from_be_bytes(&v.to_be_bytes()).unwrap(), v);
}

#[test]
fn short_big_endian_input_pads_left() {
    let v = U256::from_be_bytes(&vec![0xde, 0xad, 0xbe, 0xef]).unwrap();
    assert_eq!(v, U256::from_u64(0xdead_beef));
    assert_eq!(U256::from_be_bytes(&vec![0u8; 33]), None);
}

#[test]
fn little_endian_reverses_the_bytes() {
    let v = U256::from_le_bytes(&vec![0xef, 0xbe, 0xad, 0xde]).unwrap();
    assert_eq!(v, U256::from_u64(0xdead_beef));
    assert_eq!(U256::from_le_bytes(&vec![0u8; 33]), None);
}

#[test]
fn wire_u256_byte_encodings() {
    let w = WireU256 { u256: Some(WireU256Value::BigEndian(vec![0x12, 0x34])) };
    assert_eq!(U256::try_from(w).unwrap(), U256::from_u64(0x1234));

    let w = WireU256 { u256: Some(WireU256Value::LittleEndian(vec![0x34, 0x12])) };
    assert_eq!(U256::try_from(w).unwrap(), U256::from_u64(0x1234));
}
