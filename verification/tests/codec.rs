use tx_sitter::codec::{
    address_to_blob, blob_to_address, bytes_to_blob, read_address, read_bytes, read_bytes_option,
    read_u256, read_u256_option, u256_to_blob, CodecError,
};
use tx_sitter::types::Address;
use tx_sitter::u256::U256;

#[test]
fn u256_blob_is_32_big_endian_bytes() {
    let blob = u256_to_blob(&U256::from_u64(0xdead_beef));
    assert_eq!(blob.len(), 32);
    assert_eq!(&blob[28..], &[0xde, 0xad, 0xbe, 0xef]);
    assert_eq!(&blob[..28], &[0u8; 28]);
}

#[test]
fn u256_blob_round_trips_zero_and_max() {
    let zero = U256::zero();
    assert_eq!(read_u256(Some(&u256_to_blob(&zero))).unwrap(), zero);

    let max = U256 { limb0: u64::MAX, limb1: u64::MAX, limb2: u64::MAX, limb3: u64::MAX };
    assert_eq!(read_u256(Some(&u256_to_blob(&max))).unwrap(), max);
}

#[test]
fn u256_null_and_oversized_columns_fail() {
    assert_eq!(read_u256(None), Err(CodecError::NullColumn));
    assert_eq!(read_u256(Some(&vec![0u8; 33])), Err(CodecError::BadLength));
    assert_eq!(read_u256_option(None).unwrap(), None);
    assert!(read_u256_option(Some(&vec![0u8; 32])).unwrap().is_some());
}

#[test]
fn address_blob_round_trips() {
    let mut bytes = vec![0u8; 20];
    bytes[0] = 0xaa;
    bytes[19] = 0xbb;
    let a = Address::from_bytes(bytes.clone()).unwrap();
    let blob = address_to_blob(&a);
    assert_eq!(blob, bytes);
    let back = blob_to_address(&blob).unwrap();
    assert_eq!(back, a);
}

#[test]
fn non_twenty_byte_blobs_are_no_addresses() {
    assert_eq!(blob_to_address(&vec![0u8; 19]), Err(CodecError::BadLength));
    assert_eq!(blob_to_address(&vec![0u8; 21]), Err(CodecError::BadLength));
    assert_eq!(blob_to_address(&vec![]), Err(CodecError::BadLength));
    assert!(blob_to_address(&vec![0u8; 20]).is_ok());
    assert_eq!(read_address(None), Err(CodecError::NullColumn));
}

#[test]
fn payload_blobs_pass_through() {
    let data = vec![1u8, 2, 3];
    assert_eq!(bytes_to_blob(&data), data);
    assert_eq!(read_bytes(Some(&data)).unwrap(), data);
    assert!(matches!(read_bytes(None), Err(CodecError::NullColumn)));
    assert_eq!(read_bytes_option(None).unwrap(), None);
    assert_eq!(read_bytes_option(Some(&data)).unwrap(), Some(data));
}
