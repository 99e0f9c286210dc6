//! Byte-level encodings used by every storage engine binding: 256-bit
//! integers as exactly 32 big-endian bytes, addresses as exactly 20
//! bytes, payloads as raw byte strings. The encodings are engine
//! agnostic, so the same values round trip through any backend.

use crate::types::Address;
use crate::u256::{be_val, lemma_val_injective, U256};
use vstd::prelude::*;

verus! {

/// Why a stored column fails to decode: it was null where a value is
/// owed, or its blob has a length the schema never writes.
#[derive(Clone, Copy, PartialEq, Eq, Structural, Debug)]
pub enum CodecError {
    NullColumn,
    BadLength,
}

/// Encode a 256-bit integer as exactly 32 big-endian bytes.
pub fn u256_to_blob(u: &U256) -> (r: Vec<u8>)
    ensures
        r@.len() == 32,
        be_val(r@) == u.val(),
{
    u.to_be_bytes()
}

/// Decode an optional column blob into an optional 256-bit integer.
pub fn read_u256_option(v: Option<&Vec<u8>>) -> (r: Result<Option<U256>, CodecError>)
    ensures
        ({
            match v {
                None => r == Ok::<Option<U256>, CodecError>(None),
                Some(b) => if b@.len() > 32 {
                    r == Err::<Option<U256>, CodecError>(CodecError::BadLength)
                } else {
                    r matches Ok(Some(u)) && u.val() == be_val(b@)
                },
            }
        }),
{
    match v {
        None => Ok(None),
        Some(b) => match U256::from_be_bytes(b) {
            Some(u) => Ok(Some(u)),
            None => Err(CodecError::BadLength),
        },
    }
}

/// Decode a required column blob into a 256-bit integer.
pub fn read_u256(v: Option<&Vec<u8>>) -> (r: Result<U256, CodecError>)
    ensures
        ({
            match v {
                None => r == Err::<U256, CodecError>(CodecError::NullColumn),
                Some(b) => if b@.len() > 32 {
                    r == Err::<U256, CodecError>(CodecError::BadLength)
                } else {
                    r matches Ok(u) && u.val() == be_val(b@)
                },
            }
        }),
{
    match read_u256_option(v) {
        Ok(Some(u)) => Ok(u),
        Ok(None) => Err(CodecError::NullColumn),
        Err(e) => Err(e),
    }
}

/// Encode an address as exactly its 20 bytes.
pub fn address_to_blob(address: &Address) -> (r: Vec<u8>)
    ensures
        r@ == address@,
{
    let a = address.duplicate();
    a.bytes
}

/// Decode a 20-byte blob into an address; any other length fails.
pub fn blob_to_address(blob: &Vec<u8>) -> (r: Result<Address, CodecError>)
    ensures
        (r is Ok) == (blob@.len() == 20),
        r matches Ok(a) ==> a@ == blob@ && a.wf(),
        r matches Err(e) ==> e == CodecError::BadLength,
{
    let copy = blob.clone();
    proof {
        assert(copy@ =~= blob@);
    }
    match Address::from_bytes(copy) {
        Some(a) => Ok(a),
        None => Err(CodecError::BadLength),
    }
}

/// Decode a required column blob into an address.
pub fn read_address(v: Option<&Vec<u8>>) -> (r: Result<Address, CodecError>)
    ensures
        ({
            match v {
                None => r == Err::<Address, CodecError>(CodecError::NullColumn),
                Some(b) => ((r is Ok) == (b@.len() == 20)) && (r matches Ok(a) ==> a@ == b@
                    && a.wf()),
            }
        }),
{
    match v {
        None => Err(CodecError::NullColumn),
        Some(b) => blob_to_address(b),
    }
}

/// Encode a payload byte string as itself.
pub fn bytes_to_blob(bytes: &Vec<u8>) -> (r: Vec<u8>)
    ensures
        r@ == bytes@,
{
    let copy = bytes.clone();
    proof {
        assert(copy@ =~= bytes@);
    }
    copy
}

/// Decode an optional column blob into an optional byte string.
pub fn read_bytes_option(v: Option<&Vec<u8>>) -> (r: Result<Option<Vec<u8>>, CodecError>)
    ensures
        ({
            match v {
                None => r == Ok::<Option<Vec<u8>>, CodecError>(None),
                Some(b) => r matches Ok(Some(o)) && o@ == b@,
            }
        }),
{
    match v {
        None => Ok(None),
        Some(b) => Ok(Some(bytes_to_blob(b))),
    }
}

/// Decode a required column blob into a byte string.
pub fn read_bytes(v: Option<&Vec<u8>>) -> (r: Result<Vec<u8>, CodecError>)
    ensures
        ({
            match v {
                None => r == Err::<Vec<u8>, CodecError>(CodecError::NullColumn),
                Some(b) => r matches Ok(o) && o@ == b@,
            }
        }),
{
    match v {
        None => Err(CodecError::NullColumn),
        Some(b) => Ok(bytes_to_blob(b)),
    }
}

/// Integer round trip: a 32-byte blob that encodes a value decodes to
/// exactly that value, over the full 256-bit range.
pub proof fn lemma_u256_blob_round_trip(v: U256, blob: Seq<u8>, w: U256)
    requires
        blob.len() == 32,
        be_val(blob) == v.val(),
        w.val() == be_val(blob),
    ensures
        w == v,
{
    lemma_val_injective(v, w);
}

/// Address round trip: a blob that holds an address's bytes decodes to
/// an address with exactly those bytes, and the encoder writes exactly
/// the address's 20 bytes, so decode of encode gives the address back.
pub proof fn lemma_address_blob_round_trip(a: Address, blob: Seq<u8>, b: Address)
    requires
        a.wf(),
        blob == a@,
        b@ == blob,
    ensures
        b@ == a@,
        b.wf(),
{
}

} // verus!
