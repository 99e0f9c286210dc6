//! Translation of wire-shaped submission requests into the canonical
//! model. A numeric field arrives in one of four encodings; a sender
//! and a payload arrive as tagged alternatives that must not be empty.
//! Every conversion is a pure function whose result is fixed by a spec
//! decoder, so malformed input is rejected before anything is stored.

use crate::types::{
    opt_bytes_view, Address, TransactionRequest, TransactionRequestView, Tx, TxSender,
    TxSenderView, TxView,
};
use crate::u256::{
    b256, be_val, dec_val, hex_digit_val, hex_first_bad_char, hex_val, is_dec_digit, is_hex_digit,
    le_val, lemma_u256_of_val, lemma_val_bound, lemma_val_injective, strip_hex_prefix, u256_of,
    DecParseError, HexParseError, U256,
};
use vstd::prelude::*;
use vstd::string::{StringExecFns, StringSliceAdditionalSpecFns};

verus! {

/// A 256-bit integer as it arrives on the wire, in one of four
/// encodings.
#[derive(Debug)]
pub enum WireU256Value {
    LittleEndian(Vec<u8>),
    BigEndian(Vec<u8>),
    HexEncoded(String),
    DecimalEncoded(String),
}

/// The wire field for a 256-bit integer; empty when the caller sent
/// none of the alternatives.
#[derive(Debug)]
pub struct WireU256 {
    pub u256: Option<WireU256Value>,
}

/// The wire field for a sender: an address in hexadecimal text, or a
/// registry name.
#[derive(Debug)]
pub enum WireSender {
    Address(String),
    Named(String),
}

/// The wire shape of a call payload.
#[derive(Debug)]
pub struct WireTxCall {
    pub receiver: String,
    pub value: Option<WireU256>,
    pub calldata: Vec<u8>,
}

/// The wire shape of a deploy payload.
#[derive(Debug)]
pub struct WireTxDeploy {
    pub value: Option<WireU256>,
    pub initcode: Vec<u8>,
}

/// The wire field for a transaction payload.
#[derive(Debug)]
pub enum WireTransaction {
    Call(WireTxCall),
    Deploy(WireTxDeploy),
}

/// A whole submission request as it arrives on the wire.
#[derive(Debug)]
pub struct SendTransactionRequest {
    pub chain_id: u32,
    pub sender: Option<WireSender>,
    pub transaction: Option<WireTransaction>,
    pub gas_limit: Option<WireU256>,
    pub idempotency_key: Option<Vec<u8>>,
}

/// Why a wire request cannot be read: an empty alternative where one
/// was required, or a numeric or address field that does not decode.
#[derive(Clone, Copy, PartialEq, Eq, Structural, Debug)]
pub enum ReadProtobufError {
    EmptyU256,
    DecodeHexError(HexParseError),
    DecodeDecimalError(DecParseError),
    EmptySender,
    DecodeAddressError(HexParseError),
    EmptyTransaction,
    U256TooManyBytes,
}

/// Relies on String::push: appending one character to the end of the
/// string and nothing else, as its documentation states.
pub assume_specification[ String::push ](s: &mut String, c: char)
    ensures
        final(s)@ == old(s)@ + seq![c],
;

impl HexParseError {
    /// The text of this failure: the offending character, or the digit
    /// count.
    pub open spec fn message_view(&self) -> Seq<char> {
        match self {
            HexParseError::InvalidCharacter(c) => "Invalid character '"@ + seq![*c] + "'"@,
            HexParseError::InvalidLength => "Invalid string length"@,
        }
    }

    /// Render the failure text.
    pub fn message(&self) -> (r: String)
        ensures
            r@ == self.message_view(),
    {
        match self {
            HexParseError::InvalidCharacter(c) => {
                let mut s = "Invalid character '".to_owned();
                s.push(*c);
                s.append("'");
                proof {
                    assert(s@ =~= "Invalid character '"@ + seq![*c] + "'"@);
                }
                s
            },
            HexParseError::InvalidLength => "Invalid string length".to_owned(),
        }
    }
}

impl DecParseError {
    /// The text of this failure: a byte outside 0-9, or overflow.
    pub open spec fn message_view(&self) -> Seq<char> {
        match self {
            DecParseError::InvalidCharacter => "a character is not in the range 0-9"@,
            DecParseError::InvalidLength => "the number is too large for the type"@,
        }
    }

    /// Render the failure text.
    pub fn message(&self) -> (r: String)
        ensures
            r@ == self.message_view(),
    {
        match self {
            DecParseError::InvalidCharacter => "a character is not in the range 0-9".to_owned(),
            DecParseError::InvalidLength => "the number is too large for the type".to_owned(),
        }
    }
}

impl ReadProtobufError {
    /// The text a caller sees for each rejection.
    pub open spec fn message_view(&self) -> Seq<char> {
        match self {
            ReadProtobufError::EmptyU256 => "U256 oneof must not be empty"@,
            ReadProtobufError::DecodeHexError(e) => "could not decode hex encoded U256: "@
                + e.message_view(),
            ReadProtobufError::DecodeDecimalError(e) => "could not decode decimal encoded U256: "@
                + e.message_view(),
            ReadProtobufError::EmptySender => "sender oneof must not be empty"@,
            ReadProtobufError::DecodeAddressError(e) => "address could not be decoded: "@
                + e.message_view(),
            ReadProtobufError::EmptyTransaction => "transaction oneof must not be empty"@,
            ReadProtobufError::U256TooManyBytes => "U256 byte encoding must hold at most 32 bytes"@,
        }
    }

    /// Render the rejection text.
    pub fn message(&self) -> (r: String)
        ensures
            r@ == self.message_view(),
    {
        match self {
            ReadProtobufError::EmptyU256 => "U256 oneof must not be empty".to_owned(),
            ReadProtobufError::DecodeHexError(e) => {
                let mut s = "could not decode hex encoded U256: ".to_owned();
                let m = e.message();
                s.append(m.as_str());
                s
            },
            ReadProtobufError::DecodeDecimalError(e) => {
                let mut s = "could not decode decimal encoded U256: ".to_owned();
                let m = e.message();
                s.append(m.as_str());
                s
            },
            ReadProtobufError::EmptySender => "sender oneof must not be empty".to_owned(),
            ReadProtobufError::DecodeAddressError(e) => {
                let mut s = "address could not be decoded: ".to_owned();
                let m = e.message();
                s.append(m.as_str());
                s
            },
            ReadProtobufError::EmptyTransaction => "transaction oneof must not be empty".to_owned(),
            ReadProtobufError::U256TooManyBytes => "U256 byte encoding must hold at most 32 bytes".to_owned(),
        }
    }
}

/// The position of the first byte that is no hex digit.
pub open spec fn first_bad_hex_index(t: Seq<u8>) -> int {
    choose|j: int|
        0 <= j < t.len() && !is_hex_digit(t[j]) && (forall|k: int| 0 <= k < j ==> is_hex_digit(t[k]))
}

/// Whether some byte of the text is no hex digit.
pub open spec fn has_bad_hex_digit(t: Seq<u8>) -> bool {
    exists|j: int| 0 <= j < t.len() && !is_hex_digit(t[j])
}

/// The first bad byte reported by a scan is the byte at the first bad
/// position.
proof fn lemma_hex_bad_char_is_at_first(t: Seq<u8>, c: char)
    requires
        hex_first_bad_char(t, c),
    ensures
        has_bad_hex_digit(t),
        ({
            let j = first_bad_hex_index(t);
            0 <= j < t.len() && !is_hex_digit(t[j]) && c == t[j] as char
        }),
{
    let i = choose|i: int|
        0 <= i < t.len() && !is_hex_digit(t[i]) && (forall|k: int|
            0 <= k < i ==> is_hex_digit(t[k])) && c == t[i] as char;
    assert(0 <= i < t.len() && !is_hex_digit(t[i]));
    let j = first_bad_hex_index(t);
    assert(0 <= j < t.len() && !is_hex_digit(t[j]) && (forall|k: int|
        0 <= k < j ==> is_hex_digit(t[k])));
    if i < j {
        assert(is_hex_digit(t[i]));
    }
    if j < i {
        assert(is_hex_digit(t[j]));
    }
}

/// What a wire 256-bit integer decodes to: the exact result for every
/// input, mirroring the four encodings and their failure modes.
pub open spec fn spec_decode_u256(w: &WireU256) -> Result<U256, ReadProtobufError> {
    match &w.u256 {
        None => Err(ReadProtobufError::EmptyU256),
        Some(WireU256Value::LittleEndian(b)) => if b@.len() > 32 {
            Err(ReadProtobufError::U256TooManyBytes)
        } else {
            Ok(u256_of(le_val(b@)))
        },
        Some(WireU256Value::BigEndian(b)) => if b@.len() > 32 {
            Err(ReadProtobufError::U256TooManyBytes)
        } else {
            Ok(u256_of(be_val(b@)))
        },
        Some(WireU256Value::HexEncoded(s)) => {
            let t = strip_hex_prefix(vstd::utf8::encode_utf8(s@));
            if t.len() > 64 {
                Err(ReadProtobufError::DecodeHexError(HexParseError::InvalidLength))
            } else if has_bad_hex_digit(t) {
                Err(
                    ReadProtobufError::DecodeHexError(
                        HexParseError::InvalidCharacter(t[first_bad_hex_index(t)] as char),
                    ),
                )
            } else {
                Ok(u256_of(hex_val(t)))
            }
        },
        Some(WireU256Value::DecimalEncoded(s)) => {
            let w2 = vstd::utf8::encode_utf8(s@);
            if (exists|j: int|
                0 <= j < w2.len() && !is_dec_digit(w2[j]) && (forall|k: int|
                    0 <= k < j ==> is_dec_digit(w2[k])) && dec_val(w2.take(j)) < b256()) {
                Err(ReadProtobufError::DecodeDecimalError(DecParseError::InvalidCharacter))
            } else if (exists|j: int|
                0 <= j <= w2.len() && (forall|k: int| 0 <= k < j ==> is_dec_digit(w2[k]))
                    && dec_val(w2.take(j)) >= b256()) {
                Err(ReadProtobufError::DecodeDecimalError(DecParseError::InvalidLength))
            } else {
                Ok(u256_of(dec_val(w2)))
            }
        },
    }
}

impl U256 {
    /// Read a wire 256-bit integer in whichever encoding it arrived.
    pub fn try_from(w: WireU256) -> (r: Result<U256, ReadProtobufError>)
        ensures
            r == spec_decode_u256(&w),
    {
        match &w.u256 {
            None => Err(ReadProtobufError::EmptyU256),
            Some(WireU256Value::LittleEndian(b)) => match U256::from_le_bytes(b) {
                Some(u) => {
                    proof {
                        lemma_val_bound(u);
                        lemma_u256_of_val(le_val(b@));
                        lemma_val_injective(u, u256_of(le_val(b@)));
                    }
                    Ok(u)
                },
                None => Err(ReadProtobufError::U256TooManyBytes),
            },
            Some(WireU256Value::BigEndian(b)) => match U256::from_be_bytes(b) {
                Some(u) => {
                    proof {
                        lemma_val_bound(u);
                        lemma_u256_of_val(be_val(b@));
                        lemma_val_injective(u, u256_of(be_val(b@)));
                    }
                    Ok(u)
                },
                None => Err(ReadProtobufError::U256TooManyBytes),
            },
            Some(WireU256Value::HexEncoded(s)) => match U256::from_hex_str(s.as_str()) {
                Ok(u) => {
                    proof {
                        let t = strip_hex_prefix(vstd::utf8::encode_utf8(s@));
                        lemma_val_bound(u);
                        lemma_u256_of_val(hex_val(t));
                        lemma_val_injective(u, u256_of(hex_val(t)));
                    }
                    Ok(u)
                },
                Err(HexParseError::InvalidLength) => Err(
                    ReadProtobufError::DecodeHexError(HexParseError::InvalidLength),
                ),
                Err(HexParseError::InvalidCharacter(c)) => {
                    proof {
                        lemma_hex_bad_char_is_at_first(strip_hex_prefix(vstd::utf8::encode_utf8(s@)), c);
                    }
                    Err(ReadProtobufError::DecodeHexError(HexParseError::InvalidCharacter(c)))
                },
            },
            Some(WireU256Value::DecimalEncoded(s)) => match U256::from_dec_str(s.as_str()) {
                Ok(u) => {
                    proof {
                        lemma_val_bound(u);
                        lemma_u256_of_val(dec_val(vstd::utf8::encode_utf8(s@)));
                        lemma_val_injective(u, u256_of(dec_val(vstd::utf8::encode_utf8(s@))));
                    }
                    Ok(u)
                },
                Err(DecParseError::InvalidCharacter) => Err(
                    ReadProtobufError::DecodeDecimalError(DecParseError::InvalidCharacter),
                ),
                Err(DecParseError::InvalidLength) => Err(
                    ReadProtobufError::DecodeDecimalError(DecParseError::InvalidLength),
                ),
            },
        }
    }
}

/// What address text decodes to: the 20 bytes its 40 hex digits stand
/// for, after an optional "0x" marker. A byte that is no hex digit is
/// reported first; then any other digit count fails.
pub open spec fn spec_decode_address(bytes: Seq<u8>) -> Result<Seq<u8>, ReadProtobufError> {
    let t = strip_hex_prefix(bytes);
    if has_bad_hex_digit(t) {
        Err(
            ReadProtobufError::DecodeAddressError(
                HexParseError::InvalidCharacter(t[first_bad_hex_index(t)] as char),
            ),
        )
    } else if t.len() != 40 {
        Err(ReadProtobufError::DecodeAddressError(HexParseError::InvalidLength))
    } else {
        Ok(Seq::new(20, |i: int| (16 * hex_digit_val(t[2 * i]) + hex_digit_val(t[2 * i + 1])) as u8))
    }
}

/// An address result, seen as its bytes.
pub open spec fn addr_result_view(r: &Result<Address, ReadProtobufError>) -> Result<
    Seq<u8>,
    ReadProtobufError,
> {
    match r {
        Ok(a) => Ok(a@),
        Err(e) => Err(*e),
    }
}

/// The value of one hex digit byte.
fn hex_digit_value(b: u8) -> (r: Option<u8>)
    ensures
        (r is Some) == is_hex_digit(b),
        r matches Some(d) ==> d == hex_digit_val(b) && d < 16,
{
    if b >= 0x30 && b <= 0x39 {
        Some(b - 0x30)
    } else if b >= 0x61 && b <= 0x66 {
        Some(b - 0x61 + 10)
    } else if b >= 0x41 && b <= 0x46 {
        Some(b - 0x41 + 10)
    } else {
        None
    }
}

/// Decode an address from hexadecimal text with an optional "0x" marker.
pub fn h160_from_str(input: &str) -> (r: Result<Address, ReadProtobufError>)
    ensures
        addr_result_view(&r) == spec_decode_address(input.spec_bytes()),
        r matches Ok(a) ==> a.wf(),
{
    let v: &[u8] = input.as_bytes();
    let n = v.len();
    let start: usize = if n >= 2 && v[0] == 0x30 && v[1] == 0x78 {
        2
    } else {
        0
    };
    let ghost t = strip_hex_prefix(input.spec_bytes());
    proof {
        assert(t =~= v@.skip(start as int));
    }
    let m = n - start;
    let mut i: usize = 0;
    while i < m
        invariant
            start + m == n,
            n == v@.len(),
            0 <= i <= m,
            t == strip_hex_prefix(input.spec_bytes()),
            t =~= v@.skip(start as int),
            t.len() == m,
            forall|k: int| 0 <= k < i ==> is_hex_digit(t[k]),
        decreases m - i,
    {
        let b = v[start + i];
        assert(b == t[i as int]);
        if hex_digit_value(b).is_none() {
            proof {
                assert(hex_first_bad_char(t, b as char));
                lemma_hex_bad_char_is_at_first(t, b as char);
            }
            return Err(ReadProtobufError::DecodeAddressError(HexParseError::InvalidCharacter(
                b as char,
            )));
        }
        i = i + 1;
    }
    if m != 40 {
        proof {
            assert(!has_bad_hex_digit(t));
        }
        return Err(ReadProtobufError::DecodeAddressError(HexParseError::InvalidLength));
    }
    let mut out: Vec<u8> = Vec::new();
    let mut k: usize = 0;
    while k < 20
        invariant
            start + m == n,
            n == v@.len(),
            m == 40,
            0 <= k <= 20,
            t == strip_hex_prefix(input.spec_bytes()),
            t =~= v@.skip(start as int),
            t.len() == m,
            forall|j: int| 0 <= j < m ==> is_hex_digit(t[j]),
            out@.len() == k,
            forall|j: int|
                0 <= j < k ==> out@[j] == (16 * hex_digit_val(t[2 * j]) + hex_digit_val(
                    t[2 * j + 1],
                )) as u8,
        decreases 20 - k,
    {
        let bh = v[start + 2 * k];
        let bl = v[start + 2 * k + 1];
        assert(bh == t[2 * k as int] && bl == t[2 * k as int + 1]);
        let hi = match hex_digit_value(bh) {
            Some(d) => d,
            None => {
                proof {
                    assert(is_hex_digit(t[2 * k as int]));
                }
                assert(false);
                0
            },
        };
        let lo = match hex_digit_value(bl) {
            Some(d) => d,
            None => {
                proof {
                    assert(is_hex_digit(t[2 * k as int + 1]));
                }
                assert(false);
                0
            },
        };
        out.push(16 * hi + lo);
        k = k + 1;
    }
    match Address::from_bytes(out) {
        Some(a) => {
            proof {
                assert(!has_bad_hex_digit(t));
                assert(a@ =~= Seq::new(
                    20,
                    |i: int| (16 * hex_digit_val(t[2 * i]) + hex_digit_val(t[2 * i + 1])) as u8,
                ));
            }
            Ok(a)
        },
        None => {
            assert(false);
            Err(ReadProtobufError::DecodeAddressError(HexParseError::InvalidLength))
        },
    }
}

/// What a wire sender decodes to: a named sender as its name, an
/// addressed sender through the address text decoder.
pub open spec fn spec_decode_sender(w: &WireSender) -> Result<TxSenderView, ReadProtobufError> {
    match w {
        WireSender::Address(s) => match spec_decode_address(vstd::utf8::encode_utf8(s@)) {
            Ok(b) => Ok(TxSenderView::Address(b)),
            Err(e) => Err(e),
        },
        WireSender::Named(n) => Ok(TxSenderView::Named(n@)),
    }
}

/// A sender result, seen as its designation.
pub open spec fn sender_result_view(r: &Result<TxSender, ReadProtobufError>) -> Result<
    TxSenderView,
    ReadProtobufError,
> {
    match r {
        Ok(s) => Ok(s@),
        Err(e) => Err(*e),
    }
}

impl TxSender {
    /// Read a wire sender.
    pub fn try_from(w: WireSender) -> (r: Result<TxSender, ReadProtobufError>)
        ensures
            sender_result_view(&r) == spec_decode_sender(&w),
            r matches Ok(s) ==> s.wf(),
    {
        match w {
            WireSender::Address(s) => match h160_from_str(s.as_str()) {
                Ok(a) => Ok(TxSender::Address(a)),
                Err(e) => Err(e),
            },
            WireSender::Named(n) => Ok(TxSender::Named(n)),
        }
    }
}

/// What a wire payload decodes to: for a call, the receiver address
/// first, then the value; for a deploy, the value. Either way the raw
/// byte payload is carried through unchanged.
pub open spec fn spec_decode_tx(w: &WireTransaction) -> Result<TxView, ReadProtobufError> {
    match w {
        WireTransaction::Call(c) => match spec_decode_address(vstd::utf8::encode_utf8(c.receiver@)) {
            Err(e) => Err(e),
            Ok(rcv) => match &c.value {
                None => Err(ReadProtobufError::EmptyU256),
                Some(wv) => match spec_decode_u256(wv) {
                    Err(e) => Err(e),
                    Ok(v) => Ok(TxView::Call { receiver: rcv, value: v, calldata: c.calldata@ }),
                },
            },
        },
        WireTransaction::Deploy(d) => match &d.value {
            None => Err(ReadProtobufError::EmptyU256),
            Some(wv) => match spec_decode_u256(wv) {
                Err(e) => Err(e),
                Ok(v) => Ok(TxView::Deploy { value: v, initcode: d.initcode@ }),
            },
        },
    }
}

/// A payload result, seen as its shape.
pub open spec fn tx_result_view(r: &Result<Tx, ReadProtobufError>) -> Result<
    TxView,
    ReadProtobufError,
> {
    match r {
        Ok(t) => Ok(t@),
        Err(e) => Err(*e),
    }
}

impl Tx {
    /// Read a wire payload.
    pub fn try_from(w: WireTransaction) -> (r: Result<Tx, ReadProtobufError>)
        ensures
            tx_result_view(&r) == spec_decode_tx(&w),
            r matches Ok(t) ==> t.wf(),
    {
        match w {
            WireTransaction::Call(c) => {
                let receiver = match h160_from_str(c.receiver.as_str()) {
                    Ok(a) => a,
                    Err(e) => {
                        return Err(e);
                    },
                };
                let value = match c.value {
                    None => {
                        return Err(ReadProtobufError::EmptyU256);
                    },
                    Some(wv) => match U256::try_from(wv) {
                        Ok(v) => v,
                        Err(e) => {
                            return Err(e);
                        },
                    },
                };
                Ok(Tx::Call { receiver, value, calldata: c.calldata })
            },
            WireTransaction::Deploy(d) => {
                let value = match d.value {
                    None => {
                        return Err(ReadProtobufError::EmptyU256);
                    },
                    Some(wv) => match U256::try_from(wv) {
                        Ok(v) => v,
                        Err(e) => {
                            return Err(e);
                        },
                    },
                };
                Ok(Tx::Deploy { value, initcode: d.initcode })
            },
        }
    }
}

/// What a whole wire request decodes to: the gas limit is read first,
/// then the sender, then the payload; the idempotency key is carried
/// through unchanged.
pub open spec fn spec_decode_request(w: &SendTransactionRequest) -> Result<
    TransactionRequestView,
    ReadProtobufError,
> {
    let gas = match &w.gas_limit {
        None => Ok::<Option<U256>, ReadProtobufError>(None),
        Some(g) => match spec_decode_u256(g) {
            Ok(v) => Ok(Some(v)),
            Err(e) => Err(e),
        },
    };
    match gas {
        Err(e) => Err(e),
        Ok(gas_limit) => match &w.sender {
            None => Err(ReadProtobufError::EmptySender),
            Some(ws) => match spec_decode_sender(ws) {
                Err(e) => Err(e),
                Ok(sv) => match &w.transaction {
                    None => Err(ReadProtobufError::EmptyTransaction),
                    Some(wt) => match spec_decode_tx(wt) {
                        Err(e) => Err(e),
                        Ok(tv) => Ok(
                            TransactionRequestView {
                                chain_id: w.chain_id,
                                sender: sv,
                                tx: tv,
                                idempotency_key: opt_bytes_view(&w.idempotency_key),
                                gas_limit,
                            },
                        ),
                    },
                },
            },
        },
    }
}

/// A request result, seen as its shape.
pub open spec fn req_result_view(r: &Result<TransactionRequest, ReadProtobufError>) -> Result<
    TransactionRequestView,
    ReadProtobufError,
> {
    match r {
        Ok(q) => Ok(q@),
        Err(e) => Err(*e),
    }
}

impl TransactionRequest {
    /// Read a whole wire request into a canonical request.
    pub fn try_from(w: SendTransactionRequest) -> (r: Result<
        TransactionRequest,
        ReadProtobufError,
    >)
        ensures
            req_result_view(&r) == spec_decode_request(&w),
            r matches Ok(q) ==> q.wf(),
    {
        let gas_limit: Option<U256> = match w.gas_limit {
            None => None,
            Some(g) => match U256::try_from(g) {
                Ok(v) => Some(v),
                Err(e) => {
                    return Err(e);
                },
            },
        };
        let sender = match w.sender {
            None => {
                return Err(ReadProtobufError::EmptySender);
            },
            Some(ws) => match TxSender::try_from(ws) {
                Ok(s) => s,
                Err(e) => {
                    return Err(e);
                },
            },
        };
        let tx = match w.transaction {
            None => {
                return Err(ReadProtobufError::EmptyTransaction);
            },
            Some(wt) => match Tx::try_from(wt) {
                Ok(t) => t,
                Err(e) => {
                    return Err(e);
                },
            },
        };
        Ok(
            TransactionRequest {
                chain_id: w.chain_id,
                sender,
                tx,
                idempotency_key: w.idempotency_key,
                gas_limit,
            },
        )
    }
}

} // verus!
