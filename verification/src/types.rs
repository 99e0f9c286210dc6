//! The canonical transaction-request model: senders, transaction
//! payloads, and the request identity rule.
//!
//! A request is identified by the triple (chain id, sender, payload)
//! alone; the idempotency key and the gas limit are metadata that never
//! enter equality.

use crate::u256::U256;
use vstd::prelude::*;

verus! {

/// Identifier of the target network.
pub type ChainId = u32;

/// A 160-bit account address, exactly 20 bytes.
#[derive(Debug, Hash)]
pub struct Address {
    pub bytes: Vec<u8>,
}

impl View for Address {
    type V = Seq<u8>;

    open spec fn view(&self) -> Seq<u8> {
        self.bytes@
    }
}

impl Address {
    /// An address holds exactly 20 bytes.
    pub open spec fn wf(&self) -> bool {
        self.bytes@.len() == 20
    }

    /// Take ownership of exactly 20 bytes; any other length is no address.
    pub fn from_bytes(bytes: Vec<u8>) -> (r: Option<Address>)
        ensures
            (r is Some) == (bytes@.len() == 20),
            r matches Some(a) ==> a@ == bytes@ && a.wf(),
    {
        if bytes.len() == 20 {
            Some(Address { bytes })
        } else {
            None
        }
    }

    /// The all-zero address.
    pub fn zeroed() -> (r: Address)
        ensures
            r.wf(),
            forall|i: int| 0 <= i < 20 ==> r@[i] == 0u8,
    {
        let mut bytes: Vec<u8> = Vec::new();
        let mut i: usize = 0;
        while i < 20
            invariant
                bytes@.len() == i,
                0 <= i <= 20,
                forall|j: int| 0 <= j < i ==> bytes@[j] == 0u8,
            decreases 20 - i,
        {
            bytes.push(0u8);
            i = i + 1;
        }
        Address { bytes }
    }

    /// A fresh address holding the same bytes.
    pub fn duplicate(&self) -> (r: Address)
        ensures
            r@ == self@,
    {
        let bytes = self.bytes.clone();
        proof {
            assert(bytes@ =~= self.bytes@);
        }
        Address { bytes }
    }
}

impl PartialEq for Address {
    fn eq(&self, other: &Self) -> (r: bool) {
        let r = self.bytes == other.bytes;
        proof {
            if r {
                assert(self.bytes@ =~= other.bytes@);
            }
        }
        r
    }
}

impl vstd::std_specs::cmp::PartialEqSpecImpl for Address {
    open spec fn obeys_eq_spec() -> bool {
        true
    }

    open spec fn eq_spec(&self, other: &Self) -> bool {
        self@ == other@
    }
}

/// The logical signer a request names: a plain address, or the name of
/// a registered key.
#[derive(Debug, Hash)]
pub enum TxSender {
    Address(Address),
    Named(String),
}

/// The mathematical shape of a sender: its address bytes or its name.
pub enum TxSenderView {
    Address(Seq<u8>),
    Named(Seq<char>),
}

impl View for TxSender {
    type V = TxSenderView;

    open spec fn view(&self) -> TxSenderView {
        match self {
            TxSender::Address(a) => TxSenderView::Address(a@),
            TxSender::Named(n) => TxSenderView::Named(n@),
        }
    }
}

impl TxSender {
    pub open spec fn wf(&self) -> bool {
        match self {
            TxSender::Address(a) => a.wf(),
            TxSender::Named(_) => true,
        }
    }

    /// A sender named by a registry alias.
    pub fn named(name: &str) -> (r: TxSender)
        ensures
            r@ == TxSenderView::Named(name@),
            r.wf(),
    {
        TxSender::Named(name.to_owned())
    }

    /// A sender named by its account address.
    pub fn addressed(address: &Address) -> (r: TxSender)
        ensures
            r@ == TxSenderView::Address(address@),
            address.wf() ==> r.wf(),
    {
        TxSender::Address(address.duplicate())
    }

    /// A fresh sender with the same designation.
    pub fn duplicate(&self) -> (r: TxSender)
        ensures
            r@ == self@,
            self.wf() ==> r.wf(),
    {
        match self {
            TxSender::Address(a) => TxSender::Address(a.duplicate()),
            TxSender::Named(n) => TxSender::Named(n.clone()),
        }
    }
}

impl<'a> From<&'a str> for TxSender {
    fn from(s: &'a str) -> (r: TxSender) {
        TxSender::named(s)
    }
}

impl<'a> vstd::std_specs::convert::FromSpecImpl<&'a str> for TxSender {
    open spec fn obeys_from_spec() -> bool {
        false
    }

    open spec fn from_spec(s: &'a str) -> TxSender {
        arbitrary()
    }
}

impl<'a> From<&'a Address> for TxSender {
    fn from(address: &'a Address) -> (r: TxSender) {
        TxSender::addressed(address)
    }
}

impl<'a> vstd::std_specs::convert::FromSpecImpl<&'a Address> for TxSender {
    open spec fn obeys_from_spec() -> bool {
        false
    }

    open spec fn from_spec(address: &'a Address) -> TxSender {
        arbitrary()
    }
}

impl PartialEq for TxSender {
    fn eq(&self, other: &Self) -> (r: bool) {
        match (self, other) {
            (TxSender::Address(a), TxSender::Address(b)) => *a == *b,
            (TxSender::Named(x), TxSender::Named(y)) => *x == *y,
            _ => false,
        }
    }
}

impl vstd::std_specs::cmp::PartialEqSpecImpl for TxSender {
    open spec fn obeys_eq_spec() -> bool {
        true
    }

    open spec fn eq_spec(&self, other: &Self) -> bool {
        self@ == other@
    }
}

/// The transaction payload: a call to an existing account, or the
/// deployment of new code.
#[derive(Debug, Hash)]
pub enum Tx {
    Call { receiver: Address, value: U256, calldata: Vec<u8> },
    Deploy { value: U256, initcode: Vec<u8> },
}

/// The mathematical shape of a payload.
pub enum TxView {
    Call { receiver: Seq<u8>, value: U256, calldata: Seq<u8> },
    Deploy { value: U256, initcode: Seq<u8> },
}

impl View for Tx {
    type V = TxView;

    open spec fn view(&self) -> TxView {
        match self {
            Tx::Call { receiver, value, calldata } => TxView::Call {
                receiver: receiver@,
                value: *value,
                calldata: calldata@,
            },
            Tx::Deploy { value, initcode } => TxView::Deploy {
                value: *value,
                initcode: initcode@,
            },
        }
    }
}

impl Tx {
    pub open spec fn wf(&self) -> bool {
        match self {
            Tx::Call { receiver, .. } => receiver.wf(),
            Tx::Deploy { .. } => true,
        }
    }

    /// A fresh payload with the same fields.
    pub fn duplicate(&self) -> (r: Tx)
        ensures
            r@ == self@,
            self.wf() ==> r.wf(),
    {
        match self {
            Tx::Call { receiver, value, calldata } => {
                let cd = calldata.clone();
                proof {
                    assert(cd@ =~= calldata@);
                }
                Tx::Call { receiver: receiver.duplicate(), value: *value, calldata: cd }
            },
            Tx::Deploy { value, initcode } => {
                let ic = initcode.clone();
                proof {
                    assert(ic@ =~= initcode@);
                }
                Tx::Deploy { value: *value, initcode: ic }
            },
        }
    }
}

impl PartialEq for Tx {
    fn eq(&self, other: &Self) -> (r: bool) {
        match (self, other) {
            (
                Tx::Call { receiver: r1, value: v1, calldata: c1 },
                Tx::Call { receiver: r2, value: v2, calldata: c2 },
            ) => {
                let ec = *c1 == *c2;
                proof {
                    if ec {
                        assert(c1@ =~= c2@);
                    }
                }
                *r1 == *r2 && *v1 == *v2 && ec
            },
            (Tx::Deploy { value: v1, initcode: i1 }, Tx::Deploy { value: v2, initcode: i2 }) => {
                let ei = *i1 == *i2;
                proof {
                    if ei {
                        assert(i1@ =~= i2@);
                    }
                }
                *v1 == *v2 && ei
            },
            _ => false,
        }
    }
}

impl vstd::std_specs::cmp::PartialEqSpecImpl for Tx {
    open spec fn obeys_eq_spec() -> bool {
        true
    }

    open spec fn eq_spec(&self, other: &Self) -> bool {
        self@ == other@
    }
}

/// A validated request to submit one transaction.
#[derive(Debug)]
pub struct TransactionRequest {
    pub chain_id: ChainId,
    pub sender: TxSender,
    pub tx: Tx,
    pub idempotency_key: Option<Vec<u8>>,
    pub gas_limit: Option<U256>,
}

/// The mathematical shape of a request, metadata included.
pub struct TransactionRequestView {
    pub chain_id: ChainId,
    pub sender: TxSenderView,
    pub tx: TxView,
    pub idempotency_key: Option<Seq<u8>>,
    pub gas_limit: Option<U256>,
}

/// The view of an optional byte string.
pub open spec fn opt_bytes_view(o: &Option<Vec<u8>>) -> Option<Seq<u8>> {
    match o {
        Some(v) => Some(v@),
        None => None,
    }
}

impl View for TransactionRequest {
    type V = TransactionRequestView;

    open spec fn view(&self) -> TransactionRequestView {
        TransactionRequestView {
            chain_id: self.chain_id,
            sender: self.sender@,
            tx: self.tx@,
            idempotency_key: opt_bytes_view(&self.idempotency_key),
            gas_limit: self.gas_limit,
        }
    }
}

/// Two requests are the same request exactly when their identity
/// triples agree; idempotency key and gas limit do not matter.
pub open spec fn same_identity(a: &TransactionRequest, b: &TransactionRequest) -> bool {
    a.chain_id == b.chain_id && a.sender@ == b.sender@ && a.tx@ == b.tx@
}

impl TransactionRequest {
    pub open spec fn wf(&self) -> bool {
        self.sender.wf() && self.tx.wf()
    }

    /// A fresh request with the same fields, metadata included.
    pub fn duplicate(&self) -> (r: TransactionRequest)
        ensures
            r@ == self@,
            self.wf() ==> r.wf(),
    {
        let idempotency_key = match &self.idempotency_key {
            Some(k) => {
                let kk = k.clone();
                proof {
                    assert(kk@ =~= k@);
                }
                Some(kk)
            },
            None => None,
        };
        TransactionRequest {
            chain_id: self.chain_id,
            sender: self.sender.duplicate(),
            tx: self.tx.duplicate(),
            idempotency_key,
            gas_limit: self.gas_limit,
        }
    }
}

impl PartialEq for TransactionRequest {
    fn eq(&self, other: &Self) -> (r: bool) {
        self.chain_id == other.chain_id && self.sender == other.sender && self.tx == other.tx
    }
}

impl vstd::std_specs::cmp::PartialEqSpecImpl for TransactionRequest {
    open spec fn obeys_eq_spec() -> bool {
        true
    }

    open spec fn eq_spec(&self, other: &Self) -> bool {
        same_identity(self, other)
    }
}

/// Requests with equal identity triples are equal however their
/// idempotency keys and gas limits differ.
pub proof fn lemma_identity_ignores_metadata(a: &TransactionRequest, b: &TransactionRequest)
    requires
        a.chain_id == b.chain_id,
        a.sender@ == b.sender@,
        a.tx@ == b.tx@,
    ensures
        same_identity(a, b),
        same_identity(b, a),
{
}

} // verus!
