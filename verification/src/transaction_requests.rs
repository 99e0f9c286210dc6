//! Intake and dispatch queries on the persistent store: idempotent
//! insertion of validated requests, and retrieval of the oldest
//! request not yet dispatched.
//!
//! The sender is checked against the registry before anything is
//! written, a duplicate non-null idempotency key rejects the insert
//! wholesale, and retrieval follows the insertion order the row ids
//! record.

use crate::db::{
    db_wf, has_idem_key, key_matches_sender, resolves, Database, DatabaseView, KeyRowView,
    RequestRow, RequestRowView, txview_wf,
};
use crate::types::{
    opt_bytes_view, TransactionRequest, TransactionRequestView, TxSender, TxSenderView,
};
use vstd::prelude::*;
use vstd::string::{StringExecFns, StringSliceAdditionalSpecFns};

verus! {

/// Why the store rejects a request: a duplicate non-null idempotency
/// key, a sender with no registered signing key, or an internal engine
/// failure carried as text.
#[derive(Debug)]
pub enum Error {
    Idempotency,
    NoSuchSender(TxSender),
    Internal(String),
}

/// What inserting a request into a given store state must do: refuse
/// an unknown sender, refuse a duplicate non-null idempotency key, or
/// accept.
pub enum InsertOutcome {
    NoSender,
    Duplicate,
    Accepted,
}

/// The decision the store takes for a request, in the order the
/// checks run: sender first, idempotency second.
pub open spec fn spec_insert_outcome(d: DatabaseView, req: TransactionRequestView) -> InsertOutcome {
    if !resolves(d, req.sender) {
        InsertOutcome::NoSender
    } else if req.idempotency_key matches Some(k) && has_idem_key(d, k) {
        InsertOutcome::Duplicate
    } else {
        InsertOutcome::Accepted
    }
}

/// The registry row that answers for a resolvable sender; unique,
/// since addresses and names are unique.
pub open spec fn resolved_key_index(d: DatabaseView, s: TxSenderView) -> int {
    choose|i: int| 0 <= i < d.keys.len() && key_matches_sender(#[trigger] d.keys[i], s)
}

/// The row an accepted request appends: the next id in insertion
/// order, the resolved signing key, and the dispatched flag clear.
pub open spec fn new_request_row(d: DatabaseView, req: TransactionRequestView) -> RequestRowView {
    RequestRowView {
        id: (d.requests.len() + 1) as i64,
        idempotency_key: req.idempotency_key,
        chain_id: req.chain_id,
        signing_key: d.keys[resolved_key_index(d, req.sender)].id,
        tx: req.tx,
        gas_limit: req.gas_limit,
        dispatched: false,
    }
}

/// The store state after an accepted insert.
pub open spec fn spec_insert_apply(d: DatabaseView, req: TransactionRequestView) -> DatabaseView {
    DatabaseView {
        keys: d.keys,
        requests: d.requests.push(new_request_row(d, req)),
        version: d.version,
        dirty: d.dirty,
    }
}

/// Whether the request table cannot take one more row.
pub open spec fn requests_full(d: DatabaseView) -> bool {
    d.requests.len() >= 0x7fff_fffe
}

/// In a sound store the row answering for a sender is unique, so the
/// chosen index is the index of any matching row.
pub proof fn lemma_resolved_key_unique(d: DatabaseView, s: TxSenderView, i: int)
    requires
        db_wf(d),
        0 <= i < d.keys.len(),
        key_matches_sender(d.keys[i], s),
    ensures
        resolved_key_index(d, s) == i,
        key_matches_sender(d.keys[resolved_key_index(d, s)], s),
{
    assert(0 <= i < d.keys.len() && key_matches_sender(#[trigger] d.keys[i], s));
    let j = resolved_key_index(d, s);
    assert(0 <= j < d.keys.len() && key_matches_sender(d.keys[j], s));
    if i != j {
        match s {
            TxSenderView::Address(a) => {
                assert(d.keys[i].key.address() == a && d.keys[j].key.address() == a);
            },
            TxSenderView::Named(n) => {
                assert(d.keys[i].name == Some(n) && d.keys[j].name == Some(n));
            },
        }
    }
}

/// A fresh optional byte string holding the same bytes.
fn duplicate_opt_bytes(o: &Option<Vec<u8>>) -> (r: Option<Vec<u8>>)
    ensures
        opt_bytes_view(&r) == opt_bytes_view(o),
{
    match o {
        Some(v) => {
            let c = v.clone();
            proof {
                assert(c@ =~= v@);
            }
            Some(c)
        },
        None => None,
    }
}

impl Database {
    /// Record a validated request: refuse a sender with no registered
    /// key without writing; refuse a non-null idempotency key already
    /// stored; otherwise append atomically in insertion order.
    pub fn insert_transaction_request(&mut self, req: &TransactionRequest) -> (r: Result<
        (),
        Error,
    >)
        requires
            old(self).wf(),
            req.wf(),
        ensures
            final(self).wf(),
            ({
                let d = old(self)@;
                let outcome = spec_insert_outcome(d, req@);
                let unchanged = (final(self)@ == d);
                &&& (outcome is NoSender ==> (r matches Err(e) && e matches Error::NoSuchSender(s)
                    && s@ == req.sender@ && unchanged))
                &&& (outcome is Duplicate ==> (r matches Err(e) && e is Idempotency && unchanged))
                &&& (outcome is Accepted && !requests_full(d) ==> r is Ok && final(self)@
                    == spec_insert_apply(d, req@))
                &&& (outcome is Accepted && requests_full(d) ==> (r matches Err(e) && e is Internal
                    && unchanged))
                &&& ((r is Ok) == (outcome is Accepted && !requests_full(d)))
            }),
    {
        let kw = match self.sender_to_key(&req.sender) {
            Ok(Some(kw)) => kw,
            Ok(None) => {
                return Err(Error::NoSuchSender(req.sender.duplicate()));
            },
            Err(_) => {
                proof {
                    assert(false);
                }
                return Err(Error::Idempotency);
            },
        };
        if let Some(k) = &req.idempotency_key {
            let n = self.requests.len();
            let mut j: usize = 0;
            while j < n
                invariant
                    self.wf(),
                    n == self@.requests.len(),
                    0 <= j <= n,
                    resolves(self@, req.sender@),
                    opt_bytes_view(&req.idempotency_key) == Some(k@),
                    forall|j2: int|
                        0 <= j2 < j ==> (#[trigger] self@.requests[j2]).idempotency_key != Some(
                            k@,
                        ),
                decreases n - j,
            {
                let taken: bool = match &self.requests[j].idempotency_key {
                    Some(k2) => {
                        let e = *k2 == *k;
                        proof {
                            if e {
                                assert(k2@ =~= k@);
                            }
                        }
                        e
                    },
                    None => false,
                };
                if taken {
                    proof {
                        assert((#[trigger] self@.requests[j as int]).idempotency_key == Some(k@));
                        assert(has_idem_key(self@, k@));
                    }
                    return Err(Error::Idempotency);
                }
                j = j + 1;
            }
            proof {
                assert(!has_idem_key(self@, k@));
            }
        }
        let n = self.requests.len();
        if n >= 0x7fff_fffe {
            return Err(Error::Internal("transaction request table is full".to_owned()));
        }
        let id: i64 = (n + 1) as i64;
        let row = RequestRow {
            id,
            idempotency_key: duplicate_opt_bytes(&req.idempotency_key),
            chain_id: req.chain_id,
            signing_key: kw.id,
            tx: req.tx.duplicate(),
            gas_limit: req.gas_limit,
            dispatched: false,
        };
        let ghost rv = row@;
        self.requests.push(row);
        proof {
            let d = old(self)@;
            assert(final(self)@.keys =~= d.keys);
            assert(final(self)@.requests =~= d.requests.push(rv));
            let i = choose|i: int|
                0 <= i < d.keys.len() && key_matches_sender(#[trigger] d.keys[i], req.sender@)
                    && kw.id == d.keys[i].id && kw.key@ == d.keys[i].key;
            lemma_resolved_key_unique(d, req.sender@, i);
            assert(rv == new_request_row(d, req@));
            assert(final(self)@ == spec_insert_apply(d, req@));
            assert(db_wf(final(self)@));
        }
        Ok(())
    }
}

/// Whether some request is not yet dispatched.
pub open spec fn has_unsubmitted(d: DatabaseView) -> bool {
    exists|i: int| 0 <= i < d.requests.len() && !(#[trigger] d.requests[i]).dispatched
}

/// Whether a position holds the oldest request not yet dispatched.
pub open spec fn is_first_unsubmitted(d: DatabaseView, i: int) -> bool {
    0 <= i < d.requests.len() && !d.requests[i].dispatched && (forall|j: int|
        0 <= j < i ==> (#[trigger] d.requests[j]).dispatched)
}

/// The sender a stored request reads back as: the registry row's name
/// when it has one, else its address.
pub open spec fn sender_of_key_row(k: KeyRowView) -> TxSenderView {
    match k.name {
        Some(n) => TxSenderView::Named(n),
        None => TxSenderView::Address(k.key.address()),
    }
}

/// The request a stored row stands for, its sender read back through
/// the registry row it references.
pub open spec fn row_request_view(d: DatabaseView, i: int) -> TransactionRequestView {
    let row = d.requests[i];
    TransactionRequestView {
        chain_id: row.chain_id,
        sender: sender_of_key_row(d.keys[row.signing_key - 1]),
        tx: row.tx,
        idempotency_key: row.idempotency_key,
        gas_limit: row.gas_limit,
    }
}

/// Every stored request's read-back sender resolves in the registry:
/// the row it references answers for it, so the store never holds an
/// unresolvable sender.
pub proof fn lemma_stored_sender_resolves(d: DatabaseView, i: int)
    requires
        db_wf(d),
        0 <= i < d.requests.len(),
    ensures
        resolves(d, row_request_view(d, i).sender),
{
    let row = d.requests[i];
    let ki = row.signing_key - 1;
    assert(0 <= ki < d.keys.len());
    assert(key_matches_sender(#[trigger] d.keys[ki], sender_of_key_row(d.keys[ki])));
}

impl Database {
    /// The oldest request not yet marked dispatched, with the row id
    /// the dispatcher later marks; never a mutation.
    pub fn find_unsubmitted_transaction_with_id(&self) -> (r: Result<
        Option<(i64, TransactionRequest)>,
        Error,
    >)
        requires
            self.wf(),
        ensures
            !has_unsubmitted(self@) ==> r == Ok::<Option<(i64, TransactionRequest)>, Error>(None),
            has_unsubmitted(self@) ==> (r matches Ok(Some((id, q))) && exists|i: int|
                is_first_unsubmitted(self@, i) && q@ == row_request_view(self@, i) && id == (
                #[trigger] self@.requests[i]).id),
            r matches Ok(Some((id, q))) ==> q.wf(),
    {
        let n = self.requests.len();
        let mut i: usize = 0;
        while i < n
            invariant
                self.wf(),
                n == self@.requests.len(),
                0 <= i <= n,
                forall|j: int| 0 <= j < i ==> (#[trigger] self@.requests[j]).dispatched,
            decreases n - i,
        {
            if !self.requests[i].dispatched {
                let row = &self.requests[i];
                let key_index = (row.signing_key - 1) as usize;
                let key_row = &self.keys[key_index];
                let sender = match &key_row.name {
                    Some(nm) => TxSender::Named(nm.clone()),
                    None => TxSender::Address(key_row.key.address().duplicate()),
                };
                let q = TransactionRequest {
                    chain_id: row.chain_id,
                    sender,
                    tx: row.tx.duplicate(),
                    idempotency_key: duplicate_opt_bytes(&row.idempotency_key),
                    gas_limit: row.gas_limit,
                };
                proof {
                    assert(is_first_unsubmitted(self@, i as int));
                    assert(q@ == row_request_view(self@, i as int));
                    assert(has_unsubmitted(self@));
                }
                return Ok(Some((row.id, q)));
            }
            i = i + 1;
        }
        Ok(None)
    }

    /// The oldest request not yet marked dispatched, or nothing; never
    /// a mutation. Marking dispatched is the caller's separate step.
    pub fn find_unsubmitted_transaction(&self) -> (r: Result<Option<TransactionRequest>, Error>)
        requires
            self.wf(),
        ensures
            !has_unsubmitted(self@) ==> r == Ok::<Option<TransactionRequest>, Error>(None),
            has_unsubmitted(self@) ==> (r matches Ok(Some(q)) && exists|i: int|
                is_first_unsubmitted(self@, i) && q@ == row_request_view(self@, i)),
            r matches Ok(Some(q)) ==> q.wf(),
    {
        match self.find_unsubmitted_transaction_with_id() {
            Ok(Some((_, q))) => Ok(Some(q)),
            Ok(None) => Ok(None),
            Err(e) => Err(e),
        }
    }
}

impl Database {
    /// Record that a stored request was handed to its upstream: set
    /// its dispatched flag, touching nothing else. An id the store
    /// never issued is an internal error.
    pub fn mark_transaction_dispatched(&mut self, id: i64) -> (r: Result<(), Error>)
        requires
            old(self).wf(),
        ensures
            final(self).wf(),
            ({
                let d = old(self)@;
                &&& (1 <= id <= d.requests.len() ==> r is Ok && final(self)@ == (DatabaseView {
                    keys: d.keys,
                    requests: d.requests.update(
                        id - 1,
                        (RequestRowView { dispatched: true, ..d.requests[id - 1] }),
                    ),
                    version: d.version,
                    dirty: d.dirty,
                }))
                &&& (!(1 <= id <= d.requests.len()) ==> (r matches Err(e) && e is Internal
                    && final(self)@ == d))
            }),
    {
        let n = self.requests.len();
        if id < 1 || id > n as i64 {
            return Err(Error::Internal("no transaction request with this id".to_owned()));
        }
        let idx = (id - 1) as usize;
        let new_row = {
            let row = &self.requests[idx];
            RequestRow {
                id: row.id,
                idempotency_key: duplicate_opt_bytes(&row.idempotency_key),
                chain_id: row.chain_id,
                signing_key: row.signing_key,
                tx: row.tx.duplicate(),
                gas_limit: row.gas_limit,
                dispatched: true,
            }
        };
        self.requests[idx] = new_row;
        proof {
            let d = old(self)@;
            assert(final(self)@.keys =~= d.keys);
            assert(final(self)@.requests =~= d.requests.update(
                id - 1,
                (RequestRowView { dispatched: true, ..d.requests[id - 1] }),
            ));
            assert(db_wf(final(self)@));
        }
        Ok(())
    }
}

/// Whether engine text reports the unique-key constraint on the
/// idempotency key column.
pub open spec fn is_idempotency_violation_message(m: Seq<u8>) -> bool {
    seq_contains_sub(m, vstd::utf8::encode_utf8("UNIQUE"@)) && seq_contains_sub(
        m,
        vstd::utf8::encode_utf8("idempotency_key"@),
    )
}

/// Whether the needle occurs somewhere in the haystack.
pub open spec fn seq_contains_sub(h: Seq<u8>, n: Seq<u8>) -> bool {
    exists|i: int| 0 <= i && i + n.len() <= h.len() && #[trigger] h.subrange(i, i + n.len()) == n
}

/// Whether the needle occurs in the haystack, byte for byte.
pub fn str_contains(h: &str, needle: &str) -> (r: bool)
    ensures
        r == seq_contains_sub(h.spec_bytes(), needle.spec_bytes()),
{
    let hv: &[u8] = h.as_bytes();
    let nv: &[u8] = needle.as_bytes();
    let hn = hv.len();
    let nn = nv.len();
    if nn > hn {
        proof {
            assert(!seq_contains_sub(h.spec_bytes(), needle.spec_bytes()));
        }
        return false;
    }
    let mut i: usize = 0;
    while i <= hn - nn
        invariant
            hn == hv@.len(),
            nn == nv@.len(),
            nn <= hn,
            hv@ == h.spec_bytes(),
            nv@ == needle.spec_bytes(),
            0 <= i <= hn - nn + 1,
            forall|i2: int| 0 <= i2 < i ==> #[trigger] hv@.subrange(i2, i2 + nn) != nv@,
        decreases hn - nn + 1 - i,
    {
        let mut j: usize = 0;
        let mut all_equal: bool = true;
        while j < nn
            invariant
                hn == hv@.len(),
                nn == nv@.len(),
                0 <= i <= hn - nn,
                0 <= j <= nn,
                all_equal == (forall|j2: int| 0 <= j2 < j ==> hv@[i + j2] == nv@[j2]),
            decreases nn - j,
        {
            if hv[i + j] != nv[j] {
                all_equal = false;
                proof {
                    assert(!(forall|j2: int| 0 <= j2 < j + 1 ==> hv@[i + j2] == nv@[j2]));
                }
                j = nn;
            } else {
                j = j + 1;
            }
        }
        if all_equal {
            proof {
                assert(hv@.subrange(i as int, i + nn) =~= nv@);
                assert(seq_contains_sub(h.spec_bytes(), needle.spec_bytes()));
            }
            return true;
        }
        proof {
            assert(hv@.subrange(i as int, i + nn) != nv@) by {
                let j2 = choose|j2: int| 0 <= j2 < nn && hv@[i + j2] != nv@[j2];
                assert(hv@.subrange(i as int, i + nn)[j2] != nv@[j2]);
            }
        }
        i = i + 1;
    }
    proof {
        assert(!seq_contains_sub(h.spec_bytes(), needle.spec_bytes()));
    }
    false
}

impl Error {
    /// Map an engine's failure text: a unique violation on the
    /// idempotency key column means the request was already accepted;
    /// anything else stays internal.
    pub fn from_database_message(message: &str) -> (r: Error)
        ensures
            is_idempotency_violation_message(message.spec_bytes()) ==> r == Error::Idempotency,
            !is_idempotency_violation_message(message.spec_bytes()) ==> (r matches Error::Internal(
                s,
            ) && s@ == message@),
    {
        if str_contains(message, "UNIQUE") && str_contains(message, "idempotency_key") {
            Error::Idempotency
        } else {
            Error::Internal(message.to_owned())
        }
    }
}

/// Equal byte encodings come from equal texts.
proof fn lemma_encode_utf8_injective(a: Seq<char>, b: Seq<char>)
    requires
        vstd::utf8::encode_utf8(a) == vstd::utf8::encode_utf8(b),
    ensures
        a == b,
{
    vstd::utf8::encode_utf8_decode_utf8(a);
    vstd::utf8::encode_utf8_decode_utf8(b);
}

/// Whether two texts are the same text, byte for byte.
fn str_eq(a: &str, b: &str) -> (r: bool)
    ensures
        r == (a@ == b@),
{
    let av: &[u8] = a.as_bytes();
    let bv: &[u8] = b.as_bytes();
    let an = av.len();
    let bn = bv.len();
    if an != bn {
        proof {
            if a@ == b@ {
                assert(a.spec_bytes() == b.spec_bytes());
            }
        }
        return false;
    }
    let mut i: usize = 0;
    while i < an
        invariant
            an == av@.len(),
            an == bv@.len(),
            av@ == a.spec_bytes(),
            bv@ == b.spec_bytes(),
            0 <= i <= an,
            forall|j: int| 0 <= j < i ==> av@[j] == bv@[j],
        decreases an - i,
    {
        if av[i] != bv[i] {
            proof {
                if a@ == b@ {
                    assert(a.spec_bytes() == b.spec_bytes());
                }
            }
            return false;
        }
        i = i + 1;
    }
    proof {
        assert(av@ =~= bv@);
        lemma_encode_utf8_injective(a@, b@);
    }
    true
}

impl TxSender {
    /// Hydrate a sender from a request row's joined registry columns:
    /// the registry name when one is present, else the stored address.
    pub fn from_row(name: Option<String>, address: &Vec<u8>) -> (r: Result<
        TxSender,
        crate::codec::CodecError,
    >)
        ensures
            ({
                match name {
                    Some(n) => r matches Ok(s) && s@ == TxSenderView::Named(n@),
                    None => ((r is Ok) == (address@.len() == 20)) && (r matches Ok(s) ==> s@
                        == TxSenderView::Address(address@)),
                }
            }),
    {
        if let Some(n) = name {
            return Ok(TxSender::Named(n));
        }
        match crate::codec::blob_to_address(address) {
            Ok(a) => Ok(TxSender::Address(a)),
            Err(e) => Err(e),
        }
    }
}

impl crate::types::Tx {
    /// Hydrate a payload from its row columns, discriminated by the
    /// variant column: a call reads receiver, value and data; a deploy
    /// reads value and data. The store only ever writes the two known
    /// discriminators.
    pub fn from_row(
        variant: &str,
        receiver: Option<&Vec<u8>>,
        value: Option<&Vec<u8>>,
        data: Option<&Vec<u8>>,
    ) -> (r: Result<crate::types::Tx, crate::codec::CodecError>)
        requires
            variant@ == "call"@ || variant@ == "deploy"@,
        ensures
            ({
                let value_ok = (value matches Some(vb) && vb@.len() <= 32);
                &&& (variant@ == "call"@ ==> ((r is Ok) == ((receiver matches Some(rb)
                    && rb@.len() == 20) && value_ok && data is Some)))
                &&& (variant@ == "deploy"@ ==> ((r is Ok) == (value_ok && data is Some)))
                &&& (r matches Ok(t) ==> t@ == (match (receiver, value, data) {
                    (Some(rb), Some(vb), Some(db)) => if variant@ == "call"@ {
                        crate::types::TxView::Call {
                            receiver: rb@,
                            value: crate::u256::u256_of(crate::u256::be_val(vb@)),
                            calldata: db@,
                        }
                    } else {
                        crate::types::TxView::Deploy {
                            value: crate::u256::u256_of(crate::u256::be_val(vb@)),
                            initcode: db@,
                        }
                    },
                    (_, Some(vb), Some(db)) => crate::types::TxView::Deploy {
                        value: crate::u256::u256_of(crate::u256::be_val(vb@)),
                        initcode: db@,
                    },
                    _ => arbitrary(),
                }))
                &&& (r matches Ok(t) ==> t.wf())
            }),
    {
        proof {
            reveal_strlit("call");
            reveal_strlit("deploy");
        }
        let is_call = str_eq(variant, "call");
        let val = match crate::codec::read_u256(value) {
            Ok(v) => v,
            Err(e) => {
                return Err(e);
            },
        };
        proof {
            if let Some(vb) = value {
                crate::u256::lemma_val_bound(val);
                crate::u256::lemma_u256_of_val(crate::u256::be_val(vb@));
                crate::u256::lemma_val_injective(
                    val,
                    crate::u256::u256_of(crate::u256::be_val(vb@)),
                );
            }
        }
        let payload = match crate::codec::read_bytes(data) {
            Ok(b) => b,
            Err(e) => {
                return Err(e);
            },
        };
        if is_call {
            let rcv = match crate::codec::read_address(receiver) {
                Ok(a) => a,
                Err(e) => {
                    proof {
                        assert("call"@.len() == 4 && "deploy"@.len() == 6);
                        assert(variant@ != "deploy"@);
                    }
                    return Err(e);
                },
            };
            Ok(crate::types::Tx::Call { receiver: rcv, value: val, calldata: payload })
        } else {
            Ok(crate::types::Tx::Deploy { value: val, initcode: payload })
        }
    }
}

impl TransactionRequest {
    /// Hydrate a whole request from its row columns joined with the
    /// registry: the sender reads back through the registry columns,
    /// the payload through its discriminator.
    pub fn from_row(
        chain_id: i64,
        name: Option<String>,
        address: &Vec<u8>,
        variant: &str,
        receiver: Option<&Vec<u8>>,
        value: Option<&Vec<u8>>,
        data: Option<&Vec<u8>>,
        idempotency_key: Option<&Vec<u8>>,
        gas_limit: Option<&Vec<u8>>,
    ) -> (r: Result<TransactionRequest, crate::codec::CodecError>)
        requires
            0 <= chain_id <= u32::MAX,
            variant@ == "call"@ || variant@ == "deploy"@,
        ensures
            ({
                let sender_ok = (name is Some || address@.len() == 20);
                let value_ok = (value matches Some(vb) && vb@.len() <= 32);
                let tx_ok = if variant@ == "call"@ {
                    (receiver matches Some(rb) && rb@.len() == 20) && value_ok && data is Some
                } else {
                    value_ok && data is Some
                };
                let gas_ok = (match gas_limit {
                    Some(g) => g@.len() <= 32,
                    None => true,
                });
                &&& (r is Ok) == (sender_ok && tx_ok && gas_ok)
                &&& (r matches Ok(q) ==> {
                    &&& q.chain_id == chain_id
                    &&& (match name {
                        Some(n) => q.sender@ == TxSenderView::Named(n@),
                        None => q.sender@ == TxSenderView::Address(address@),
                    })
                    &&& q.tx@ == (match (receiver, value, data) {
                        (Some(rb), Some(vb), Some(db)) => if variant@ == "call"@ {
                            crate::types::TxView::Call {
                                receiver: rb@,
                                value: crate::u256::u256_of(crate::u256::be_val(vb@)),
                                calldata: db@,
                            }
                        } else {
                            crate::types::TxView::Deploy {
                                value: crate::u256::u256_of(crate::u256::be_val(vb@)),
                                initcode: db@,
                            }
                        },
                        (_, Some(vb), Some(db)) => crate::types::TxView::Deploy {
                            value: crate::u256::u256_of(crate::u256::be_val(vb@)),
                            initcode: db@,
                        },
                        _ => arbitrary(),
                    })
                    &&& (match idempotency_key {
                        Some(k) => q@.idempotency_key == Some(k@),
                        None => q@.idempotency_key is None,
                    })
                    &&& (match gas_limit {
                        Some(g) => q.gas_limit matches Some(v) && v == crate::u256::u256_of(
                            crate::u256::be_val(g@),
                        ),
                        None => q.gas_limit is None,
                    })
                })
            }),
    {
        proof {
            reveal_strlit("call");
            reveal_strlit("deploy");
            assert("call"@.len() == 4 && "deploy"@.len() == 6);
        }
        let sender = match TxSender::from_row(name, address) {
            Ok(s) => s,
            Err(e) => {
                return Err(e);
            },
        };
        let tx = match crate::types::Tx::from_row(variant, receiver, value, data) {
            Ok(t) => t,
            Err(e) => {
                return Err(e);
            },
        };
        let idempotency_key = match idempotency_key {
            Some(k) => Some(crate::codec::bytes_to_blob(k)),
            None => None,
        };
        let gas_value = match crate::codec::read_u256_option(gas_limit) {
            Ok(g) => g,
            Err(e) => {
                return Err(e);
            },
        };
        proof {
            if let (Some(g), Some(v)) = (gas_limit, gas_value) {
                crate::u256::lemma_val_bound(v);
                crate::u256::lemma_u256_of_val(crate::u256::be_val(g@));
                crate::u256::lemma_val_injective(v, crate::u256::u256_of(crate::u256::be_val(g@)));
            }
        }
        let q = TransactionRequest {
            chain_id: chain_id as u32,
            sender,
            tx,
            idempotency_key,
            gas_limit: gas_value,
        };
        Ok(q)
    }
}

/// First-in, first-out: insert three requests into a store with
/// nothing pending, and the oldest of the three is the first
/// unsubmitted row; once that row is marked dispatched, the second
/// takes its place.
pub proof fn lemma_fifo_three_inserts(
    d: DatabaseView,
    r1: TransactionRequestView,
    r2: TransactionRequestView,
    r3: TransactionRequestView,
)
    requires
        forall|i: int| 0 <= i < d.requests.len() ==> (#[trigger] d.requests[i]).dispatched,
    ensures
        ({
            let d3 = spec_insert_apply(
                spec_insert_apply(spec_insert_apply(d, r1), r2),
                r3,
            );
            let a = d.requests.len() as int;
            let marked = DatabaseView {
                keys: d3.keys,
                requests: d3.requests.update(
                    a,
                    (RequestRowView { dispatched: true, ..d3.requests[a] }),
                ),
                version: d3.version,
                dirty: d3.dirty,
            };
            &&& is_first_unsubmitted(d3, a)
            &&& is_first_unsubmitted(marked, a + 1)
        }),
{
    let d1 = spec_insert_apply(d, r1);
    let d2 = spec_insert_apply(d1, r2);
    let d3 = spec_insert_apply(d2, r3);
    let a = d.requests.len() as int;
    assert(d3.requests.len() == d.requests.len() + 3);
    assert(forall|i: int| 0 <= i < a ==> d3.requests[i] == (#[trigger] d.requests[i]));
    assert(!d3.requests[a].dispatched);
    assert(!d3.requests[a + 1].dispatched);
    let marked = DatabaseView {
        keys: d3.keys,
        requests: d3.requests.update(a, (RequestRowView { dispatched: true, ..d3.requests[a] })),
        version: d3.version,
        dirty: d3.dirty,
    };
    assert(forall|i: int| 0 <= i < a + 1 ==> (#[trigger] marked.requests[i]).dispatched);
    assert(!marked.requests[a + 1].dispatched);
}

/// Idempotency: once a request with a non-null idempotency key is
/// accepted, inserting any request with the same key into the
/// resulting store is rejected as a duplicate, whatever its other
/// fields. The second request's sender must still resolve, since the
/// unknown-sender check runs before the idempotency check.
pub proof fn lemma_duplicate_idempotency_key_rejected(
    d: DatabaseView,
    r1: TransactionRequestView,
    r2: TransactionRequestView,
    k: Seq<u8>,
)
    requires
        r1.idempotency_key == Some(k),
        r2.idempotency_key == Some(k),
        spec_insert_outcome(d, r1) is Accepted,
        resolves(d, r2.sender),
    ensures
        spec_insert_outcome(spec_insert_apply(d, r1), r2) is Duplicate,
{
    let d2 = spec_insert_apply(d, r1);
    assert(d2.requests[d.requests.len() as int].idempotency_key == Some(k));
    assert(has_idem_key(d2, k));
    assert(d2.keys == d.keys);
    let i = choose|i: int| 0 <= i < d.keys.len() && key_matches_sender(#[trigger] d.keys[i], r2.sender);
    assert(0 <= i < d2.keys.len() && key_matches_sender(d2.keys[i], r2.sender));
}

/// A null idempotency key never conflicts: after any accepted insert,
/// a request without a key and with a resolvable sender is still
/// accepted, same sender or not.
pub proof fn lemma_null_idempotency_keys_never_conflict(
    d: DatabaseView,
    r1: TransactionRequestView,
    r2: TransactionRequestView,
)
    requires
        r2.idempotency_key is None,
        spec_insert_outcome(d, r1) is Accepted,
        resolves(d, r2.sender),
    ensures
        spec_insert_outcome(spec_insert_apply(d, r1), r2) is Accepted,
{
    let d2 = spec_insert_apply(d, r1);
    let i = choose|i: int| 0 <= i < d.keys.len() && key_matches_sender(#[trigger] d.keys[i], r2.sender);
    assert(0 <= i < d2.keys.len() && key_matches_sender(d2.keys[i], r2.sender));
    assert(resolves(d2, r2.sender));
}

} // verus!
