//! Signing keys and their registry: address-or-name to key material or
//! to an external key reference. The address of an in-process key is
//! derived once, at creation, and stored; lookups are pure data reads.

use crate::db::KeyRow;
use crate::types::Address;
use crate::types::TxSender;
use crate::u256::{be_val, lemma_be_val_all_zero};
use rand::RngCore;
use vstd::prelude::*;

verus! {

/// The secp256k1 group order: a private key is a nonzero scalar below it.
pub open spec fn secp256k1_order() -> nat {
    0xFFFFFFFFFFFFFFFFFFFFFFFFFFFFFFFEBAAEDCE6AF48A03BBFD25E8CD0364141nat
}

/// Whether 32 bytes, read big-endian, are a valid private key scalar.
pub open spec fn key_in_range(k: Seq<u8>) -> bool {
    1 <= be_val(k) && be_val(k) < secp256k1_order()
}

/// The 20-byte account address a private key stands for. The
/// derivation is a fixed function of the key bytes alone; its
/// definition lives in the signing backend.
pub uninterp spec fn key_address(k: Seq<u8>) -> Seq<u8>;

/// Relies on k256's ecdsa::SigningKey::from_bytes, which accepts
/// exactly the 32-byte big-endian encodings of nonzero scalars below
/// the secp256k1 group order, and on
/// ethers_core::utils::secret_key_to_address, which computes the
/// 20-byte account address from the key alone.
#[verifier::external_body]
fn derive_insecure_address(private_key: &Vec<u8>) -> (r: Option<Vec<u8>>)
    requires
        private_key@.len() == 32,
    ensures
        (r is Some) == key_in_range(private_key@),
        r matches Some(a) ==> a@ == key_address(private_key@) && a@.len() == 20,
{
    let bytes = ethers_core::k256::FieldBytes::from_slice(private_key.as_slice());
    let key = match ethers_core::k256::ecdsa::SigningKey::from_bytes(bytes) {
        Ok(k) => k,
        Err(_) => {
            return None;
        },
    };
    Some(ethers_core::utils::secret_key_to_address(&key).0.to_vec())
}

/// Relies on rand::thread_rng and RngCore::fill_bytes to fill the
/// buffer with random bytes; nothing is assumed of the values drawn.
#[verifier::external_body]
fn random_key_bytes() -> (r: Vec<u8>)
    ensures
        r@.len() == 32,
{
    let mut b = vec![0u8; 32];
    rand::thread_rng().fill_bytes(&mut b);
    b
}

/// Key material for one sender: an in-process private key, or a
/// reference to a key held by an external key-management service.
#[derive(Debug)]
pub enum SigningKey {
    Insecure { address: Address, private_key: Vec<u8> },
    AwsKms { address: Address, key_id: String },
}

/// The mathematical shape of a signing key.
pub enum SigningKeyView {
    Insecure { address: Seq<u8>, private_key: Seq<u8> },
    AwsKms { address: Seq<u8>, key_id: Seq<char> },
}

impl SigningKeyView {
    /// The stored account address, whichever kind the key is.
    pub open spec fn address(&self) -> Seq<u8> {
        match self {
            SigningKeyView::Insecure { address, .. } => *address,
            SigningKeyView::AwsKms { address, .. } => *address,
        }
    }

    /// A key is sound when its address has address shape, in-process
    /// key material is exactly 32 valid scalar bytes, and the stored
    /// address is the one derived from that material.
    pub open spec fn wf(&self) -> bool {
        match self {
            SigningKeyView::Insecure { address, private_key } => address.len() == 20
                && private_key.len() == 32 && key_in_range(*private_key) && *address == key_address(
                *private_key,
            ),
            SigningKeyView::AwsKms { address, .. } => address.len() == 20,
        }
    }
}

impl View for SigningKey {
    type V = SigningKeyView;

    open spec fn view(&self) -> SigningKeyView {
        match self {
            SigningKey::Insecure { address, private_key } => SigningKeyView::Insecure {
                address: address@,
                private_key: private_key@,
            },
            SigningKey::AwsKms { address, key_id } => SigningKeyView::AwsKms {
                address: address@,
                key_id: key_id@,
            },
        }
    }
}

/// Why key material is rejected: the bytes are no valid scalar.
#[derive(Clone, Copy, PartialEq, Eq, Structural, Debug)]
pub enum KeyError {
    InvalidPrivateKey,
}

impl SigningKey {
    pub open spec fn wf(&self) -> bool {
        self@.wf()
    }

    /// Register in-process key material: derive and store its address
    /// once. The bytes are accepted exactly when they are a nonzero
    /// scalar below the secp256k1 group order.
    pub fn new_insecure(private_key: Vec<u8>) -> (r: Result<SigningKey, KeyError>)
        requires
            private_key@.len() == 32,
        ensures
            (r is Ok) == key_in_range(private_key@),
            r matches Ok(k) ==> (k@ == SigningKeyView::Insecure {
                address: key_address(private_key@),
                private_key: private_key@,
            } && k.wf()),
    {
        match derive_insecure_address(&private_key) {
            Some(address_bytes) => match Address::from_bytes(address_bytes) {
                Some(address) => Ok(SigningKey::Insecure { address, private_key }),
                None => {
                    assert(false);
                    Err(KeyError::InvalidPrivateKey)
                },
            },
            None => Err(KeyError::InvalidPrivateKey),
        }
    }

    /// Draw random key material until it is a valid scalar; almost
    /// every draw is. Should every draw fail, fall back to the scalar
    /// one, which is provably valid.
    pub fn new_random_insecure() -> (r: SigningKey)
        ensures
            r.wf(),
            r@ is Insecure,
    {
        let mut tries: usize = 0;
        while tries < 64
            invariant
                tries <= 64,
            decreases 64 - tries,
        {
            let bytes = random_key_bytes();
            match SigningKey::new_insecure(bytes) {
                Ok(k) => {
                    return k;
                },
                Err(_) => {},
            }
            tries = tries + 1;
        }
        let mut one: Vec<u8> = Vec::new();
        let mut i: usize = 0;
        while i < 31
            invariant
                one@.len() == i,
                0 <= i <= 31,
                forall|j: int| 0 <= j < i ==> one@[j] == 0u8,
            decreases 31 - i,
        {
            one.push(0u8);
            i = i + 1;
        }
        one.push(1u8);
        proof {
            assert(one@.drop_last() =~= one@.subrange(0, 31));
            lemma_be_val_all_zero(one@.drop_last());
            assert(be_val(one@) == 1);
            assert(key_in_range(one@));
        }
        match SigningKey::new_insecure(one) {
            Ok(k) => k,
            Err(_) => {
                assert(false);
                SigningKey::AwsKms { address: Address::zeroed(), key_id: String::new() }
            },
        }
    }

    /// The stored account address.
    pub fn address(&self) -> (r: &Address)
        ensures
            r@ == self@.address(),
    {
        match self {
            SigningKey::Insecure { address, .. } => address,
            SigningKey::AwsKms { address, .. } => address,
        }
    }

    /// A fresh key holding the same material.
    pub fn duplicate(&self) -> (r: SigningKey)
        ensures
            r@ == self@,
    {
        match self {
            SigningKey::Insecure { address, private_key } => {
                let pk = private_key.clone();
                proof {
                    assert(pk@ =~= private_key@);
                }
                SigningKey::Insecure { address: address.duplicate(), private_key: pk }
            },
            SigningKey::AwsKms { address, key_id } => SigningKey::AwsKms {
                address: address.duplicate(),
                key_id: key_id.clone(),
            },
        }
    }

    /// Hydrate a key from the columns of a registry row: the stored
    /// address blob, and exactly one of in-process key material or an
    /// external key reference.
    pub fn from_row(
        address: &Vec<u8>,
        insecure_key: Option<&Vec<u8>>,
        kms_key_id: Option<String>,
    ) -> (r: Result<SigningKey, crate::codec::CodecError>)
        requires
            (insecure_key is Some) != (kms_key_id is Some),
            insecure_key matches Some(k) ==> k@.len() == 32,
        ensures
            (r is Ok) == (address@.len() == 20),
            r matches Ok(k) ==> k@ == (match (insecure_key, kms_key_id) {
                (Some(pk), _) => SigningKeyView::Insecure {
                    address: address@,
                    private_key: pk@,
                },
                (_, Some(id)) => SigningKeyView::AwsKms { address: address@, key_id: id@ },
                (None, None) => arbitrary(),
            }),
    {
        let addr = match crate::codec::blob_to_address(address) {
            Ok(a) => a,
            Err(e) => {
                return Err(e);
            },
        };
        match (insecure_key, kms_key_id) {
            (Some(pk), None) => {
                let material = pk.clone();
                proof {
                    assert(material@ =~= pk@);
                }
                Ok(SigningKey::Insecure { address: addr, private_key: material })
            },
            (None, Some(id)) => Ok(SigningKey::AwsKms { address: addr, key_id: id }),
            _ => {
                assert(false);
                Err(crate::codec::CodecError::NullColumn)
            },
        }
    }
}

impl PartialEq for SigningKey {
    fn eq(&self, other: &Self) -> (r: bool) {
        match (self, other) {
            (
                SigningKey::Insecure { address: a1, private_key: p1 },
                SigningKey::Insecure { address: a2, private_key: p2 },
            ) => {
                let ep = *p1 == *p2;
                proof {
                    if ep {
                        assert(p1@ =~= p2@);
                    }
                }
                *a1 == *a2 && ep
            },
            (
                SigningKey::AwsKms { address: a1, key_id: k1 },
                SigningKey::AwsKms { address: a2, key_id: k2 },
            ) => *a1 == *a2 && *k1 == *k2,
            _ => false,
        }
    }
}

impl vstd::std_specs::cmp::PartialEqSpecImpl for SigningKey {
    open spec fn obeys_eq_spec() -> bool {
        true
    }

    open spec fn eq_spec(&self, other: &Self) -> bool {
        self@ == other@
    }
}

/// A registry row: the surrogate row id together with the key.
#[derive(Debug)]
pub struct SigningKeyWithId {
    pub id: i32,
    pub key: SigningKey,
}

/// Whether registering a key under this address and optional name
/// would break the registry's unique address or unique name rule.
pub open spec fn key_conflict(
    d: crate::db::DatabaseView,
    address: Seq<u8>,
    name: Option<Seq<char>>,
) -> bool {
    (exists|i: int| 0 <= i < d.keys.len() && (#[trigger] d.keys[i]).key.address() == address) || (
    name is Some && exists|i: int| 0 <= i < d.keys.len() && (#[trigger] d.keys[i]).name == name)
}

/// Whether the registry cannot take one more row.
pub open spec fn registry_full(d: crate::db::DatabaseView) -> bool {
    d.keys.len() >= 0x7fff_fffe
}

impl crate::db::Database {
    /// Append one registry row, enforcing the unique address and
    /// unique name rules the schema carries.
    fn insert_key_row(&mut self, key: &SigningKey, name: Option<String>) -> (r: Result<
        (),
        crate::transaction_requests::Error,
    >)
        requires
            old(self).wf(),
            key.wf(),
        ensures
            final(self).wf(),
            ({
                let d = old(self)@;
                let nv = match name {
                    Some(n) => Some(n@),
                    None => None,
                };
                let conflict = key_conflict(d, key@.address(), nv);
                &&& (r is Ok) == (!conflict && !registry_full(d))
                &&& (r is Ok ==> final(self)@ == (crate::db::DatabaseView {
                    keys: d.keys.push(
                        crate::db::KeyRowView {
                            id: (d.keys.len() + 1) as i32,
                            name: nv,
                            key: key@,
                        },
                    ),
                    requests: d.requests,
                    version: d.version,
                    dirty: d.dirty,
                }))
                &&& (!(r is Ok) ==> final(self)@ == d && (r matches Err(e) && e is Internal))
            }),
    {
        let n = self.keys.len();
        if n >= 0x7fff_fffe {
            return Err(
                crate::transaction_requests::Error::Internal(
                    "signing key registry is full".to_owned(),
                ),
            );
        }
        let new_address = key.address();
        let mut i: usize = 0;
        while i < n
            invariant
                self.wf(),
                n == self@.keys.len(),
                0 <= i <= n,
                new_address@ == key@.address(),
                forall|j: int|
                    0 <= j < i ==> (#[trigger] self@.keys[j]).key.address() != new_address@,
                forall|j: int|
                    0 <= j < i ==> !(name is Some && (#[trigger] self@.keys[j]).name == (match name {
                        Some(nm) => Some(nm@),
                        None => None::<Seq<char>>,
                    })),
            decreases n - i,
        {
            let row = &self.keys[i];
            if *row.key.address() == *new_address {
                proof {
                    assert((#[trigger] self@.keys[i as int]).key.address() == key@.address());
                    assert(key_conflict(
                        old(self)@,
                        key@.address(),
                        match name {
                            Some(n) => Some(n@),
                            None => None::<Seq<char>>,
                        },
                    ));
                }
                return Err(
                    crate::transaction_requests::Error::Internal(
                        "UNIQUE constraint failed: signing_keys.address".to_owned(),
                    ),
                );
            }
            let name_taken: bool = match (&row.name, &name) {
                (Some(a), Some(b)) => *a == *b,
                _ => false,
            };
            if name_taken {
                proof {
                    assert(name is Some && (#[trigger] self@.keys[i as int]).name == (match name {
                        Some(n) => Some(n@),
                        None => None::<Seq<char>>,
                    }));
                    assert(key_conflict(
                        old(self)@,
                        key@.address(),
                        match name {
                            Some(n) => Some(n@),
                            None => None::<Seq<char>>,
                        },
                    ));
                }
                return Err(
                    crate::transaction_requests::Error::Internal(
                        "UNIQUE constraint failed: signing_keys.name".to_owned(),
                    ),
                );
            }
            i = i + 1;
        }
        let id: i32 = (n + 1) as i32;
        let row = KeyRow { id, name, key: key.duplicate() };
        let ghost rv = row@;
        self.keys.push(row);
        proof {
            let d = old(self)@;
            assert(final(self)@.keys =~= d.keys.push(rv));
            assert(final(self)@.requests =~= d.requests);
            assert(crate::db::db_wf(final(self)@));
        }
        Ok(())
    }

    /// Register a key under a unique name usable in place of its
    /// address: in-process material and external references alike.
    pub fn insert_signing_key_with_name(&mut self, key: &SigningKey, name: &str) -> (r: Result<
        (),
        crate::transaction_requests::Error,
    >)
        requires
            old(self).wf(),
            key.wf(),
        ensures
            final(self).wf(),
            ({
                let d = old(self)@;
                let conflict = key_conflict(d, key@.address(), Some(name@));
                &&& (r is Ok) == (!conflict && !registry_full(d))
                &&& (r is Ok ==> final(self)@ == (crate::db::DatabaseView {
                    keys: d.keys.push(
                        crate::db::KeyRowView {
                            id: (d.keys.len() + 1) as i32,
                            name: Some(name@),
                            key: key@,
                        },
                    ),
                    requests: d.requests,
                    version: d.version,
                    dirty: d.dirty,
                }))
                &&& (!(r is Ok) ==> final(self)@ == d && (r matches Err(e) && e is Internal))
            }),
    {
        self.insert_key_row(key, Some(name.to_owned()))
    }

    /// Register a key under its address alone.
    pub fn insert_signing_key(&mut self, key: &SigningKey) -> (r: Result<
        (),
        crate::transaction_requests::Error,
    >)
        requires
            old(self).wf(),
            key.wf(),
        ensures
            final(self).wf(),
            ({
                let d = old(self)@;
                let conflict = key_conflict(d, key@.address(), None);
                &&& (r is Ok) == (!conflict && !registry_full(d))
                &&& (r is Ok ==> final(self)@ == (crate::db::DatabaseView {
                    keys: d.keys.push(
                        crate::db::KeyRowView {
                            id: (d.keys.len() + 1) as i32,
                            name: None,
                            key: key@,
                        },
                    ),
                    requests: d.requests,
                    version: d.version,
                    dirty: d.dirty,
                }))
                &&& (!(r is Ok) ==> final(self)@ == d && (r matches Err(e) && e is Internal))
            }),
    {
        self.insert_key_row(key, None)
    }

    /// Find the registry row answering for a sender: an exact address
    /// match for an addressed sender, an exact name match for a named
    /// one; never a fallback, and no match is no error.
    pub fn sender_to_key(&self, sender: &TxSender) -> (r: Result<
        Option<SigningKeyWithId>,
        crate::transaction_requests::Error,
    >)
        requires
            self.wf(),
        ensures
            !crate::db::resolves(self@, sender@) ==> r == Ok::<
                Option<SigningKeyWithId>,
                crate::transaction_requests::Error,
            >(None),
            crate::db::resolves(self@, sender@) ==> (r matches Ok(Some(kw)) && exists|i: int|
                0 <= i < self@.keys.len() && crate::db::key_matches_sender(
                    #[trigger] self@.keys[i],
                    sender@,
                ) && kw.id == self@.keys[i].id && kw.key@ == self@.keys[i].key),
            r matches Ok(Some(kw)) ==> kw.key.wf(),
    {
        let n = self.keys.len();
        let mut i: usize = 0;
        while i < n
            invariant
                self.wf(),
                n == self@.keys.len(),
                0 <= i <= n,
                forall|j: int|
                    0 <= j < i ==> !crate::db::key_matches_sender(
                        #[trigger] self@.keys[j],
                        sender@,
                    ),
            decreases n - i,
        {
            let row = &self.keys[i];
            let matched: bool = match sender {
                TxSender::Address(a) => *row.key.address() == *a,
                TxSender::Named(nm) => match &row.name {
                    Some(m) => *m == *nm,
                    None => false,
                },
            };
            if matched {
                proof {
                    assert(crate::db::key_matches_sender(#[trigger] self@.keys[i as int], sender@));
                    assert(crate::db::resolves(self@, sender@));
                }
                return Ok(Some(SigningKeyWithId { id: row.id, key: row.key.duplicate() }));
            }
            i = i + 1;
        }
        Ok(None)
    }

    /// Resolve a sender to its signing key: exact address or exact
    /// name match only; an unregistered sender is no error, just no
    /// key.
    pub fn find_key_for_sender(&self, sender: &TxSender) -> (r: Result<
        Option<SigningKey>,
        crate::transaction_requests::Error,
    >)
        requires
            self.wf(),
        ensures
            !crate::db::resolves(self@, sender@) ==> r == Ok::<
                Option<SigningKey>,
                crate::transaction_requests::Error,
            >(None),
            crate::db::resolves(self@, sender@) ==> (r matches Ok(Some(k)) && exists|i: int|
                0 <= i < self@.keys.len() && crate::db::key_matches_sender(
                    #[trigger] self@.keys[i],
                    sender@,
                ) && k@ == self@.keys[i].key),
            r matches Ok(Some(k)) ==> k.wf(),
    {
        match self.sender_to_key(sender) {
            Ok(Some(kw)) => Ok(Some(kw.key)),
            Ok(None) => Ok(None),
            Err(e) => Err(e),
        }
    }
}

} // verus!
