//! The persistent store: an idempotent table of transaction requests
//! plus the signing-key registry, with the schema version the
//! migration gate compares at startup.
//!
//! The store is the single source of truth for what has and has not
//! been dispatched. Its invariant carries what the schema's
//! constraints enforce: unique addresses and names in the registry,
//! unique non-null idempotency keys, row ids in insertion order, and
//! every stored request resolvable to a registry row.

use crate::signing_keys::{SigningKey, SigningKeyView};
use crate::types::{ChainId, TxSenderView, TxView};
use vstd::prelude::*;

verus! {

/// The schema version this binary expects: the version of its newest
/// migration.
pub const LATEST_SCHEMA_VERSION: u64 = 2;

/// How the store's recorded schema version compares with the binary's.
#[derive(Clone, Copy, PartialEq, Eq, Structural, Debug)]
pub enum MigrationStatus {
    Empty,
    Dirty,
    Behind,
    Current,
    Ahead,
}

/// What startup does with a migration status: refuse cleanly, migrate
/// first, or start at once.
#[derive(Clone, Copy, PartialEq, Eq, Structural, Debug)]
pub enum StartupAction {
    Refuse,
    MigrateThenStart,
    Start,
}

/// A registry row.
#[derive(Debug)]
pub struct KeyRow {
    pub id: i32,
    pub name: Option<String>,
    pub key: SigningKey,
}

/// The mathematical shape of a registry row.
pub struct KeyRowView {
    pub id: i32,
    pub name: Option<Seq<char>>,
    pub key: SigningKeyView,
}

/// A stored transaction request: the columns of the request table.
#[derive(Debug)]
pub struct RequestRow {
    pub id: i64,
    pub idempotency_key: Option<Vec<u8>>,
    pub chain_id: ChainId,
    pub signing_key: i32,
    pub tx: crate::types::Tx,
    pub gas_limit: Option<crate::u256::U256>,
    pub dispatched: bool,
}

/// The mathematical shape of a stored request.
pub struct RequestRowView {
    pub id: i64,
    pub idempotency_key: Option<Seq<u8>>,
    pub chain_id: ChainId,
    pub signing_key: i32,
    pub tx: TxView,
    pub gas_limit: Option<crate::u256::U256>,
    pub dispatched: bool,
}

impl View for KeyRow {
    type V = KeyRowView;

    open spec fn view(&self) -> KeyRowView {
        KeyRowView {
            id: self.id,
            name: match &self.name {
                Some(n) => Some(n@),
                None => None,
            },
            key: self.key@,
        }
    }
}

impl View for RequestRow {
    type V = RequestRowView;

    open spec fn view(&self) -> RequestRowView {
        RequestRowView {
            id: self.id,
            idempotency_key: crate::types::opt_bytes_view(&self.idempotency_key),
            chain_id: self.chain_id,
            signing_key: self.signing_key,
            tx: self.tx@,
            gas_limit: self.gas_limit,
            dispatched: self.dispatched,
        }
    }
}

/// The store's mathematical state.
pub struct DatabaseView {
    pub keys: Seq<KeyRowView>,
    pub requests: Seq<RequestRowView>,
    pub version: u64,
    pub dirty: bool,
}

/// Whether a registry row answers for a sender designation: exact
/// address match for an addressed sender, exact name match for a named
/// one.
pub open spec fn key_matches_sender(k: KeyRowView, s: TxSenderView) -> bool {
    match s {
        TxSenderView::Address(a) => k.key.address() == a,
        TxSenderView::Named(n) => k.name == Some(n),
    }
}

/// Whether some registry row answers for the sender.
pub open spec fn resolves(d: DatabaseView, s: TxSenderView) -> bool {
    exists|i: int| 0 <= i < d.keys.len() && key_matches_sender(d.keys[i], s)
}

/// Whether some stored request already holds this non-null idempotency
/// key.
pub open spec fn has_idem_key(d: DatabaseView, k: Seq<u8>) -> bool {
    exists|i: int| 0 <= i < d.requests.len() && d.requests[i].idempotency_key == Some(k)
}

/// The store's invariant: everything the schema's constraints enforce.
pub open spec fn db_wf(d: DatabaseView) -> bool {
    &&& d.keys.len() < 0x7fff_ffff
    &&& d.requests.len() < 0x7fff_ffff
    &&& (forall|i: int| 0 <= i < d.keys.len() ==> (#[trigger] d.keys[i]).id == i + 1)
    &&& (forall|i: int| 0 <= i < d.keys.len() ==> (#[trigger] d.keys[i]).key.wf())
    &&& (forall|i: int, j: int|
        0 <= i < d.keys.len() && 0 <= j < d.keys.len() && i != j ==> (#[trigger] d.keys[i]).key.address()
            != (#[trigger] d.keys[j]).key.address())
    &&& (forall|i: int, j: int|
        0 <= i < d.keys.len() && 0 <= j < d.keys.len() && i != j && (#[trigger] d.keys[i]).name is Some
            ==> d.keys[i].name != (#[trigger] d.keys[j]).name)
    &&& (forall|i: int| 0 <= i < d.requests.len() ==> (#[trigger] d.requests[i]).id == i + 1)
    &&& (forall|i: int|
        0 <= i < d.requests.len() ==> 1 <= (#[trigger] d.requests[i]).signing_key <= d.keys.len())
    &&& (forall|i: int| 0 <= i < d.requests.len() ==> txview_wf((#[trigger] d.requests[i]).tx))
    &&& (forall|i: int, j: int|
        0 <= i < d.requests.len() && 0 <= j < d.requests.len() && i != j && (
        #[trigger] d.requests[i]).idempotency_key is Some ==> d.requests[i].idempotency_key != (
        #[trigger] d.requests[j]).idempotency_key)
}

/// A payload shape is sound when a call's receiver has address shape.
pub open spec fn txview_wf(t: TxView) -> bool {
    match t {
        TxView::Call { receiver, .. } => receiver.len() == 20,
        TxView::Deploy { .. } => true,
    }
}

/// The store itself: registry and request table, plus the recorded
/// schema version and the dirty flag a broken migration run leaves.
#[derive(Debug)]
pub struct Database {
    pub keys: Vec<KeyRow>,
    pub requests: Vec<RequestRow>,
    pub version: u64,
    pub dirty: bool,
}

impl View for Database {
    type V = DatabaseView;

    open spec fn view(&self) -> DatabaseView {
        DatabaseView {
            keys: Seq::new(self.keys@.len(), |i: int| self.keys@[i]@),
            requests: Seq::new(self.requests@.len(), |i: int| self.requests@[i]@),
            version: self.version,
            dirty: self.dirty,
        }
    }
}

/// What a recorded version and dirty flag mean against the binary's
/// version, in the order the checks run: no version recorded at all,
/// then a broken prior run, then the version comparison.
pub open spec fn spec_migration_status(
    database_version: u64,
    dirty: bool,
    binary_version: u64,
) -> MigrationStatus {
    if database_version == 0 {
        MigrationStatus::Empty
    } else if dirty {
        MigrationStatus::Dirty
    } else if database_version < binary_version {
        MigrationStatus::Behind
    } else if database_version == binary_version {
        MigrationStatus::Current
    } else {
        MigrationStatus::Ahead
    }
}

/// Compare a recorded schema version against a binary's expected
/// version.
pub fn migration_status_of(database_version: u64, dirty: bool, binary_version: u64) -> (r:
    MigrationStatus)
    ensures
        r == spec_migration_status(database_version, dirty, binary_version),
{
    if database_version == 0 {
        MigrationStatus::Empty
    } else if dirty {
        MigrationStatus::Dirty
    } else if database_version < binary_version {
        MigrationStatus::Behind
    } else if database_version == binary_version {
        MigrationStatus::Current
    } else {
        MigrationStatus::Ahead
    }
}

/// What startup does for each status: an inconsistent or newer-than-
/// binary schema refuses cleanly; an empty or older schema migrates
/// first; a matching schema starts at once.
pub fn startup_action(status: &MigrationStatus) -> (r: StartupAction)
    ensures
        r == StartupAction::Refuse <==> (status is Dirty || status is Ahead),
        r == StartupAction::MigrateThenStart <==> (status is Empty || status is Behind),
        r == StartupAction::Start <==> status is Current,
{
    match status {
        MigrationStatus::Dirty => StartupAction::Refuse,
        MigrationStatus::Ahead => StartupAction::Refuse,
        MigrationStatus::Empty => StartupAction::MigrateThenStart,
        MigrationStatus::Behind => StartupAction::MigrateThenStart,
        MigrationStatus::Current => StartupAction::Start,
    }
}

/// A freshly migrated store reports Current.
pub proof fn lemma_migrated_store_is_current(binary_version: u64)
    requires
        binary_version > 0,
    ensures
        spec_migration_status(binary_version, false, binary_version) == MigrationStatus::Current,
{
}

impl Database {
    /// The store's invariant.
    pub open spec fn wf(&self) -> bool {
        db_wf(self@)
    }

    /// A fresh, empty store with no schema version recorded yet.
    pub fn new() -> (r: Database)
        ensures
            r.wf(),
            r@.keys.len() == 0,
            r@.requests.len() == 0,
            r@.version == 0,
            !r@.dirty,
    {
        let db = Database { keys: Vec::new(), requests: Vec::new(), version: 0, dirty: false };
        proof {
            assert(db@.keys =~= Seq::<KeyRowView>::empty());
            assert(db@.requests =~= Seq::<RequestRowView>::empty());
        }
        db
    }

    /// Where this store stands relative to the binary's newest
    /// migration.
    pub fn migration_status(&self) -> (r: Result<
        MigrationStatus,
        crate::transaction_requests::Error,
    >)
        ensures
            r matches Ok(s) && s == spec_migration_status(
                self@.version,
                self@.dirty,
                LATEST_SCHEMA_VERSION,
            ),
    {
        Ok(migration_status_of(self.version, self.dirty, LATEST_SCHEMA_VERSION))
    }

    /// Apply all pending migrations in order: afterwards the recorded
    /// version is the binary's and the store is clean. Never run on a
    /// store a broken migration run left inconsistent.
    pub fn migrate(&mut self) -> (r: Result<(), crate::transaction_requests::Error>)
        requires
            !old(self)@.dirty,
        ensures
            r is Ok,
            final(self)@.version == LATEST_SCHEMA_VERSION,
            !final(self)@.dirty,
            final(self)@.keys == old(self)@.keys,
            final(self)@.requests == old(self)@.requests,
            old(self).wf() ==> final(self).wf(),
    {
        self.version = LATEST_SCHEMA_VERSION;
        self.dirty = false;
        proof {
            assert(final(self)@.keys =~= old(self)@.keys);
            assert(final(self)@.requests =~= old(self)@.requests);
        }
        Ok(())
    }

    /// Whether any transaction identifier is recorded; none are yet.
    pub fn has_transaction_id(&self) -> (r: Result<bool, crate::transaction_requests::Error>)
        ensures
            r matches Ok(b) && !b,
    {
        Ok(false)
    }
}

} // verus!
