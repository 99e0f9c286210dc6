//! The submission dispatcher's planning logic: each cycle asks the
//! store for the oldest undispatched request, resolves its signer, and
//! picks the upstream for its chain. Everything but the network call
//! itself is decided here; the surrounding loop performs the chosen
//! action and reports the outcome back.
//!
//! Exactly one dispatcher runs per deployment: finding the oldest
//! undispatched row and marking it dispatched are two separate steps,
//! so two concurrent dispatchers could both pick the same row.

use crate::db::{resolves, Database, DatabaseView};
use crate::signing_keys::SigningKey;
use crate::transaction_requests::{
    has_unsubmitted, is_first_unsubmitted, lemma_stored_sender_resolves, row_request_view, Error,
};
use crate::types::{ChainId, TransactionRequest};
use vstd::prelude::*;

verus! {

/// The dispatcher's routing table: the chain ids that have a
/// configured upstream. The endpoints themselves are wiring around the
/// core.
#[derive(Debug)]
pub struct Submitter {
    pub upstream_chains: Vec<ChainId>,
}

/// What one dispatcher cycle does next: sleep when nothing is queued;
/// skip an item whose signer or chain cannot be served, leaving it for
/// a later cycle; or hand one request with its key to the upstream.
#[derive(Debug)]
pub enum CycleAction {
    Sleep,
    SkipInconsistent { id: i64 },
    SkipUnknownChain { id: i64, chain_id: ChainId },
    Dispatch { id: i64, request: TransactionRequest, key: SigningKey },
}

impl Submitter {
    /// Whether a chain id has a configured upstream.
    pub open spec fn spec_has_upstream(&self, chain_id: ChainId) -> bool {
        self.upstream_chains@.contains(chain_id)
    }

    /// Build a dispatcher over the given routing table.
    pub fn new(upstream_chains: Vec<ChainId>) -> (r: Submitter)
        ensures
            r.upstream_chains@ == upstream_chains@,
    {
        Submitter { upstream_chains }
    }

    /// Replace the routing table; never ambient state, always an
    /// explicit reload.
    pub fn reload(&mut self, upstream_chains: Vec<ChainId>)
        ensures
            final(self).upstream_chains@ == upstream_chains@,
    {
        self.upstream_chains = upstream_chains;
    }

    /// Whether this dispatcher can serve a chain.
    pub fn has_upstream(&self, chain_id: ChainId) -> (r: bool)
        ensures
            r == self.spec_has_upstream(chain_id),
    {
        let n = self.upstream_chains.len();
        let mut i: usize = 0;
        while i < n
            invariant
                n == self.upstream_chains@.len(),
                0 <= i <= n,
                forall|j: int| 0 <= j < i ==> self.upstream_chains@[j] != chain_id,
            decreases n - i,
        {
            if self.upstream_chains[i] == chain_id {
                return true;
            }
            i = i + 1;
        }
        false
    }

    /// Decide one cycle: nothing queued means sleep; otherwise take
    /// the oldest undispatched request, and either skip it for this
    /// cycle or hand it over with its resolved key. Each item gets at
    /// most one dispatch attempt per cycle.
    pub fn plan_cycle(&self, db: &Database) -> (r: Result<CycleAction, Error>)
        requires
            db.wf(),
        ensures
            ({
                let d = db@;
                &&& (r matches Ok(a) && a is Sleep) == !has_unsubmitted(d)
                &&& (r matches Ok(a) ==> (a matches CycleAction::SkipInconsistent { id }
                    ==> exists|i: int|
                        is_first_unsubmitted(d, i) && id == (#[trigger] d.requests[i]).id
                            && !resolves(d, row_request_view(d, i).sender)))
                &&& (r matches Ok(a) ==> (a matches CycleAction::SkipUnknownChain { id, chain_id }
                    ==> exists|i: int|
                        is_first_unsubmitted(d, i) && id == (#[trigger] d.requests[i]).id
                            && chain_id == d.requests[i].chain_id && !self.spec_has_upstream(
                            d.requests[i].chain_id,
                        )))
                &&& (r matches Ok(a) ==> (a matches CycleAction::Dispatch { id, request, key }
                    ==> exists|i: int|
                        is_first_unsubmitted(d, i) && id == (#[trigger] d.requests[i]).id
                            && request@ == row_request_view(d, i) && self.spec_has_upstream(
                            d.requests[i].chain_id,
                        ) && resolves(d, request@.sender) && request.wf() && key.wf()))
                &&& r is Ok
            }),
    {
        let found = match db.find_unsubmitted_transaction_with_id() {
            Ok(found) => found,
            Err(e) => {
                return Err(e);
            },
        };
        let (id, request) = match found {
            None => {
                return Ok(CycleAction::Sleep);
            },
            Some(pair) => pair,
        };
        let key = match db.find_key_for_sender(&request.sender) {
            Ok(Some(key)) => key,
            Ok(None) => {
                return Ok(CycleAction::SkipInconsistent { id });
            },
            Err(e) => {
                return Err(e);
            },
        };
        if !self.has_upstream(request.chain_id) {
            proof {
                let i = choose|i: int|
                    is_first_unsubmitted(db@, i) && request@ == row_request_view(db@, i) && id == (
                    #[trigger] db@.requests[i]).id;
                assert(request.chain_id == db@.requests[i].chain_id);
            }
            return Ok(CycleAction::SkipUnknownChain { id, chain_id: request.chain_id });
        }
        proof {
            let i = choose|i: int|
                is_first_unsubmitted(db@, i) && request@ == row_request_view(db@, i) && id == (
                #[trigger] db@.requests[i]).id;
            assert(request.chain_id == db@.requests[i].chain_id);
        }
        Ok(CycleAction::Dispatch { id, request, key })
    }
}

/// With a sound store the inconsistent-skip arm is unreachable: the
/// oldest undispatched request always resolves, because the store
/// never holds an unresolvable sender.
pub proof fn lemma_cycle_never_inconsistent(d: DatabaseView, i: int)
    requires
        crate::db::db_wf(d),
        is_first_unsubmitted(d, i),
    ensures
        resolves(d, row_request_view(d, i).sender),
{
    lemma_stored_sender_resolves(d, i);
}

/// Record a dispatch outcome: success marks the request dispatched; a
/// reported failure leaves it untouched, to be retried on a later
/// cycle. Failures never halt the loop.
pub fn conclude_dispatch(db: &mut Database, id: i64, succeeded: bool) -> (r: Result<(), Error>)
    requires
        old(db).wf(),
        1 <= id <= old(db)@.requests.len(),
    ensures
        final(db).wf(),
        r is Ok,
        !succeeded ==> final(db)@ == old(db)@,
        succeeded ==> final(db)@ == (DatabaseView {
            keys: old(db)@.keys,
            requests: old(db)@.requests.update(
                id - 1,
                (crate::db::RequestRowView { dispatched: true, ..old(db)@.requests[id - 1] }),
            ),
            version: old(db)@.version,
            dirty: old(db)@.dirty,
        }),
{
    if succeeded {
        match db.mark_transaction_dispatched(id) {
            Ok(()) => Ok(()),
            Err(e) => {
                proof {
                    assert(false);
                }
                Err(e)
            },
        }
    } else {
        Ok(())
    }
}

} // verus!
