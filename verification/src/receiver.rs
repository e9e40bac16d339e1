//! Replay-Protected Receiver: consumes a transport-delivered payload
//! exactly once, then drives the Identity Manager.
//!
//! A message is identified by its dedup tuple. The tuple is cleared first,
//! atomically and one-shot: a tuple already cleared means a replay, and
//! the message is rejected before any processing. Once cleared, the
//! message is handed to the manager exactly once; a manager failure does
//! not re-open the cleared slot, so the same tuple can never be processed
//! again.

use vstd::prelude::*;

use crate::manager::{process_result, process_transition, IdentityStore, LinkOutcome, ManagerError};
use crate::validator::key_bytes_eq;

verus! {

/// The transport-assigned identity of one inbound message.
pub struct DedupKey {
    pub source_chain_id: u32,
    pub sender_address: Vec<u8>,
    pub nonce: u64,
}

impl View for DedupKey {
    type V = (u32, Seq<u8>, u64);

    open spec fn view(&self) -> (u32, Seq<u8>, u64) {
        (self.source_chain_id, self.sender_address@, self.nonce)
    }
}

#[derive(Clone, Copy, Debug, PartialEq, Eq, Structural)]
pub enum ClearError {
    /// The tuple was cleared before: this delivery is a replay.
    AlreadyCleared,
}

/// Whether the tuple `k` occurs in `s`.
pub open spec fn keyset_has(s: Seq<DedupKey>, k: (u32, Seq<u8>, u64)) -> bool {
    exists|i: int| 0 <= i < s.len() && s[i]@ == k
}

fn key_matches(a: &DedupKey, b: &DedupKey) -> (r: bool)
    ensures
        r == (a@ == b@),
{
    a.source_chain_id == b.source_chain_id && a.nonce == b.nonce && key_bytes_eq(
        &a.sender_address,
        &b.sender_address,
    )
}

/// The set of dedup tuples already consumed, standing for the transport's
/// one-shot clearing state.
pub struct DedupRegistry {
    pub cleared: Vec<DedupKey>,
}

impl DedupRegistry {
    /// No tuple is recorded twice.
    pub open spec fn wf(&self) -> bool {
        forall|i: int, j: int|
            0 <= i < j < self.cleared@.len() ==> self.cleared@[i]@ != self.cleared@[j]@
    }

    pub fn new() -> (r: DedupRegistry)
        ensures
            r.wf(),
            r.cleared@.len() == 0,
    {
        DedupRegistry { cleared: Vec::new() }
    }

    /// One-shot consumption: records the tuple, or refuses a tuple that
    /// was recorded before, changing nothing.
    pub fn clear_once(&mut self, key: DedupKey) -> (r: Result<(), ClearError>)
        requires
            old(self).wf(),
        ensures
            final(self).wf(),
            keyset_has(old(self).cleared@, key@) ==> r == Err::<(), ClearError>(
                ClearError::AlreadyCleared,
            ) && final(self).cleared@ == old(self).cleared@,
            !keyset_has(old(self).cleared@, key@) ==> ({
                &&& r == Ok::<(), ClearError>(())
                &&& final(self).cleared@ == old(self).cleared@.push(key)
            }),
    {
        let mut i: usize = 0;
        while i < self.cleared.len()
            invariant
                0 <= i <= self.cleared@.len(),
                self == old(self),
                self.wf(),
                forall|j: int| 0 <= j < i ==> (#[trigger] self.cleared@[j]@) != key@,
            decreases self.cleared@.len() - i,
        {
            if key_matches(&self.cleared[i], &key) {
                proof {
                    assert(self.cleared@[i as int]@ == key@);
                }
                return Err(ClearError::AlreadyCleared);
            }
            i += 1;
        }
        self.cleared.push(key);
        proof {
            assert forall|i2: int, j2: int|
                0 <= i2 < j2 < self.cleared@.len() implies self.cleared@[i2]@
                != self.cleared@[j2]@ by {
                if j2 < self.cleared@.len() - 1 {
                    assert(old(self).cleared@[i2]@ != old(self).cleared@[j2]@);
                } else {
                    assert(self.cleared@[i2] == old(self).cleared@[i2]);
                }
            }
        }
        Ok(())
    }
}

/// What the receiver did with one delivery.
pub enum ReceiveOutcome {
    /// The dedup tuple was consumed before; the message was discarded and
    /// no processing happened.
    ReplayDetected,
    /// The tuple was consumed now, and the manager ran exactly once; its
    /// result, error or not, is final for this tuple.
    Handled(Result<LinkOutcome, ManagerError>),
}

/// The receiver: the transport's clearing state plus the ledger store.
pub struct Receiver {
    pub transport: DedupRegistry,
    pub store: IdentityStore,
}

impl Receiver {
    pub open spec fn wf(&self) -> bool {
        &&& self.transport.wf()
        &&& self.store.wf()
    }

    pub fn new() -> (r: Receiver)
        ensures
            r.wf(),
            r.transport.cleared@.len() == 0,
            r.store.ledgers@.len() == 0,
    {
        Receiver { transport: DedupRegistry::new(), store: IdentityStore::new() }
    }

    /// One delivery: clear the tuple first; a replayed tuple is rejected
    /// with nothing read or written. A fresh tuple is recorded and the
    /// payload is processed exactly once; failures downstream of clearing
    /// are final and never re-open the slot.
    pub fn on_message(&mut self, payload: &[u8], key: DedupKey) -> (r: ReceiveOutcome)
        requires
            old(self).wf(),
        ensures
            final(self).wf(),
            keyset_has(old(self).transport.cleared@, key@) ==> ({
                &&& r == ReceiveOutcome::ReplayDetected
                &&& final(self).transport.cleared@ == old(self).transport.cleared@
                &&& final(self).store.ledgers@ == old(self).store.ledgers@
            }),
            !keyset_has(old(self).transport.cleared@, key@) ==> ({
                &&& final(self).transport.cleared@ == old(self).transport.cleared@.push(key)
                &&& r == ReceiveOutcome::Handled(
                    process_result(old(self).store.ledgers@, payload@),
                )
                &&& process_transition(
                    old(self).store.ledgers@,
                    final(self).store.ledgers@,
                    payload@,
                )
            }),
    {
        match self.transport.clear_once(key) {
            Err(_) => ReceiveOutcome::ReplayDetected,
            Ok(()) => ReceiveOutcome::Handled(self.store.process_inbound_link(payload)),
        }
    }
}

/// Clearing is one-shot: once a tuple has been recorded, any later
/// delivery carrying an equal tuple finds it in the cleared set — so, by
/// the receiver's contract, it is rejected as a replay and the ledgers are
/// untouched: the manager runs at most once per tuple.
pub proof fn lemma_cleared_tuple_stays_cleared(cleared: Seq<DedupKey>, k1: DedupKey, k2: DedupKey)
    requires
        k1@ == k2@,
    ensures
        keyset_has(cleared.push(k1), k2@),
{
    assert(cleared.push(k1)[cleared.len() as int]@ == k2@);
}

} // verus!
