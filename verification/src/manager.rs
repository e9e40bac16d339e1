//! Identity Manager: decode, validate, locate the target's ledger, apply.
//!
//! The store holds one ledger per owner key. The message path never
//! creates a ledger: a message for an owner with no initialized ledger
//! reports `TargetNotInitialized` and changes nothing. Creation happens
//! only through the explicit initialization entry point, under an
//! authorization check.

use vstd::prelude::*;

use crate::codec::{decode, split_at_commas, Decoded};
use crate::ledger::{add_outcome, add_result, seq_has, AddOutcome, IdentityLedger};
use crate::text::{parse_i64_text, trim};
use crate::validator::{
    is_valid_source_address, lemma_target_key_unique, parse_target_address, target_key,
    valid_source_address, valid_target_address, TargetAddress,
};
use vstd::utf8::{decode_utf8, valid_utf8};

verus! {

#[derive(Clone, Copy, Debug, PartialEq, Eq, Structural)]
pub enum ManagerError {
    /// The payload is malformed: not UTF-8, fewer than three fields, or a
    /// timestamp outside the integer grammar.
    InvalidFormat,
    /// The source or target address fails its family's syntax check.
    InvalidAddress,
    /// The queried owner has no initialized ledger.
    LedgerNotFound,
    /// The signer is not the owner whose ledger the call touches.
    AuthorizationFailed,
    /// The owner's ledger already exists; a ledger is created exactly once.
    AlreadyInitialized,
}

/// What an inbound message did.
#[derive(Clone, Copy, Debug, PartialEq, Eq, Structural)]
pub enum LinkOutcome {
    /// The payload is a legacy status string, not an identity message; the
    /// caller may route it elsewhere.
    NotApplicable,
    /// The target owner has no initialized ledger; nothing was created.
    TargetNotInitialized,
    Added,
    AlreadyLinked,
    CapacityExceeded,
}

/// Index of the ledger owned by `k`, or -1 when there is none.
pub open spec fn owner_index(ledgers: Seq<IdentityLedger>, k: Seq<u8>) -> int
    decreases ledgers.len(),
{
    if ledgers.len() == 0 {
        -1
    } else if ledgers[0].owner@ == k {
        0
    } else {
        let r = owner_index(ledgers.drop_first(), k);
        if r < 0 {
            -1
        } else {
            r + 1
        }
    }
}

pub proof fn lemma_owner_index_facts(ledgers: Seq<IdentityLedger>, k: Seq<u8>)
    ensures
        -1 <= owner_index(ledgers, k) < ledgers.len(),
        owner_index(ledgers, k) >= 0 ==> ledgers[owner_index(ledgers, k)].owner@ == k,
        owner_index(ledgers, k) == -1 <==> (forall|i: int|
            0 <= i < ledgers.len() ==> (#[trigger] ledgers[i].owner@) != k),
    decreases ledgers.len(),
{
    if ledgers.len() > 0 && ledgers[0].owner@ != k {
        let rest = ledgers.drop_first();
        lemma_owner_index_facts(rest, k);
        if owner_index(ledgers, k) == -1 {
            assert forall|i: int| 0 <= i < ledgers.len() implies (#[trigger] ledgers[i].owner@)
                != k by {
                if i > 0 {
                    assert(rest[i - 1] == ledgers[i]);
                    assert(rest[i - 1].owner@ != k);
                }
            }
        }
        if forall|i: int| 0 <= i < ledgers.len() ==> (#[trigger] ledgers[i].owner@) != k {
            assert forall|i: int| 0 <= i < rest.len() implies (#[trigger] rest[i].owner@) != k by {
                assert(rest[i] == ledgers[i + 1]);
                assert(ledgers[i + 1].owner@ != k);
            }
        }
    }
}

/// The first match wins: if `ledgers[i]` is owned by `k` and no earlier
/// ledger is, then `i` is the owner's index.
pub proof fn lemma_owner_index_at(ledgers: Seq<IdentityLedger>, k: Seq<u8>, i: int)
    requires
        0 <= i < ledgers.len(),
        ledgers[i].owner@ == k,
        forall|j: int| 0 <= j < i ==> (#[trigger] ledgers[j].owner@) != k,
    ensures
        owner_index(ledgers, k) == i,
    decreases i,
{
    if i > 0 {
        assert(ledgers.drop_first()[i - 1] == ledgers[i]);
        assert(forall|j: int|
            0 <= j < i - 1 ==> (#[trigger] ledgers.drop_first()[j].owner@) != k);
        lemma_owner_index_at(ledgers.drop_first(), k, i - 1);
    }
}

/// The payload's identity triple, when the payload is UTF-8 text with at
/// least three comma-separated fields and a well-formed timestamp: the
/// trimmed source text, the trimmed target text, and the timestamp.
pub open spec fn decoded_triple(payload: Seq<u8>) -> Option<(Seq<char>, Seq<char>, i64)> {
    if !valid_utf8(payload) {
        None
    } else {
        let fields = split_at_commas(decode_utf8(payload));
        if fields.len() < 3 {
            None
        } else {
            match parse_i64_text(trim(fields[2])) {
                Some(v) => Some((trim(fields[0]), trim(fields[1]), v)),
                None => None,
            }
        }
    }
}

/// What processing `payload` against `ledgers` returns.
pub open spec fn process_result(ledgers: Seq<IdentityLedger>, payload: Seq<u8>) -> Result<
    LinkOutcome,
    ManagerError,
> {
    if !valid_utf8(payload) {
        Err(ManagerError::InvalidFormat)
    } else if split_at_commas(decode_utf8(payload)).len() == 1 {
        Ok(LinkOutcome::NotApplicable)
    } else {
        match decoded_triple(payload) {
            None => Err(ManagerError::InvalidFormat),
            Some((src, tgt, ts)) => {
                if !valid_source_address(src) {
                    Err(ManagerError::InvalidAddress)
                } else if !valid_target_address(tgt) {
                    Err(ManagerError::InvalidAddress)
                } else if owner_index(ledgers, target_key(tgt)) < 0 {
                    Ok(LinkOutcome::TargetNotInitialized)
                } else {
                    match add_outcome(ledgers[owner_index(ledgers, target_key(tgt))].addrs(), src) {
                        AddOutcome::Added => Ok(LinkOutcome::Added),
                        AddOutcome::AlreadyLinked => Ok(LinkOutcome::AlreadyLinked),
                        AddOutcome::CapacityExceeded => Ok(LinkOutcome::CapacityExceeded),
                        AddOutcome::Rejected(_) => Err(ManagerError::InvalidAddress),
                    }
                }
            },
        }
    }
}

/// How one ledger relates to its pre-state after a candidate was offered.
pub open spec fn ledger_updated(pre: IdentityLedger, post: IdentityLedger, c: Seq<char>) -> bool {
    &&& post.owner@ == pre.owner@
    &&& post.version_tag == pre.version_tag
    &&& post.addrs() == add_result(pre.addrs(), c)
}

/// How the whole store relates to its pre-state after processing
/// `payload`: only the addressed ledger changes, and only when the payload
/// is a valid triple whose target has an initialized ledger.
pub open spec fn process_transition(
    pre: Seq<IdentityLedger>,
    post: Seq<IdentityLedger>,
    payload: Seq<u8>,
) -> bool {
    match decoded_triple(payload) {
        Some((src, tgt, ts)) => {
            let idx = owner_index(pre, target_key(tgt));
            if valid_source_address(src) && valid_target_address(tgt) && idx >= 0 {
                &&& post.len() == pre.len()
                &&& forall|j: int| 0 <= j < pre.len() && j != idx ==> post[j] == #[trigger] pre[j]
                &&& ledger_updated(pre[idx], post[idx], src)
            } else {
                post == pre
            }
        },
        None => post == pre,
    }
}

/// The registry of ledgers, one per owner key.
pub struct IdentityStore {
    pub ledgers: Vec<IdentityLedger>,
}

impl IdentityStore {
    /// Every ledger is well formed and no two share an owner.
    pub open spec fn wf(&self) -> bool {
        &&& forall|i: int| 0 <= i < self.ledgers@.len() ==> (#[trigger] self.ledgers@[i]).wf()
        &&& forall|i: int, j: int|
            0 <= i < j < self.ledgers@.len() ==> self.ledgers@[i].owner@
                != self.ledgers@[j].owner@
    }

    /// An empty store.
    pub fn new() -> (r: IdentityStore)
        ensures
            r.wf(),
            r.ledgers@.len() == 0,
    {
        IdentityStore { ledgers: Vec::new() }
    }

    fn find_index(&self, key: &TargetAddress) -> (r: Option<usize>)
        ensures
            r matches Some(i) ==> 0 <= i < self.ledgers@.len() && owner_index(
                self.ledgers@,
                key@,
            ) == i as int,
            r is None ==> owner_index(self.ledgers@, key@) == -1,
    {
        let mut i: usize = 0;
        while i < self.ledgers.len()
            invariant
                0 <= i <= self.ledgers@.len(),
                forall|j: int| 0 <= j < i ==> (#[trigger] self.ledgers@[j].owner@) != key@,
            decreases self.ledgers@.len() - i,
        {
            if self.ledgers[i].owner.same_as(key) {
                proof {
                    lemma_owner_index_at(self.ledgers@, key@, i as int);
                }
                return Some(i);
            }
            i += 1;
        }
        proof {
            lemma_owner_index_facts(self.ledgers@, key@);
        }
        None
    }

    /// Creates the owner's ledger, exactly once, under an authorization
    /// check: the signer must be the owner. The new ledger starts empty.
    pub fn init_identity(&mut self, signer: &TargetAddress, owner: TargetAddress, version_tag: u8) -> (r:
        Result<(), ManagerError>)
        requires
            old(self).wf(),
            owner.wf(),
        ensures
            final(self).wf(),
            signer@ != owner@ ==> r == Err::<(), ManagerError>(ManagerError::AuthorizationFailed)
                && final(self).ledgers@ == old(self).ledgers@,
            signer@ == owner@ && owner_index(old(self).ledgers@, owner@) >= 0 ==> r == Err::<
                (),
                ManagerError,
            >(ManagerError::AlreadyInitialized) && final(self).ledgers@ == old(self).ledgers@,
            signer@ == owner@ && owner_index(old(self).ledgers@, owner@) == -1 ==> ({
                let pre = old(self).ledgers@;
                let post = final(self).ledgers@;
                &&& r == Ok::<(), ManagerError>(())
                &&& post.len() == pre.len() + 1
                &&& forall|j: int| 0 <= j < pre.len() ==> post[j] == #[trigger] pre[j]
                &&& post.last().owner@ == owner@
                &&& post.last().addrs() == Seq::<Seq<char>>::empty()
                &&& post.last().version_tag == version_tag
            }),
    {
        if !signer.same_as(&owner) {
            return Err(ManagerError::AuthorizationFailed);
        }
        proof {
            lemma_owner_index_facts(self.ledgers@, owner@);
        }
        match self.find_index(&owner) {
            Some(_) => Err(ManagerError::AlreadyInitialized),
            None => {
                let fresh = IdentityLedger::new(owner, version_tag);
                self.ledgers.push(fresh);
                Ok(())
            },
        }
    }

    /// The direct, already-authenticated path: adds `candidate` to the
    /// signer's own ledger under the usual linking rules; the signer with
    /// no initialized ledger is told so.
    pub fn add_linked_address(&mut self, owner: &TargetAddress, candidate: String) -> (r: Result<
        AddOutcome,
        ManagerError,
    >)
        requires
            old(self).wf(),
        ensures
            final(self).wf(),
            owner_index(old(self).ledgers@, owner@) == -1 ==> r == Err::<AddOutcome, ManagerError>(
                ManagerError::LedgerNotFound,
            ) && final(self).ledgers@ == old(self).ledgers@,
            owner_index(old(self).ledgers@, owner@) >= 0 ==> {
                let idx = owner_index(old(self).ledgers@, owner@);
                &&& r == Ok::<AddOutcome, ManagerError>(
                    add_outcome(old(self).ledgers@[idx].addrs(), candidate@),
                )
                &&& final(self).ledgers@.len() == old(self).ledgers@.len()
                &&& forall|j: int|
                    0 <= j < old(self).ledgers@.len() && j != idx ==> final(self).ledgers@[j]
                        == #[trigger] old(self).ledgers@[j]
                &&& ledger_updated(old(self).ledgers@[idx], final(self).ledgers@[idx], candidate@)
            },
    {
        match self.find_index(owner) {
            None => Err(ManagerError::LedgerNotFound),
            Some(i) => {
                let outcome = self.ledgers[i].try_add_address(candidate);
                Ok(outcome)
            },
        }
    }

    /// The message path: decode, validate both addresses, locate the
    /// target's ledger, apply. Never creates a ledger.
    pub fn process_inbound_link(&mut self, payload: &[u8]) -> (r: Result<LinkOutcome, ManagerError>)
        requires
            old(self).wf(),
        ensures
            final(self).wf(),
            r == process_result(old(self).ledgers@, payload@),
            process_transition(old(self).ledgers@, final(self).ledgers@, payload@),
    {
        proof {
            crate::codec::lemma_split_len(decode_utf8(payload@));
        }
        let msg = match decode(payload) {
            Err(_) => {
                return Err(ManagerError::InvalidFormat);
            },
            Ok(Decoded::NotAnIdentityMessage(_)) => {
                return Ok(LinkOutcome::NotApplicable);
            },
            Ok(Decoded::Identity(m)) => m,
        };
        if !is_valid_source_address(msg.source_address.as_str()) {
            return Err(ManagerError::InvalidAddress);
        }
        let key = match parse_target_address(msg.target_address.as_str()) {
            None => {
                return Err(ManagerError::InvalidAddress);
            },
            Some(k) => k,
        };
        proof {
            lemma_target_key_unique(msg.target_address@, key@);
        }
        match self.find_index(&key) {
            None => Ok(LinkOutcome::TargetNotInitialized),
            Some(i) => {
                let outcome = self.ledgers[i].try_add_address(msg.source_address);
                match outcome {
                    AddOutcome::Added => Ok(LinkOutcome::Added),
                    AddOutcome::AlreadyLinked => Ok(LinkOutcome::AlreadyLinked),
                    AddOutcome::CapacityExceeded => Ok(LinkOutcome::CapacityExceeded),
                    AddOutcome::Rejected(_) => Err(ManagerError::InvalidAddress),
                }
            },
        }
    }

    /// A copy of the owner's linked addresses, in insertion order; the
    /// owner with no initialized ledger is told so.
    pub fn get_linked_addresses(&self, owner: &TargetAddress) -> (r: Result<Vec<String>, ManagerError>)
        ensures
            owner_index(self.ledgers@, owner@) == -1 ==> r == Err::<Vec<String>, ManagerError>(
                ManagerError::LedgerNotFound,
            ),
            owner_index(self.ledgers@, owner@) >= 0 ==> (r matches Ok(v) && v.deep_view()
                == self.ledgers@[owner_index(self.ledgers@, owner@)].addrs()),
    {
        match self.find_index(owner) {
            None => Err(ManagerError::LedgerNotFound),
            Some(i) => Ok(self.ledgers[i].list()),
        }
    }

    /// Whether `candidate` is linked in the owner's ledger; the owner with
    /// no initialized ledger is told so.
    pub fn is_address_linked(&self, owner: &TargetAddress, candidate: &String) -> (r: Result<
        bool,
        ManagerError,
    >)
        ensures
            owner_index(self.ledgers@, owner@) == -1 ==> r == Err::<bool, ManagerError>(
                ManagerError::LedgerNotFound,
            ),
            owner_index(self.ledgers@, owner@) >= 0 ==> r == Ok::<bool, ManagerError>(
                seq_has(
                    self.ledgers@[owner_index(self.ledgers@, owner@)].addrs(),
                    candidate@,
                ),
            ),
    {
        match self.find_index(owner) {
            None => Err(ManagerError::LedgerNotFound),
            Some(i) => Ok(self.ledgers[i].contains(candidate)),
        }
    }
}

/// The message path never creates a ledger: a valid triple addressed to an
/// owner with no initialized ledger reports `TargetNotInitialized` and
/// leaves every ledger exactly as it was.
pub proof fn lemma_no_implicit_creation(
    ledgers: Seq<IdentityLedger>,
    post: Seq<IdentityLedger>,
    payload: Seq<u8>,
)
    requires
        decoded_triple(payload) matches Some(t) && valid_source_address(t.0)
            && valid_target_address(t.1) && owner_index(ledgers, target_key(t.1)) == -1,
        process_transition(ledgers, post, payload),
    ensures
        process_result(ledgers, payload) == Ok::<LinkOutcome, ManagerError>(
            LinkOutcome::TargetNotInitialized,
        ),
        post == ledgers,
{
    crate::codec::lemma_split_len(decode_utf8(payload));
}

} // verus!
