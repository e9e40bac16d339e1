//! Identity Ledger: the per-owner record of linked source-chain addresses.
//!
//! A ledger holds at most `MAX_LINKS` addresses, each one a well-formed
//! source address at the moment of insertion, no two equal, in insertion
//! order; no address is ever removed, and the owner never changes.

use vstd::prelude::*;

use crate::validator::{is_valid_source_address, valid_source_address, TargetAddress};

verus! {

/// Most linked addresses a ledger can hold.
pub const MAX_LINKS: usize = 10;

#[derive(Clone, Copy, Debug, PartialEq, Eq, Structural)]
pub enum RejectReason {
    InvalidAddress,
}

/// What an attempted insertion did.
#[derive(Clone, Copy, Debug, PartialEq, Eq, Structural)]
pub enum AddOutcome {
    /// The address was appended.
    Added,
    /// The address was already present; the ledger is unchanged and this is
    /// not an error.
    AlreadyLinked,
    /// The ledger is full; the ledger is unchanged.
    CapacityExceeded,
    /// The candidate fails validation; the ledger is unchanged.
    Rejected(RejectReason),
}

/// Whether `c` occurs in `addrs`.
pub open spec fn seq_has(addrs: Seq<Seq<char>>, c: Seq<char>) -> bool {
    exists|i: int| 0 <= i < addrs.len() && addrs[i] == c
}

/// The outcome of adding `c` to a ledger holding `addrs`.
pub open spec fn add_outcome(addrs: Seq<Seq<char>>, c: Seq<char>) -> AddOutcome {
    if !valid_source_address(c) {
        AddOutcome::Rejected(RejectReason::InvalidAddress)
    } else if seq_has(addrs, c) {
        AddOutcome::AlreadyLinked
    } else if addrs.len() >= MAX_LINKS as int {
        AddOutcome::CapacityExceeded
    } else {
        AddOutcome::Added
    }
}

/// The addresses held after adding `c` to a ledger holding `addrs`: the
/// candidate is appended exactly when the outcome is `Added`.
pub open spec fn add_result(addrs: Seq<Seq<char>>, c: Seq<char>) -> Seq<Seq<char>> {
    if add_outcome(addrs, c) == AddOutcome::Added {
        addrs.push(c)
    } else {
        addrs
    }
}

/// The per-owner persisted record of linked addresses.
pub struct IdentityLedger {
    /// The target-chain wallet this ledger belongs to; immutable after
    /// creation.
    pub owner: TargetAddress,
    /// Linked source addresses, insertion order preserved, unique by exact
    /// value.
    pub linked_addresses: Vec<String>,
    /// Opaque value used only to reconstruct the ledger's storage address;
    /// not business data.
    pub version_tag: u8,
}

impl IdentityLedger {
    /// The linked addresses as a sequence of character sequences.
    pub open spec fn addrs(&self) -> Seq<Seq<char>> {
        self.linked_addresses.deep_view()
    }

    /// The ledger's invariant: a well-formed owner key, at most `MAX_LINKS`
    /// entries, every entry a well-formed source address, no two equal.
    pub open spec fn wf(&self) -> bool {
        &&& self.owner.wf()
        &&& self.addrs().len() <= MAX_LINKS as int
        &&& forall|i: int|
            0 <= i < self.addrs().len() ==> valid_source_address(#[trigger] self.addrs()[i])
        &&& forall|i: int, j: int|
            0 <= i < j < self.addrs().len() ==> self.addrs()[i] != self.addrs()[j]
    }

    /// A fresh, empty ledger for `owner`.
    pub fn new(owner: TargetAddress, version_tag: u8) -> (r: IdentityLedger)
        requires
            owner.wf(),
        ensures
            r.wf(),
            r.owner@ == owner@,
            r.version_tag == version_tag,
            r.addrs() == Seq::<Seq<char>>::empty(),
    {
        let r = IdentityLedger { owner, linked_addresses: Vec::new(), version_tag };
        proof {
            assert(r.addrs() =~~= Seq::<Seq<char>>::empty());
        }
        r
    }

    /// Exact-match membership test; read-only.
    pub fn contains(&self, candidate: &String) -> (r: bool)
        ensures
            r == seq_has(self.addrs(), candidate@),
    {
        let mut i: usize = 0;
        while i < self.linked_addresses.len()
            invariant
                0 <= i <= self.linked_addresses.len(),
                forall|j: int| 0 <= j < i ==> self.addrs()[j] != candidate@,
            decreases self.linked_addresses.len() - i,
        {
            if self.linked_addresses[i] == *candidate {
                proof {
                    assert(self.addrs()[i as int] == candidate@);
                }
                return true;
            }
            i += 1;
        }
        false
    }

    /// Tries to link `candidate`: rejected when it is not a well-formed
    /// source address, an unchanged no-op when it is already present, an
    /// unchanged refusal when the ledger is full, and otherwise appended at
    /// the end. The owner and version tag never change.
    pub fn try_add_address(&mut self, candidate: String) -> (r: AddOutcome)
        requires
            old(self).wf(),
        ensures
            final(self).wf(),
            final(self).owner@ == old(self).owner@,
            final(self).version_tag == old(self).version_tag,
            r == add_outcome(old(self).addrs(), candidate@),
            final(self).addrs() == add_result(old(self).addrs(), candidate@),
    {
        if !is_valid_source_address(candidate.as_str()) {
            return AddOutcome::Rejected(RejectReason::InvalidAddress);
        }
        if self.contains(&candidate) {
            return AddOutcome::AlreadyLinked;
        }
        if self.linked_addresses.len() >= MAX_LINKS {
            return AddOutcome::CapacityExceeded;
        }
        self.linked_addresses.push(candidate);
        proof {
            assert(self.addrs() =~~= old(self).addrs().push(candidate@));
            assert forall|i: int, j: int|
                0 <= i < j < self.addrs().len() implies self.addrs()[i] != self.addrs()[j] by {
                if j < self.addrs().len() - 1 {
                    assert(old(self).addrs()[i] != old(self).addrs()[j]);
                } else {
                    assert(self.addrs()[i] == old(self).addrs()[i]);
                    assert(!seq_has(old(self).addrs(), candidate@));
                }
            }
        }
        AddOutcome::Added
    }

    /// A defensive copy of the linked addresses, in insertion order.
    pub fn list(&self) -> (r: Vec<String>)
        ensures
            r.deep_view() == self.addrs(),
    {
        let mut out: Vec<String> = Vec::new();
        let mut i: usize = 0;
        while i < self.linked_addresses.len()
            invariant
                0 <= i <= self.linked_addresses.len(),
                out@.len() == i,
                forall|k: int| 0 <= k < i ==> #[trigger] out@[k]@ == self.addrs()[k],
            decreases self.linked_addresses.len() - i,
        {
            let entry = self.linked_addresses[i].clone();
            proof {
                assert(entry@ == self.addrs()[i as int]);
            }
            out.push(entry);
            i += 1;
        }
        proof {
            assert(out.deep_view() =~~= self.addrs());
        }
        out
    }
}

/// Linking is idempotent: a valid address not yet present goes in once;
/// offered again, it reports `AlreadyLinked` and changes nothing, and the
/// ledger has grown by exactly one entry. From an empty ledger that one
/// entry is the whole list.
pub proof fn lemma_add_idempotent(addrs: Seq<Seq<char>>, c: Seq<char>)
    requires
        valid_source_address(c),
        !seq_has(addrs, c),
        addrs.len() < MAX_LINKS as int,
    ensures
        add_outcome(addrs, c) == AddOutcome::Added,
        add_result(addrs, c) == addrs.push(c),
        add_outcome(addrs.push(c), c) == AddOutcome::AlreadyLinked,
        add_result(addrs.push(c), c) == addrs.push(c),
        addrs.push(c).len() == addrs.len() + 1,
{
    assert(addrs.push(c)[addrs.len() as int] == c);
}

/// The ledger state after the first `k` of the candidates in `cs` have
/// been offered to a fresh ledger in order.
pub open spec fn state_after(cs: Seq<Seq<char>>, k: int) -> Seq<Seq<char>>
    decreases k,
{
    if k <= 0 {
        Seq::<Seq<char>>::empty()
    } else {
        add_result(state_after(cs, k - 1), cs[k - 1])
    }
}

proof fn lemma_capacity_step(cs: Seq<Seq<char>>, k: int)
    requires
        cs.len() == MAX_LINKS as int + 1,
        forall|i: int| 0 <= i < cs.len() ==> valid_source_address(#[trigger] cs[i]),
        forall|i: int, j: int| 0 <= i < j < cs.len() ==> cs[i] != cs[j],
        0 <= k <= MAX_LINKS as int,
    ensures
        state_after(cs, k) == cs.take(k),
    decreases k,
{
    if k == 0 {
        assert(state_after(cs, 0) =~~= cs.take(0));
    } else {
        lemma_capacity_step(cs, k - 1);
        assert(!seq_has(cs.take(k - 1), cs[k - 1])) by {
            assert(forall|i: int| 0 <= i < k - 1 ==> cs.take(k - 1)[i] == #[trigger] cs[i]);
        }
        assert(add_outcome(cs.take(k - 1), cs[k - 1]) == AddOutcome::Added);
        assert(cs.take(k - 1).push(cs[k - 1]) =~~= cs.take(k));
    }
}

/// Capacity is a hard bound: offered eleven distinct valid addresses, a
/// fresh ledger accepts the first ten in insertion order and refuses the
/// eleventh with `CapacityExceeded`, holding exactly ten entries.
pub proof fn lemma_capacity_bound(cs: Seq<Seq<char>>)
    requires
        cs.len() == MAX_LINKS as int + 1,
        forall|i: int| 0 <= i < cs.len() ==> valid_source_address(#[trigger] cs[i]),
        forall|i: int, j: int| 0 <= i < j < cs.len() ==> cs[i] != cs[j],
    ensures
        forall|k: int|
            0 <= k < MAX_LINKS as int ==> add_outcome(#[trigger] state_after(cs, k), cs[k])
                == AddOutcome::Added,
        state_after(cs, MAX_LINKS as int) == cs.take(MAX_LINKS as int),
        add_outcome(state_after(cs, MAX_LINKS as int), cs[MAX_LINKS as int])
            == AddOutcome::CapacityExceeded,
        add_result(state_after(cs, MAX_LINKS as int), cs[MAX_LINKS as int]) == cs.take(
            MAX_LINKS as int,
        ),
        state_after(cs, MAX_LINKS as int).len() == MAX_LINKS as int,
{
    assert forall|k: int|
        0 <= k < MAX_LINKS as int implies add_outcome(#[trigger] state_after(cs, k), cs[k])
        == AddOutcome::Added by {
        lemma_capacity_step(cs, k);
        assert(!seq_has(cs.take(k), cs[k])) by {
            assert(forall|i: int| 0 <= i < k ==> cs.take(k)[i] == #[trigger] cs[i]);
        }
    }
    lemma_capacity_step(cs, MAX_LINKS as int);
    let full = cs.take(MAX_LINKS as int);
    assert(!seq_has(full, cs[MAX_LINKS as int])) by {
        assert(forall|i: int| 0 <= i < MAX_LINKS as int ==> full[i] == #[trigger] cs[i]);
    }
}

} // verus!
