//! The participant set: who shares an account, and how many of them must
//! approve. A set holds each participant once, in canonical order.

use vstd::prelude::*;
use crate::account::{lemma_account_ext, lemma_be_value_injective, AccountId};
use crate::derivation;
use crate::derivation::{derived_account, lemma_derive_order_independent};
use crate::error::{Error, InvalidReason};
use crate::layout::MAX_SIGNATORIES;

verus! {

/// Whether each identifier comes strictly before the next in canonical order.
pub open spec fn strictly_ascending(who: Seq<AccountId>) -> bool {
    forall|i: int, j: int| 0 <= i < j < who.len() ==> who[i].rank() < who[j].rank()
}

/// Identifiers in strictly ascending order are all different.
pub proof fn lemma_strictly_ascending_distinct(who: Seq<AccountId>)
    requires
        strictly_ascending(who),
    ensures
        who.no_duplicates(),
{
    assert forall|i: int, j: int|
        0 <= i < who.len() && 0 <= j < who.len() && i != j implies who[i] != who[j] by {
        if i < j {
            assert(who[i].rank() < who[j].rank());
        } else {
            assert(who[j].rank() < who[i].rank());
        }
    }
}

/// What is wrong with a set of `count` participants and a threshold, if
/// anything: too many participants, then a threshold outside one to `count`.
pub open spec fn set_fault(count: nat, threshold: u16) -> Option<InvalidReason> {
    if count > MAX_SIGNATORIES {
        Some(InvalidReason::TooManySignatories)
    } else if threshold < 1 || threshold > count {
        Some(InvalidReason::ThresholdOutOfRange)
    } else {
        None
    }
}

/// The members of `who`, each once, in canonical ascending order.
pub fn sort_unique(who: &Vec<AccountId>) -> (out: Vec<AccountId>)
    ensures
        strictly_ascending(out@),
        out@.to_set() == who@.to_set(),
        out@.len() == who@.to_set().len(),
{
    let mut out: Vec<AccountId> = Vec::new();
    let mut taken: usize = 0;
    while taken < who.len()
        invariant
            taken <= who.len(),
            strictly_ascending(out@),
            forall|x: AccountId| out@.contains(x) <==> who@.subrange(0, taken as int).contains(x),
        decreases who.len() - taken,
    {
        let item = who[taken];
        let mut at: usize = 0;
        while at < out.len() && out[at].precedes(&item)
            invariant
                at <= out.len(),
                forall|k: int| 0 <= k < at ==> out@[k].rank() < item.rank(),
            decreases out.len() - at,
        {
            at = at + 1;
        }
        let ghost before = out@;
        let ghost seen = who@.subrange(0, taken as int);
        let ghost next = who@.subrange(0, taken + 1);
        assert(next =~= seen.push(item));
        if at < out.len() && out[at].same(&item) {
            proof {
                assert forall|x: AccountId| out@.contains(x) <==> next.contains(x) by {
                    if next.contains(x) {
                        let i = choose|i: int| 0 <= i < next.len() && next[i] == x;
                        if i < seen.len() {
                            assert(seen[i] == x);
                            assert(seen.contains(x));
                        } else {
                            assert(before[at as int] == x);
                        }
                    }
                    if out@.contains(x) {
                        assert(seen.contains(x));
                        let i = choose|i: int| 0 <= i < seen.len() && seen[i] == x;
                        assert(next[i] == x);
                    }
                }
            }
        } else {
            out.insert(at, item);
            proof {
                if at < before.len() {
                    assert(!(before[at as int].rank() < item.rank()));
                    if before[at as int].rank() == item.rank() {
                        lemma_be_value_injective(before[at as int].bytes@, item.bytes@);
                        lemma_account_ext(before[at as int], item);
                    }
                }
                assert forall|i: int, j: int| 0 <= i < j < out@.len() implies out@[i].rank()
                    < out@[j].rank() by {
                    if j < at {
                        assert(before[i].rank() < before[j].rank());
                    } else if j == at {
                    } else if i < at {
                        assert(before[i].rank() < before[j - 1].rank());
                    } else if i == at {
                        assert(before[at as int].rank() <= before[j - 1].rank()) by {
                            if at as int != j - 1 {
                                assert(before[at as int].rank() < before[j - 1].rank());
                            }
                        }
                    } else {
                        assert(before[i - 1].rank() < before[j - 1].rank());
                    }
                }
                assert forall|x: AccountId| out@.contains(x) <==> next.contains(x) by {
                    if out@.contains(x) {
                        let i = choose|i: int| 0 <= i < out@.len() && out@[i] == x;
                        if i == at {
                            assert(next[taken as int] == x);
                        } else {
                            let i0 = if i < at { i } else { i - 1 };
                            assert(before[i0] == x);
                            assert(before.contains(x));
                            let k = choose|k: int| 0 <= k < seen.len() && seen[k] == x;
                            assert(next[k] == x);
                        }
                    }
                    if next.contains(x) {
                        let k = choose|k: int| 0 <= k < next.len() && next[k] == x;
                        if k < seen.len() {
                            assert(seen[k] == x);
                            assert(seen.contains(x));
                            assert(before.contains(x));
                            let i0 = choose|i0: int| 0 <= i0 < before.len() && before[i0] == x;
                            let i = if i0 < at { i0 } else { i0 + 1 };
                            assert(out@[i] == x);
                        } else {
                            assert(out@[at as int] == x);
                        }
                    }
                }
            }
        }
        taken = taken + 1;
    }
    proof {
        assert(who@.subrange(0, taken as int) =~= who@);
        assert(out@.to_set() =~= who@.to_set());
        lemma_strictly_ascending_distinct(out@);
        out@.unique_seq_to_set();
    }
    out
}

/// A participant set with its threshold.
#[derive(Clone, Debug, PartialEq, Eq)]
pub struct ParticipantSet {
    members: Vec<AccountId>,
    threshold: u16,
}

impl ParticipantSet {
    /// The participants, each once, in canonical ascending order.
    pub closed spec fn members(&self) -> Seq<AccountId> {
        self.members@
    }

    /// The number of approvals that dispatches a call.
    pub closed spec fn required(&self) -> u16 {
        self.threshold
    }

    /// Whether the set is as it must be: the participants stand once each
    /// in canonical order, there are no more of them than the ledger
    /// admits, and the threshold is at least one and at most their number.
    pub closed spec fn wf(&self) -> bool {
        &&& strictly_ascending(self.members@)
        &&& self.members@.len() <= MAX_SIGNATORIES
        &&& 1 <= self.threshold <= self.members@.len()
    }

    /// What `wf` says, for those who hold a set.
    pub proof fn lemma_wf(&self)
        requires
            self.wf(),
        ensures
            strictly_ascending(self.members()),
            self.members().no_duplicates(),
            self.members().len() <= MAX_SIGNATORIES,
            1 <= self.required() <= self.members().len(),
    {
        lemma_strictly_ascending_distinct(self.members@);
    }

    /// The set of the given participants, in whatever order and however
    /// often each is named, with the threshold. `InvalidParticipantSet`
    /// when there are more different participants than the ledger admits,
    /// or when the threshold is not between one and their number.
    pub fn new(participants: &Vec<AccountId>, threshold: u16) -> (r: Result<ParticipantSet, Error>)
        ensures
            match r {
                Ok(set) => {
                    &&& set_fault(participants@.to_set().len(), threshold) is None
                    &&& set.wf()
                    &&& set.members().to_set() == participants@.to_set()
                    &&& set.required() == threshold
                },
                Err(e) => {
                    &&& set_fault(participants@.to_set().len(), threshold) matches Some(reason)
                    &&& e == Error::InvalidParticipantSet(reason)
                },
            },
    {
        let members = sort_unique(participants);
        if members.len() > MAX_SIGNATORIES {
            Err(Error::InvalidParticipantSet(InvalidReason::TooManySignatories))
        } else if threshold < 1 || threshold as usize > members.len() {
            Err(Error::InvalidParticipantSet(InvalidReason::ThresholdOutOfRange))
        } else {
            Ok(ParticipantSet { members, threshold })
        }
    }

    /// The number of approvals that dispatches a call.
    pub fn threshold(&self) -> (t: u16)
        ensures
            t == self.required(),
    {
        self.threshold
    }

    /// The number of participants.
    pub fn len(&self) -> (n: usize)
        ensures
            n == self.members().len(),
    {
        self.members.len()
    }

    /// Whether `who` is a participant.
    pub fn contains(&self, who: &AccountId) -> (found: bool)
        ensures
            found == self.members().contains(*who),
    {
        crate::account::contains(&self.members, who)
    }

    /// The account that the participants share.
    pub fn account(&self) -> (id: AccountId)
        ensures
            id@ == derived_account(self.members(), self.required()),
    {
        derivation::derive(&self.members, self.threshold)
    }

    /// The other signatories that `signer` names when it submits a call:
    /// the participants without `signer`, in canonical order. `None` when
    /// `signer` is no participant.
    pub fn others_for(&self, signer: &AccountId) -> (r: Option<Vec<AccountId>>)
        requires
            self.wf(),
        ensures
            match r {
                Some(others) => {
                    &&& self.members().contains(*signer)
                    &&& others@ == self.members().remove(self.members().index_of(*signer))
                    &&& !others@.contains(*signer)
                    &&& strictly_ascending(others@)
                },
                None => !self.members().contains(*signer),
            },
    {
        let mut others: Vec<AccountId> = Vec::new();
        let mut found: Option<usize> = None;
        let mut i: usize = 0;
        proof {
            lemma_strictly_ascending_distinct(self.members@);
        }
        while i < self.members.len()
            invariant
                i <= self.members@.len(),
                self.members@.no_duplicates(),
                match found {
                    Some(at) => at < i && self.members@[at as int] == *signer && others@
                        == self.members@.subrange(0, i as int).remove(at as int),
                    None => others@ == self.members@.subrange(0, i as int) && forall|k: int|
                        0 <= k < i ==> self.members@[k] != *signer,
                },
            decreases self.members.len() - i,
        {
            let ghost seen = self.members@.subrange(0, i as int);
            let ghost next = self.members@.subrange(0, i + 1);
            if found.is_none() && self.members[i].same(signer) {
                found = Some(i);
                assert(others@ =~= next.remove(i as int));
            } else {
                others.push(self.members[i]);
                proof {
                    match found {
                        Some(at) => {
                            assert(others@ =~= next.remove(at as int));
                        },
                        None => {
                            assert(others@ =~= next);
                        },
                    }
                }
            }
            i = i + 1;
        }
        proof {
            assert(self.members@.subrange(0, i as int) =~= self.members@);
        }
        match found {
            Some(at) => {
                proof {
                    let m = self.members@;
                    assert(m.contains(*signer));
                    assert(m.index_of(*signer) == at as int);
                    assert forall|k: int| 0 <= k < others@.len() implies others@[k] != *signer by {
                        let k0 = if k < at { k } else { k + 1 };
                        assert(others@[k] == m[k0]);
                    }
                    assert forall|a: int, b: int| 0 <= a < b < others@.len() implies others@[a].rank()
                        < others@[b].rank() by {
                        let a0 = if a < at { a } else { a + 1 };
                        let b0 = if b < at { b } else { b + 1 };
                        assert(others@[a] == m[a0]);
                        assert(others@[b] == m[b0]);
                    }
                }
                Some(others)
            },
            None => None,
        }
    }
}

/// Every participant names the same shared account: the one derived from
/// the others and itself is the one derived from the whole set.
pub proof fn lemma_participants_share_account(members: Seq<AccountId>, at: int, threshold: u16)
    requires
        0 <= at < members.len(),
    ensures
        derived_account(members.remove(at).push(members[at]), threshold) == derived_account(
            members,
            threshold,
        ),
{
    broadcast use vstd::multiset::group_multiset_axioms;

    let others = members.remove(at);
    vstd::seq_lib::to_multiset_remove(members, at);
    vstd::seq_lib::to_multiset_build(others, members[at]);
    members.to_multiset_ensures();
    assert(others.push(members[at]).to_multiset() =~= members.to_multiset());
    lemma_derive_order_independent(others.push(members[at]), members, threshold);
}

} // verus!
