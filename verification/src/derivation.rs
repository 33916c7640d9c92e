//! The shared account of a participant set: one identifier for every
//! arrangement of the same participants with the same threshold.

use vstd::prelude::*;
use crate::account::{
    account_list, canonical_order, lemma_canonical_order, put_accounts, sort_accounts, AccountId,
};
use crate::codec::{le_bytes, put_le};
use crate::hashing::{blake2_256, blake2_256_digest};

verus! {

/// The tag that opens every derivation preimage: the ASCII text `modlpy/utilisuba`.
pub open spec fn derivation_tag() -> Seq<u8> {
    seq![109u8, 111, 100, 108, 112, 121, 47, 117, 116, 105, 108, 105, 115, 117, 98, 97]
}

/// What is hashed to name the shared account: the tag, the participants in
/// the order given, and the threshold as two little-endian bytes.
pub open spec fn derivation_preimage(who: Seq<AccountId>, threshold: u16) -> Seq<u8> {
    derivation_tag() + account_list(who) + le_bytes(threshold as nat, 2)
}

/// The first `width` bytes of `entropy`, with zeros where it runs out.
pub open spec fn zero_padded(entropy: Seq<u8>, width: nat) -> Seq<u8> {
    Seq::new(
        width,
        |i: int|
            if i < entropy.len() {
                entropy[i]
            } else {
                0u8
            },
    )
}

/// The bytes of the account that `who` share under `threshold`: the digest of
/// the preimage over the participants in canonical order.
pub open spec fn derived_account(who: Seq<AccountId>, threshold: u16) -> Seq<u8> {
    zero_padded(blake2_256_digest(derivation_preimage(canonical_order(who), threshold)), 32)
}

/// Order independence: two arrangements of the same participants (each
/// occurring equally often in both) share one account under one threshold.
pub proof fn lemma_derive_order_independent(a: Seq<AccountId>, b: Seq<AccountId>, threshold: u16)
    requires
        a.to_multiset() == b.to_multiset(),
    ensures
        derived_account(a, threshold) == derived_account(b, threshold),
{
    crate::account::lemma_by_rank_total();
    a.lemma_sort_by_ensures(crate::account::by_rank());
    lemma_canonical_order(b, canonical_order(a));
}

impl AccountId {
    /// Reads an identifier from `entropy` followed by endless zeros: the first
    /// 32 bytes of `entropy`, padded with zeros where it is shorter.
    pub fn from_entropy(entropy: &[u8]) -> (id: AccountId)
        ensures
            id@ == zero_padded(entropy@, 32),
    {
        let mut bytes: [u8; 32] = [0u8; 32];
        let mut i: usize = 0;
        while i < 32 && i < entropy.len()
            invariant
                i <= 32,
                i <= entropy@.len(),
                forall|k: int| 0 <= k < i ==> bytes@[k] == entropy@[k],
                forall|k: int| i <= k < 32 ==> bytes@[k] == 0,
            decreases 32 - i,
        {
            bytes[i] = entropy[i];
            i = i + 1;
        }
        assert(bytes@ =~= zero_padded(entropy@, 32));
        AccountId { bytes }
    }
}

/// The account that the participants share under `threshold`, whatever the
/// order in which they are given.
pub fn derive(participants: &Vec<AccountId>, threshold: u16) -> (id: AccountId)
    ensures
        id@ == derived_account(participants@, threshold),
{
    let sorted = sort_accounts(participants);
    let mut preimage: Vec<u8> = Vec::new();
    let tag: [u8; 16] = [109, 111, 100, 108, 112, 121, 47, 117, 116, 105, 108, 105, 115, 117, 98, 97];
    preimage.extend_from_slice(tag.as_slice());
    assert(preimage@ =~= derivation_tag());
    put_accounts(&mut preimage, &sorted);
    put_le(&mut preimage, threshold as u128, 2);
    let digest = blake2_256(preimage.as_slice());
    AccountId::from_entropy(digest.as_slice())
}

} // verus!
