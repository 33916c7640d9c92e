//! Account identifiers and their canonical order.

use vstd::prelude::*;
use vstd::relations::{sorted_by, total_ordering};
use vstd::seq_lib::{lemma_sorted_unique, to_multiset_insert};
use crate::codec::{
    compact, lemma_compact_len, lemma_compact_prefix_unique, lemma_limit_values, limit, put_compact,
    take_compact,
};

verus! {

/// A fixed-width account identifier.
#[derive(Clone, Copy, Debug, PartialEq, Eq, PartialOrd, Ord, Hash)]
pub struct AccountId {
    pub bytes: [u8; 32],
}

impl View for AccountId {
    type V = Seq<u8>;

    open spec fn view(&self) -> Seq<u8> {
        self.bytes@
    }
}

/// The number that a big-endian digit string denotes.
pub open spec fn be_value(bytes: Seq<u8>) -> nat
    decreases bytes.len(),
{
    if bytes.len() == 0 {
        0
    } else {
        256 * be_value(bytes.drop_last()) + bytes.last() as nat
    }
}

/// Two digit strings of one length that denote the same number are equal.
pub proof fn lemma_be_value_injective(a: Seq<u8>, b: Seq<u8>)
    requires
        a.len() == b.len(),
        be_value(a) == be_value(b),
    ensures
        a == b,
    decreases a.len(),
{
    if a.len() > 0 {
        lemma_be_value_injective(a.drop_last(), b.drop_last());
        assert(a =~= a.drop_last().push(a.last()));
        assert(b =~= b.drop_last().push(b.last()));
    } else {
        assert(a =~= b);
    }
}

/// Of two digit strings of one length that agree before position `at`, the one
/// with the smaller digit at `at` denotes the smaller number.
pub proof fn lemma_be_value_first_difference(a: Seq<u8>, b: Seq<u8>, at: int)
    requires
        a.len() == b.len(),
        0 <= at < a.len(),
        a.subrange(0, at) == b.subrange(0, at),
        a[at] < b[at],
    ensures
        be_value(a) < be_value(b),
    decreases a.len(),
{
    let a0 = a.drop_last();
    let b0 = b.drop_last();
    if at == a.len() - 1 {
        assert(a0 =~= a.subrange(0, at));
        assert(b0 =~= b.subrange(0, at));
    } else {
        assert(a0.subrange(0, at) =~= a.subrange(0, at));
        assert(b0.subrange(0, at) =~= b.subrange(0, at));
        lemma_be_value_first_difference(a0, b0, at);
    }
}

impl AccountId {
    /// The position of the identifier in the canonical order: its bytes read
    /// as one big-endian number, so that identifiers compare byte by byte from
    /// the first.
    pub open spec fn rank(self) -> nat {
        be_value(self.bytes@)
    }

    /// The identifier made of the given bytes.
    pub fn from_bytes(bytes: [u8; 32]) -> (id: AccountId)
        ensures
            id@ == bytes@,
    {
        AccountId { bytes }
    }

    /// The identifier whose 32 bytes stand in `input` at `pos`.
    pub fn read(input: &[u8], pos: usize) -> (id: AccountId)
        requires
            pos + 32 <= input@.len(),
        ensures
            id@ == input@.subrange(pos as int, pos + 32),
    {
        let total = input.len();
        let mut bytes: [u8; 32] = [0u8; 32];
        let mut i: usize = 0;
        while i < 32
            invariant
                i <= 32,
                pos + 32 <= total == input@.len(),
                forall|k: int| 0 <= k < i ==> bytes@[k] == input@[pos + k],
            decreases 32 - i,
        {
            bytes[i] = input[pos + i];
            i = i + 1;
        }
        assert(bytes@ =~= input@.subrange(pos as int, pos + 32));
        AccountId { bytes }
    }

    /// The bytes of the identifier.
    pub fn as_bytes(&self) -> (bytes: &[u8; 32])
        ensures
            bytes@ == self@,
    {
        &self.bytes
    }

    /// Whether the two identifiers are the same.
    pub fn same(&self, other: &AccountId) -> (eq: bool)
        ensures
            eq == (*self == *other),
    {
        let mut i: usize = 0;
        while i < 32
            invariant
                i <= 32,
                forall|k: int| 0 <= k < i ==> self.bytes[k] == other.bytes[k],
            decreases 32 - i,
        {
            if self.bytes[i] != other.bytes[i] {
                return false;
            }
            i = i + 1;
        }
        assert(self.bytes =~= other.bytes);
        true
    }

    /// Whether `self` comes strictly before `other` in the canonical order.
    pub fn precedes(&self, other: &AccountId) -> (before: bool)
        ensures
            before == (self.rank() < other.rank()),
    {
        let mut i: usize = 0;
        while i < 32
            invariant
                i <= 32,
                forall|k: int| 0 <= k < i ==> self.bytes[k] == other.bytes[k],
            decreases 32 - i,
        {
            if self.bytes[i] != other.bytes[i] {
                proof {
                    assert(self.bytes@.subrange(0, i as int) =~= other.bytes@.subrange(0, i as int));
                    if self.bytes[i as int] < other.bytes[i as int] {
                        lemma_be_value_first_difference(self.bytes@, other.bytes@, i as int);
                    } else {
                        lemma_be_value_first_difference(other.bytes@, self.bytes@, i as int);
                    }
                }
                return self.bytes[i] < other.bytes[i];
            }
            i = i + 1;
        }
        assert(self.bytes =~= other.bytes);
        false
    }
}

/// Identifiers with the same bytes are the same identifier.
pub proof fn lemma_account_ext(a: AccountId, b: AccountId)
    requires
        a@ == b@,
    ensures
        a == b,
{
    assert(a.bytes =~= b.bytes);
}

/// The identifier with the given bytes.
pub open spec fn account_of(bytes: Seq<u8>) -> AccountId {
    choose|a: AccountId| a@ == bytes
}

/// Every identifier is the identifier with its bytes.
pub proof fn lemma_account_of(a: AccountId)
    ensures
        account_of(a@) == a,
{
    lemma_account_ext(account_of(a@), a);
}

/// A copy of the list.
pub fn copy_accounts(list: &Vec<AccountId>) -> (out: Vec<AccountId>)
    ensures
        out@ == list@,
{
    let mut out: Vec<AccountId> = Vec::new();
    let mut i: usize = 0;
    while i < list.len()
        invariant
            i <= list.len(),
            out@ == list@.subrange(0, i as int),
        decreases list.len() - i,
    {
        out.push(list[i]);
        assert(out@ =~= list@.subrange(0, i + 1));
        i = i + 1;
    }
    assert(list@.subrange(0, i as int) =~= list@);
    out
}

/// "Not after", in the canonical order.
pub open spec fn by_rank() -> spec_fn(AccountId, AccountId) -> bool {
    |a: AccountId, b: AccountId| a.rank() <= b.rank()
}

/// The canonical order is a total order on identifiers.
pub proof fn lemma_by_rank_total()
    ensures
        total_ordering(by_rank()),
{
    let r = by_rank();
    assert forall|x: AccountId, y: AccountId| #[trigger] r(x, y) && #[trigger] r(y, x) implies x
        == y by {
        lemma_be_value_injective(x.bytes@, y.bytes@);
        lemma_account_ext(x, y);
    }
}

/// Whether the identifiers stand in canonical ascending order.
pub open spec fn is_canonical(who: Seq<AccountId>) -> bool {
    sorted_by(who, by_rank())
}

/// The same identifiers, each as often as in `who`, in canonical ascending order.
pub open spec fn canonical_order(who: Seq<AccountId>) -> Seq<AccountId> {
    who.sort_by(by_rank())
}

/// The canonical order of a list is the one sorted arrangement of its members.
pub proof fn lemma_canonical_order(who: Seq<AccountId>, sorted: Seq<AccountId>)
    requires
        is_canonical(sorted),
        sorted.to_multiset() == who.to_multiset(),
    ensures
        sorted == canonical_order(who),
{
    lemma_by_rank_total();
    who.lemma_sort_by_ensures(by_rank());
    lemma_sorted_unique(sorted, canonical_order(who), by_rank());
}

/// Whether `who` is among `list`.
pub fn contains(list: &Vec<AccountId>, who: &AccountId) -> (found: bool)
    ensures
        found == list@.contains(*who),
{
    let mut i: usize = 0;
    while i < list.len()
        invariant
            i <= list.len(),
            forall|k: int| 0 <= k < i ==> list@[k] != *who,
        decreases list.len() - i,
    {
        if list[i].same(who) {
            return true;
        }
        i = i + 1;
    }
    false
}

/// The members of `who` in canonical ascending order.
pub fn sort_accounts(who: &Vec<AccountId>) -> (sorted: Vec<AccountId>)
    ensures
        sorted@ == canonical_order(who@),
        is_canonical(sorted@),
        sorted@.to_multiset() == who@.to_multiset(),
{
    let mut out: Vec<AccountId> = Vec::new();
    let mut taken: usize = 0;
    assert(who@.subrange(0, 0) =~= out@);
    while taken < who.len()
        invariant
            taken <= who.len(),
            is_canonical(out@),
            out@.to_multiset() == who@.subrange(0, taken as int).to_multiset(),
        decreases who.len() - taken,
    {
        let item = who[taken];
        let mut at: usize = 0;
        while at < out.len() && !item.precedes(&out[at])
            invariant
                at <= out.len(),
                forall|k: int| 0 <= k < at ==> out@[k].rank() <= item.rank(),
            decreases out.len() - at,
        {
            at = at + 1;
        }
        let ghost before = out@;
        out.insert(at, item);
        proof {
            to_multiset_insert(before, at as int, item);
            assert(who@.subrange(0, taken + 1) =~= who@.subrange(0, taken as int).push(item));
            before.to_multiset_ensures();
            who@.subrange(0, taken as int).to_multiset_ensures();
            let r = by_rank();
            assert forall|i: int, j: int| 0 <= i < j < out@.len() implies #[trigger] r(
                out@[i],
                out@[j],
            ) by {
                if j < at {
                    assert(r(before[i], before[j]));
                } else if j == at {
                } else if i < at {
                    assert(r(before[i], before[j - 1]));
                } else if i == at {
                    assert(r(before[at as int], before[j - 1]) || at as int == j - 1);
                } else {
                    assert(r(before[i - 1], before[j - 1]));
                }
            }
        }
        taken = taken + 1;
    }
    proof {
        assert(who@.subrange(0, taken as int) =~= who@);
        lemma_canonical_order(who@, out@);
    }
    out
}

/// The identifiers' bytes, one identifier after the other.
pub open spec fn concat_accounts(who: Seq<AccountId>) -> Seq<u8>
    decreases who.len(),
{
    if who.len() == 0 {
        Seq::empty()
    } else {
        concat_accounts(who.drop_last()) + who.last()@
    }
}

/// A list of identifiers on the wire: its length in compact form, then the identifiers.
pub open spec fn account_list(who: Seq<AccountId>) -> Seq<u8> {
    compact(who.len()) + concat_accounts(who)
}

pub proof fn lemma_concat_accounts_len(who: Seq<AccountId>)
    ensures
        concat_accounts(who).len() == 32 * who.len(),
    decreases who.len(),
{
    if who.len() > 0 {
        lemma_concat_accounts_len(who.drop_last());
    }
}

/// The `i`-th identifier stands at byte `32 * i` of the concatenation.
pub proof fn lemma_concat_accounts_slot(who: Seq<AccountId>, i: int)
    requires
        0 <= i < who.len(),
    ensures
        concat_accounts(who).len() == 32 * who.len(),
        concat_accounts(who).subrange(32 * i, 32 * i + 32) == who[i]@,
    decreases who.len(),
{
    lemma_concat_accounts_len(who);
    lemma_concat_accounts_len(who.drop_last());
    let all = concat_accounts(who);
    if i == who.len() - 1 {
        assert(all.subrange(32 * i, 32 * i + 32) =~= who.last()@);
    } else {
        lemma_concat_accounts_slot(who.drop_last(), i);
        assert(all.subrange(32 * i, 32 * i + 32) =~= concat_accounts(who.drop_last()).subrange(
            32 * i,
            32 * i + 32,
        ));
    }
}

/// Lists of one length whose bytes agree are the same list.
pub proof fn lemma_concat_accounts_injective(a: Seq<AccountId>, b: Seq<AccountId>)
    requires
        a.len() == b.len(),
        concat_accounts(a) == concat_accounts(b),
    ensures
        a == b,
{
    assert forall|i: int| 0 <= i < a.len() implies a[i] == b[i] by {
        lemma_concat_accounts_slot(a, i);
        lemma_concat_accounts_slot(b, i);
        lemma_account_ext(a[i], b[i]);
    }
    assert(a =~= b);
}

/// What a byte string of machine length that begins with a list must look like.
pub proof fn lemma_account_list_prefix(s: Seq<u8>, who: Seq<AccountId>)
    requires
        s.len() <= usize::MAX,
        account_list(who).is_prefix_of(s),
    ensures
        who.len() < limit(16),
        compact(who.len()).is_prefix_of(s),
        account_list(who).len() == compact(who.len()).len() + 32 * who.len(),
        concat_accounts(who) == s.subrange(
            compact(who.len()).len() as int,
            (compact(who.len()).len() + 32 * who.len()) as int,
        ),
{
    lemma_limit_values();
    lemma_concat_accounts_len(who);
    let c = compact(who.len());
    let all = account_list(who);
    assert(s.subrange(0, c.len() as int) =~= all.subrange(0, c.len() as int));
    assert(all.subrange(0, c.len() as int) =~= c);
    let end = (c.len() + 32 * who.len()) as int;
    assert(s.subrange(c.len() as int, end) =~= all.subrange(c.len() as int, end));
    assert(all.subrange(c.len() as int, end) =~= concat_accounts(who));
}

/// A byte string of machine length begins with at most one list.
pub proof fn lemma_account_list_prefix_unique(s: Seq<u8>, a: Seq<AccountId>, b: Seq<AccountId>)
    requires
        s.len() <= usize::MAX,
        account_list(a).is_prefix_of(s),
        account_list(b).is_prefix_of(s),
    ensures
        a == b,
{
    lemma_account_list_prefix(s, a);
    lemma_account_list_prefix(s, b);
    lemma_compact_prefix_unique(s, a.len(), b.len());
    lemma_concat_accounts_injective(a, b);
}

/// Appends a list of identifiers in wire form.
pub fn put_accounts(out: &mut Vec<u8>, who: &Vec<AccountId>)
    ensures
        final(out)@ == old(out)@ + account_list(who@),
{
    put_compact(out, who.len() as u128);
    let ghost start = out@;
    let mut i: usize = 0;
    assert(who@.subrange(0, 0) =~= Seq::<AccountId>::empty());
    while i < who.len()
        invariant
            i <= who.len(),
            out@ == start + concat_accounts(who@.subrange(0, i as int)),
        decreases who.len() - i,
    {
        out.extend_from_slice(who[i].as_bytes().as_slice());
        proof {
            let next = who@.subrange(0, i + 1);
            assert(next.drop_last() =~= who@.subrange(0, i as int));
            assert(next.last() == who@[i as int]);
            assert(out@ =~= start + concat_accounts(next));
        }
        i = i + 1;
    }
    proof {
        assert(who@.subrange(0, i as int) =~= who@);
        assert(out@ =~= old(out)@ + account_list(who@));
    }
}

/// Reads a list of identifiers at `pos`; gives the list and the position
/// after it. `None` when the bytes at `pos` begin with no list.
pub fn take_accounts(input: &[u8], pos: usize) -> (r: Option<(Vec<AccountId>, usize)>)
    requires
        pos <= input@.len(),
    ensures
        match r {
            Some((who, next)) => pos < next <= input@.len() && input@.subrange(
                pos as int,
                next as int,
            ) == account_list(who@),
            None => forall|who: Seq<AccountId>| !(#[trigger] account_list(who)).is_prefix_of(
                input@.skip(pos as int),
            ),
        },
{
    let total = input.len();
    let ghost tail = input@.skip(pos as int);
    proof {
        lemma_limit_values();
    }
    let (count, start) = match take_compact(input, pos) {
        Some(found) => found,
        None => {
            assert forall|who: Seq<AccountId>| !(#[trigger] account_list(who)).is_prefix_of(
                tail,
            ) by {
                if account_list(who).is_prefix_of(tail) {
                    lemma_account_list_prefix(tail, who);
                }
            }
            return None;
        },
    };
    assert(tail.subrange(0, start - pos) =~= compact(count as nat));
    if count > ((total - start) / 32) as u128 {
        assert forall|who: Seq<AccountId>| !(#[trigger] account_list(who)).is_prefix_of(tail) by {
            if account_list(who).is_prefix_of(tail) {
                lemma_account_list_prefix(tail, who);
                lemma_compact_prefix_unique(tail, who.len(), count as nat);
            }
        }
        return None;
    }
    let n: usize = count as usize;
    let mut who: Vec<AccountId> = Vec::new();
    let mut i: usize = 0;
    assert(input@.subrange(start as int, start as int) =~= concat_accounts(who@));
    while i < n
        invariant
            i <= n,
            start + 32 * n <= total == input@.len(),
            who@.len() == i,
            input@.subrange(start as int, start + 32 * i) == concat_accounts(who@),
        decreases n - i,
    {
        let ghost before = who@;
        let id = AccountId::read(input, start + 32 * i);
        who.push(id);
        proof {
            assert(who@.drop_last() =~= before);
            assert(input@.subrange(start as int, start + 32 * (i + 1)) =~= input@.subrange(
                start as int,
                start + 32 * i,
            ) + input@.subrange(start + 32 * i, start + 32 * i + 32));
        }
        i = i + 1;
    }
    proof {
        assert(input@.subrange(pos as int, start + 32 * n) =~= input@.subrange(
            pos as int,
            start as int,
        ) + input@.subrange(start as int, start + 32 * n));
    }
    Some((who, start + 32 * n))
}

} // verus!
