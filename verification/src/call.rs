//! Calls in their canonical wire form, their hashes, and the opaque envelope
//! in which a call travels to the ledger.

use vstd::prelude::*;
use crate::account::AccountId;
use crate::codec::{
    compact, copy_range, lemma_compact_len, lemma_compact_prefix_unique, limit, lemma_limit_values,
    put_compact, take_compact,
};
use crate::hashing::{blake2_256, blake2_256_digest};
use crate::layout::{ADDRESS_ID, BALANCES_PALLET, REMARK_CALL, SYSTEM_PALLET, TRANSFER_CALL};

verus! {

/// A call that can be proposed for joint authorization.
#[derive(Clone, Debug, PartialEq, Eq)]
pub enum Call {
    /// Move `value` from the calling account to `dest`.
    Transfer { dest: AccountId, value: u128 },
    /// Record `remark` on the ledger; changes no balance.
    Remark { remark: Vec<u8> },
}

/// What a call means, apart from how its value is held in memory.
pub enum CallView {
    Transfer { dest: AccountId, value: u128 },
    Remark { remark: Seq<u8> },
}

impl View for Call {
    type V = CallView;

    open spec fn view(&self) -> CallView {
        match self {
            Call::Transfer { dest, value } => CallView::Transfer { dest: *dest, value: *value },
            Call::Remark { remark } => CallView::Remark { remark: remark@ },
        }
    }
}

/// The canonical serialization of a call: pallet index, call index, then the
/// arguments in declaration order.
pub open spec fn encoded_call(call: CallView) -> Seq<u8> {
    match call {
        CallView::Transfer { dest, value } => seq![BALANCES_PALLET, TRANSFER_CALL, ADDRESS_ID]
            + dest@ + compact(value as nat),
        CallView::Remark { remark } => seq![SYSTEM_PALLET, REMARK_CALL] + compact(remark.len())
            + remark,
    }
}

/// The hash under which approvers agree on a call.
pub open spec fn call_digest(call: CallView) -> Seq<u8> {
    blake2_256_digest(encoded_call(call))
}

/// Whether a call of this meaning can be held in memory: its byte strings
/// have lengths that fit a machine word. The view of every `Call` is.
pub open spec fn representable(call: CallView) -> bool {
    call matches CallView::Remark { remark } ==> remark.len() <= usize::MAX
}

/// The call that the bytes serialize, if they serialize one.
pub open spec fn decoded_call(bytes: Seq<u8>) -> Option<CallView> {
    if exists|c: CallView| representable(c) && encoded_call(c) == bytes {
        Some(choose|c: CallView| representable(c) && encoded_call(c) == bytes)
    } else {
        None
    }
}

/// Calls with the same serialization are the same call.
pub proof fn lemma_encoded_call_injective(a: CallView, b: CallView)
    requires
        representable(a),
        representable(b),
        encoded_call(a) == encoded_call(b),
    ensures
        a == b,
{
    let ea = encoded_call(a);
    let eb = encoded_call(b);
    lemma_limit_values();
    match (a, b) {
        (
            CallView::Transfer { dest: da, value: va },
            CallView::Transfer { dest: db, value: vb },
        ) => {
            assert(da@ =~= ea.subrange(3, 35));
            assert(db@ =~= eb.subrange(3, 35));
            crate::account::lemma_account_ext(da, db);
            assert(compact(va as nat) =~= ea.skip(35));
            assert(compact(vb as nat) =~= eb.skip(35));
            crate::codec::lemma_compact_injective(va as nat, vb as nat);
        },
        (CallView::Remark { remark: ra }, CallView::Remark { remark: rb }) => {
            assert(ea.skip(2) =~= compact(ra.len()) + ra);
            assert(eb.skip(2) =~= compact(rb.len()) + rb);
            lemma_remark_parts(ra, ea.skip(2));
            lemma_remark_parts(rb, eb.skip(2));
            lemma_compact_prefix_unique(ea.skip(2), ra.len(), rb.len());
            let c = compact(ra.len());
            assert(ra =~= ea.skip(2 + c.len() as int));
            assert(rb =~= eb.skip(2 + c.len() as int));
        },
        (CallView::Transfer { dest, value }, CallView::Remark { remark }) => {
            assert(ea[0] == BALANCES_PALLET);
            assert(eb[0] == SYSTEM_PALLET);
        },
        (CallView::Remark { remark }, CallView::Transfer { dest, value }) => {
            assert(eb[0] == BALANCES_PALLET);
            assert(ea[0] == SYSTEM_PALLET);
        },
    }
}

/// A length-prefixed byte string begins with the compact form of its length.
proof fn lemma_remark_parts(remark: Seq<u8>, body: Seq<u8>)
    requires
        body == compact(remark.len()) + remark,
    ensures
        compact(remark.len()).is_prefix_of(body),
{
    let c = compact(remark.len());
    assert(body.subrange(0, c.len() as int) =~= c);
}

/// A byte string of 2^128 bytes or more is longer than any length that fits a machine word.
proof fn lemma_long_remark(remark: Seq<u8>)
    ensures
        remark.len() >= limit(16) ==> (compact(remark.len()) + remark).len() > usize::MAX,
{
    lemma_limit_values();
}

/// Semantically equal calls hash alike, and only equal calls serialize alike.
pub proof fn lemma_equal_calls_equal_hash(a: CallView, b: CallView)
    requires
        representable(a),
        representable(b),
    ensures
        a == b ==> call_digest(a) == call_digest(b),
        a == b <==> encoded_call(a) == encoded_call(b),
{
    if encoded_call(a) == encoded_call(b) {
        lemma_encoded_call_injective(a, b);
    }
}

impl Call {
    /// The canonical serialization of the call.
    pub fn encode(&self) -> (out: Vec<u8>)
        ensures
            out@ == encoded_call(self@),
            representable(self@),
    {
        let mut out: Vec<u8> = Vec::new();
        match self {
            Call::Transfer { dest, value } => {
                out.push(BALANCES_PALLET);
                out.push(TRANSFER_CALL);
                out.push(ADDRESS_ID);
                out.extend_from_slice(dest.as_bytes().as_slice());
                put_compact(&mut out, *value);
                assert(out@ =~= encoded_call(self@));
            },
            Call::Remark { remark } => {
                out.push(SYSTEM_PALLET);
                out.push(REMARK_CALL);
                put_compact(&mut out, remark.len() as u128);
                out.extend_from_slice(remark.as_slice());
                assert(out@ =~= encoded_call(self@));
            },
        }
        out
    }

    /// The call that `bytes` serialize; `None` when they serialize none.
    pub fn decode(bytes: &[u8]) -> (r: Option<Call>)
        ensures
            match r {
                Some(call) => bytes@ == encoded_call(call@) && decoded_call(bytes@) == Some(call@),
                None => decoded_call(bytes@) is None && forall|c: CallView| #[trigger]
                    encoded_call(c) != bytes@,
            },
    {
        let r = Call::parse(bytes);
        proof {
            if r is Some {
                let call = r->Some_0;
                assert(representable(call@));
                let c = choose|c: CallView| representable(c) && encoded_call(c) == bytes@;
                lemma_encoded_call_injective(c, call@);
            }
        }
        r
    }

    fn parse(bytes: &[u8]) -> (r: Option<Call>)
        ensures
            match r {
                Some(call) => bytes@ == encoded_call(call@) && representable(call@),
                None => forall|c: CallView| #[trigger] encoded_call(c) != bytes@,
            },
    {
        let total = bytes.len();
        proof {
            lemma_limit_values();
        }
        if total >= 35 && bytes[0] == BALANCES_PALLET && bytes[1] == TRANSFER_CALL && bytes[2]
            == ADDRESS_ID {
            let dest = AccountId::read(bytes, 3);
            let value = take_compact(bytes, 35);
            match value {
                Some((v, next)) => {
                    if next == total {
                        let call = Call::Transfer { dest, value: v };
                        assert(bytes@ =~= encoded_call(call@));
                        return Some(call);
                    }
                    assert forall|c: CallView| #[trigger] encoded_call(c) != bytes@ by {
                        if encoded_call(c) == bytes@ {
                            lemma_decode_shape(c, bytes@);
                            let w = c->Transfer_value;
                            assert(bytes@.skip(35).subrange(0, next - 35) =~= compact(v as nat));
                            lemma_compact_prefix_unique(bytes@.skip(35), v as nat, w as nat);
                        }
                    }
                    None
                },
                None => {
                    assert forall|c: CallView| #[trigger] encoded_call(c) != bytes@ by {
                        if encoded_call(c) == bytes@ {
                            lemma_decode_shape(c, bytes@);
                        }
                    }
                    None
                },
            }
        } else if total >= 2 && bytes[0] == SYSTEM_PALLET && bytes[1] == REMARK_CALL {
            let len = take_compact(bytes, 2);
            match len {
                Some((n, next)) => {
                    if n == (total - next) as u128 {
                        let remark = copy_range(bytes, next, total);
                        let call = Call::Remark { remark };
                        assert(bytes@ =~= encoded_call(call@));
                        return Some(call);
                    }
                    assert forall|c: CallView| #[trigger] encoded_call(c) != bytes@ by {
                        if encoded_call(c) == bytes@ {
                            lemma_decode_shape(c, bytes@);
                            let remark = c->Remark_remark;
                            assert(bytes@.skip(2).subrange(0, next - 2) =~= compact(n as nat));
                            lemma_compact_prefix_unique(bytes@.skip(2), n as nat, remark.len());
                        }
                    }
                    None
                },
                None => {
                    assert forall|c: CallView| #[trigger] encoded_call(c) != bytes@ by {
                        if encoded_call(c) == bytes@ {
                            lemma_decode_shape(c, bytes@);
                        }
                    }
                    None
                },
            }
        } else {
            assert forall|c: CallView| #[trigger] encoded_call(c) != bytes@ by {
                if encoded_call(c) == bytes@ {
                    lemma_decode_shape(c, bytes@);
                }
            }
            None
        }
    }
}

/// What the bytes of a serialized call must look like.
proof fn lemma_decode_shape(c: CallView, bytes: Seq<u8>)
    requires
        encoded_call(c) == bytes,
        bytes.len() <= usize::MAX,
    ensures
        match c {
            CallView::Transfer { dest, value } => {
                &&& bytes.len() >= 36
                &&& bytes[0] == BALANCES_PALLET
                &&& bytes[1] == TRANSFER_CALL
                &&& bytes[2] == ADDRESS_ID
                &&& compact(value as nat).is_prefix_of(bytes.skip(35))
                &&& bytes.len() == 35 + compact(value as nat).len()
            },
            CallView::Remark { remark } => {
                &&& bytes.len() >= 3
                &&& bytes[0] == SYSTEM_PALLET
                &&& bytes[1] == REMARK_CALL
                &&& remark.len() < limit(16)
                &&& compact(remark.len()).is_prefix_of(bytes.skip(2))
                &&& bytes.len() == 2 + compact(remark.len()).len() + remark.len()
            },
        },
{
    lemma_limit_values();
    match c {
        CallView::Transfer { dest, value } => {
            lemma_compact_len(value as nat);
            let cv = compact(value as nat);
            assert(bytes.skip(35) =~= cv);
            assert(cv.subrange(0, cv.len() as int) =~= cv);
        },
        CallView::Remark { remark } => {
            lemma_long_remark(remark);
            lemma_compact_len(remark.len());
            let cl = compact(remark.len());
            assert(bytes.skip(2).subrange(0, cl.len() as int) =~= cl);
        },
    }
}

/// The hash of a call's serialization.
#[derive(Clone, Copy, Debug, PartialEq, Eq, PartialOrd, Ord, Hash)]
pub struct CallHash {
    pub bytes: [u8; 32],
}

impl View for CallHash {
    type V = Seq<u8>;

    open spec fn view(&self) -> Seq<u8> {
        self.bytes@
    }
}

/// The hash with the given bytes.
pub open spec fn call_hash_from(bytes: Seq<u8>) -> CallHash {
    choose|h: CallHash| h@ == bytes
}

/// Every hash is the hash with its bytes.
pub proof fn lemma_call_hash_from(h: CallHash)
    ensures
        call_hash_from(h@) == h,
{
    lemma_call_hash_ext(call_hash_from(h@), h);
}

/// Hashes with the same bytes are the same hash.
pub proof fn lemma_call_hash_ext(a: CallHash, b: CallHash)
    requires
        a@ == b@,
    ensures
        a == b,
{
    assert(a.bytes =~= b.bytes);
}

impl CallHash {
    /// The hash whose 32 bytes stand in `input` at `pos`.
    pub fn read(input: &[u8], pos: usize) -> (h: CallHash)
        requires
            pos + 32 <= input@.len(),
        ensures
            h@ == input@.subrange(pos as int, pos + 32),
    {
        CallHash { bytes: AccountId::read(input, pos).bytes }
    }

    /// Whether the two hashes are the same.
    pub fn same(&self, other: &CallHash) -> (eq: bool)
        ensures
            eq == (*self == *other),
    {
        let mut i: usize = 0;
        while i < 32
            invariant
                i <= 32,
                forall|k: int| 0 <= k < i ==> self.bytes[k] == other.bytes[k],
            decreases 32 - i,
        {
            if self.bytes[i] != other.bytes[i] {
                return false;
            }
            i = i + 1;
        }
        assert(self.bytes =~= other.bytes);
        true
    }
}

/// The 32-byte digest of a serialized call.
pub fn hash(bytes: &[u8]) -> (h: CallHash)
    ensures
        h@ == blake2_256_digest(bytes@),
{
    CallHash { bytes: blake2_256(bytes) }
}

/// A serialized call carried as opaque bytes: the ledger accepts it without
/// the submitter decoding it, and approvers name it by its hash alone.
#[derive(Clone, Debug, PartialEq, Eq)]
pub struct WrappedCall {
    pub bytes: Vec<u8>,
}

impl View for WrappedCall {
    type V = Seq<u8>;

    open spec fn view(&self) -> Seq<u8> {
        self.bytes@
    }
}

/// An opaque envelope on the wire: the length in compact form, then the bytes.
pub open spec fn opaque_envelope(bytes: Seq<u8>) -> Seq<u8> {
    compact(bytes.len()) + bytes
}

/// Wraps a serialized call, byte for byte.
pub fn wrap_opaque(bytes: Vec<u8>) -> (wrapped: WrappedCall)
    ensures
        wrapped@ == bytes@,
{
    WrappedCall { bytes }
}

impl WrappedCall {
    /// The hash of the call inside.
    pub fn hash(&self) -> (h: CallHash)
        ensures
            h@ == blake2_256_digest(self@),
    {
        hash(self.bytes.as_slice())
    }

    /// Appends the envelope in wire form.
    pub fn put(&self, out: &mut Vec<u8>)
        ensures
            final(out)@ == old(out)@ + opaque_envelope(self@),
    {
        put_compact(out, self.bytes.len() as u128);
        out.extend_from_slice(self.bytes.as_slice());
        assert(out@ =~= old(out)@ + opaque_envelope(self@));
    }
}

} // verus!
