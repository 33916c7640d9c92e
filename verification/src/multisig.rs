//! The two calls that drive a multisignature operation, the timepoint that
//! tells operations apart, and the ledger's record of a pending operation.

use vstd::prelude::*;
use crate::account::{
    account_list, lemma_account_ext, lemma_account_list_prefix, lemma_account_list_prefix_unique,
    put_accounts, take_accounts, AccountId,
};
use crate::call::{opaque_envelope, CallHash, WrappedCall};
use crate::layout::{APPROVE_AS_MULTI_CALL, AS_MULTI_CALL, MULTISIG_PALLET};
use crate::codec::{
    le_bytes, lemma_le_bytes_injective, lemma_le_bytes_len, lemma_limit_values, put_le, read_le,
};

verus! {

/// The block and the position within it at which an operation was created.
#[derive(Clone, Copy, Debug, PartialEq, Eq, Structural)]
pub struct Timepoint {
    pub height: u32,
    pub index: u32,
}

/// A timepoint on the wire: height, then index, four little-endian bytes each.
pub open spec fn encoded_timepoint(t: Timepoint) -> Seq<u8> {
    le_bytes(t.height as nat, 4) + le_bytes(t.index as nat, 4)
}

/// Timepoints that are written alike are the same.
pub proof fn lemma_encoded_timepoint_injective(a: Timepoint, b: Timepoint)
    requires
        encoded_timepoint(a) == encoded_timepoint(b),
    ensures
        a == b,
{
    lemma_limit_values();
    lemma_le_bytes_len(a.height as nat, 4);
    lemma_le_bytes_len(b.height as nat, 4);
    lemma_le_bytes_len(a.index as nat, 4);
    lemma_le_bytes_len(b.index as nat, 4);
    let ea = encoded_timepoint(a);
    let eb = encoded_timepoint(b);
    assert(ea.subrange(0, 4) =~= le_bytes(a.height as nat, 4));
    assert(eb.subrange(0, 4) =~= le_bytes(b.height as nat, 4));
    assert(ea.subrange(4, 8) =~= le_bytes(a.index as nat, 4));
    assert(eb.subrange(4, 8) =~= le_bytes(b.index as nat, 4));
    lemma_le_bytes_injective(a.height as nat, b.height as nat, 4);
    lemma_le_bytes_injective(a.index as nat, b.index as nat, 4);
}

impl Timepoint {
    /// Appends the timepoint in wire form.
    pub fn put(&self, out: &mut Vec<u8>)
        ensures
            final(out)@ == old(out)@ + encoded_timepoint(*self),
    {
        put_le(out, self.height as u128, 4);
        put_le(out, self.index as u128, 4);
        assert(out@ =~= old(out)@ + encoded_timepoint(*self));
    }

    /// The timepoint whose eight bytes stand in `input` at `pos`.
    pub fn read(input: &[u8], pos: usize) -> (t: Timepoint)
        requires
            pos + 8 <= input@.len(),
        ensures
            encoded_timepoint(t) == input@.subrange(pos as int, pos + 8),
    {
        proof {
            lemma_limit_values();
        }
        let total = input.len();
        assert(pos + 8 <= total);
        let height = read_le(input, pos, 4) as u32;
        let index = read_le(input, pos + 4, 4) as u32;
        let t = Timepoint { height, index };
        assert(encoded_timepoint(t) =~= input@.subrange(pos as int, pos + 8));
        t
    }
}

/// A call to the multisig pallet.
#[derive(Clone, Debug, PartialEq, Eq)]
pub enum MultisigCall {
    /// Opens an operation: carries the wrapped call, names no timepoint, and
    /// asks the ledger to keep the call for later approvers.
    Initiate { threshold: u16, other_signatories: Vec<AccountId>, call: WrappedCall, max_weight: u64 },
    /// Approves the operation created at `timepoint` for the call with this hash.
    Approve {
        threshold: u16,
        other_signatories: Vec<AccountId>,
        timepoint: Timepoint,
        call_hash: CallHash,
        max_weight: u64,
    },
}

/// What a multisig call says, apart from how its value is held in memory.
pub enum MultisigCallView {
    Initiate { threshold: u16, other_signatories: Seq<AccountId>, call: Seq<u8>, max_weight: u64 },
    Approve {
        threshold: u16,
        other_signatories: Seq<AccountId>,
        timepoint: Timepoint,
        call_hash: CallHash,
        max_weight: u64,
    },
}

impl View for MultisigCall {
    type V = MultisigCallView;

    open spec fn view(&self) -> MultisigCallView {
        match self {
            MultisigCall::Initiate { threshold, other_signatories, call, max_weight } => {
                MultisigCallView::Initiate {
                    threshold: *threshold,
                    other_signatories: other_signatories@,
                    call: call@,
                    max_weight: *max_weight,
                }
            },
            MultisigCall::Approve {
                threshold,
                other_signatories,
                timepoint,
                call_hash,
                max_weight,
            } => MultisigCallView::Approve {
                threshold: *threshold,
                other_signatories: other_signatories@,
                timepoint: *timepoint,
                call_hash: *call_hash,
                max_weight: *max_weight,
            },
        }
    }
}

/// The arguments of a multisig call in the ledger's layout. Opening:
/// threshold, other signatories, an absent timepoint, the opaque call, the
/// request to store it, the weight limit. Approving: threshold, other
/// signatories, a present timepoint, the call hash, the weight limit.
pub open spec fn encoded_arguments(call: MultisigCallView) -> Seq<u8> {
    match call {
        MultisigCallView::Initiate { threshold, other_signatories, call, max_weight } => le_bytes(
            threshold as nat,
            2,
        ) + account_list(other_signatories) + seq![0u8] + opaque_envelope(call) + seq![1u8]
            + le_bytes(max_weight as nat, 8),
        MultisigCallView::Approve {
            threshold,
            other_signatories,
            timepoint,
            call_hash,
            max_weight,
        } => le_bytes(threshold as nat, 2) + account_list(other_signatories) + seq![1u8]
            + encoded_timepoint(timepoint) + call_hash@ + le_bytes(max_weight as nat, 8),
    }
}

/// The index of the call within the multisig pallet.
pub open spec fn call_index(call: MultisigCallView) -> u8 {
    match call {
        MultisigCallView::Initiate { .. } => AS_MULTI_CALL,
        MultisigCallView::Approve { .. } => APPROVE_AS_MULTI_CALL,
    }
}

/// The call as it stands in a transaction: pallet index, call index, arguments.
pub open spec fn encoded_submission(call: MultisigCallView) -> Seq<u8> {
    seq![MULTISIG_PALLET, call_index(call)] + encoded_arguments(call)
}

impl MultisigCall {
    /// Appends the arguments in the ledger's layout.
    pub fn put_arguments(&self, out: &mut Vec<u8>)
        ensures
            final(out)@ == old(out)@ + encoded_arguments(self@),
    {
        match self {
            MultisigCall::Initiate { threshold, other_signatories, call, max_weight } => {
                put_le(out, *threshold as u128, 2);
                put_accounts(out, other_signatories);
                out.push(0u8);
                call.put(out);
                out.push(1u8);
                put_le(out, *max_weight as u128, 8);
                assert(out@ =~= old(out)@ + encoded_arguments(self@));
            },
            MultisigCall::Approve {
                threshold,
                other_signatories,
                timepoint,
                call_hash,
                max_weight,
            } => {
                put_le(out, *threshold as u128, 2);
                put_accounts(out, other_signatories);
                out.push(1u8);
                timepoint.put(out);
                out.extend_from_slice(call_hash.bytes.as_slice());
                put_le(out, *max_weight as u128, 8);
                assert(out@ =~= old(out)@ + encoded_arguments(self@));
            },
        }
    }

    /// The arguments in the ledger's layout.
    pub fn encode_arguments(&self) -> (out: Vec<u8>)
        ensures
            out@ == encoded_arguments(self@),
    {
        let mut out: Vec<u8> = Vec::new();
        self.put_arguments(&mut out);
        out
    }

    /// The call as it stands in a transaction.
    pub fn encode(&self) -> (out: Vec<u8>)
        ensures
            out@ == encoded_submission(self@),
    {
        let mut out: Vec<u8> = Vec::new();
        out.push(MULTISIG_PALLET);
        match self {
            MultisigCall::Initiate { .. } => out.push(AS_MULTI_CALL),
            MultisigCall::Approve { .. } => out.push(APPROVE_AS_MULTI_CALL),
        }
        self.put_arguments(&mut out);
        assert(out@ =~= encoded_submission(self@));
        out
    }
}

/// The ledger's record of an operation that awaits approvals.
#[derive(Clone, Debug, PartialEq, Eq)]
pub struct PendingOperation {
    /// When the operation was created.
    pub when: Timepoint,
    /// What the creator has locked for it.
    pub deposit: u128,
    /// Who created it.
    pub depositor: AccountId,
    /// Who has approved it so far.
    pub approvals: Vec<AccountId>,
}

/// A record, apart from how its value is held in memory.
pub struct PendingView {
    pub when: Timepoint,
    pub deposit: u128,
    pub depositor: AccountId,
    pub approvals: Seq<AccountId>,
}

impl View for PendingOperation {
    type V = PendingView;

    open spec fn view(&self) -> PendingView {
        PendingView {
            when: self.when,
            deposit: self.deposit,
            depositor: self.depositor,
            approvals: self.approvals@,
        }
    }
}

/// A record as the ledger stores it: timepoint, deposit in sixteen
/// little-endian bytes, depositor, approvals.
pub open spec fn encoded_record(p: PendingView) -> Seq<u8> {
    encoded_timepoint(p.when) + le_bytes(p.deposit as nat, 16) + p.depositor@ + account_list(
        p.approvals,
    )
}

/// The record that the bytes store, if they store one.
pub open spec fn decoded_record(bytes: Seq<u8>) -> Option<PendingView> {
    if exists|p: PendingView| encoded_record(p) == bytes {
        Some(choose|p: PendingView| encoded_record(p) == bytes)
    } else {
        None
    }
}

/// The fixed-width head of a stored record, and the list that follows it.
proof fn lemma_record_parts(p: PendingView)
    ensures
        encoded_record(p).len() == 56 + account_list(p.approvals).len(),
        encoded_record(p).subrange(0, 8) == encoded_timepoint(p.when),
        encoded_record(p).subrange(8, 24) == le_bytes(p.deposit as nat, 16),
        encoded_record(p).subrange(24, 56) == p.depositor@,
        encoded_record(p).skip(56) == account_list(p.approvals),
{
    lemma_le_bytes_len(p.when.height as nat, 4);
    lemma_le_bytes_len(p.when.index as nat, 4);
    lemma_le_bytes_len(p.deposit as nat, 16);
    let e = encoded_record(p);
    assert(e.subrange(0, 8) =~= encoded_timepoint(p.when));
    assert(e.subrange(8, 24) =~= le_bytes(p.deposit as nat, 16));
    assert(e.subrange(24, 56) =~= p.depositor@);
    assert(e.skip(56) =~= account_list(p.approvals));
}

/// Records that are stored alike, in bytes that fit in memory, are the same.
pub proof fn lemma_encoded_record_injective(p: PendingView, q: PendingView)
    requires
        encoded_record(p) == encoded_record(q),
        encoded_record(p).len() <= usize::MAX,
    ensures
        p == q,
{
    lemma_record_parts(p);
    lemma_record_parts(q);
    lemma_limit_values();
    lemma_encoded_timepoint_injective(p.when, q.when);
    lemma_le_bytes_injective(p.deposit as nat, q.deposit as nat, 16);
    lemma_account_ext(p.depositor, q.depositor);
    let tail = encoded_record(p).skip(56);
    assert(tail.subrange(0, tail.len() as int) =~= tail);
    lemma_account_list_prefix_unique(tail, p.approvals, q.approvals);
}

impl PendingOperation {
    /// The record as the ledger stores it.
    pub fn encode(&self) -> (out: Vec<u8>)
        ensures
            out@ == encoded_record(self@),
    {
        let mut out: Vec<u8> = Vec::new();
        self.when.put(&mut out);
        put_le(&mut out, self.deposit, 16);
        out.extend_from_slice(self.depositor.as_bytes().as_slice());
        put_accounts(&mut out, &self.approvals);
        assert(out@ =~= encoded_record(self@));
        out
    }

    /// The record that `bytes` store; `None` when they store none.
    pub fn decode(bytes: &[u8]) -> (r: Option<PendingOperation>)
        ensures
            match r {
                Some(op) => bytes@ == encoded_record(op@) && decoded_record(bytes@) == Some(op@),
                None => decoded_record(bytes@) is None && forall|p: PendingView| #[trigger]
                    encoded_record(p) != bytes@,
            },
    {
        let total = bytes.len();
        let r = PendingOperation::parse(bytes);
        proof {
            if r is Some {
                let op = r->Some_0;
                let p = choose|p: PendingView| encoded_record(p) == bytes@;
                lemma_encoded_record_injective(p, op@);
            }
        }
        r
    }

    fn parse(bytes: &[u8]) -> (r: Option<PendingOperation>)
        ensures
            match r {
                Some(op) => bytes@ == encoded_record(op@),
                None => forall|p: PendingView| #[trigger] encoded_record(p) != bytes@,
            },
    {
        let total = bytes.len();
        if total < 56 {
            assert forall|p: PendingView| #[trigger] encoded_record(p) != bytes@ by {
                lemma_record_parts(p);
            }
            return None;
        }
        let when = Timepoint::read(bytes, 0);
        let deposit = read_le(bytes, 8, 16);
        let depositor = AccountId::read(bytes, 24);
        match take_accounts(bytes, 56) {
            Some((approvals, next)) => {
                if next == total {
                    let op = PendingOperation { when, deposit, depositor, approvals };
                    proof {
                        lemma_record_parts(op@);
                        assert(bytes@ =~= bytes@.subrange(0, 8) + bytes@.subrange(8, 24)
                            + bytes@.subrange(24, 56) + bytes@.subrange(56, total as int));
                    }
                    return Some(op);
                }
                assert forall|p: PendingView| #[trigger] encoded_record(p) != bytes@ by {
                    if encoded_record(p) == bytes@ {
                        lemma_record_parts(p);
                        let tail = bytes@.skip(56);
                        assert(tail.subrange(0, tail.len() as int) =~= tail);
                        assert(tail.subrange(0, next - 56) =~= bytes@.subrange(56, next as int));
                        lemma_account_list_prefix_unique(tail, p.approvals, approvals@);
                    }
                }
                None
            },
            None => {
                assert forall|p: PendingView| #[trigger] encoded_record(p) != bytes@ by {
                    if encoded_record(p) == bytes@ {
                        lemma_record_parts(p);
                        let tail = bytes@.skip(56);
                        assert(tail.subrange(0, tail.len() as int) =~= tail);
                    }
                }
                None
            },
        }
    }
}

} // verus!
