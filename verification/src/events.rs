//! The multisig pallet's events: read from the finalized-event stream by
//! their pallet and event index, filtered by kind, and waited for by what
//! they carry.

use vstd::prelude::*;
use crate::account::{lemma_account_ext, AccountId};
use crate::call::{lemma_call_hash_ext, CallHash};
use crate::codec::lemma_le_bytes_len;
use crate::error::{classified, encoded_error, lemma_classified_encoded, DispatchError, Error};
use crate::layout::{
    MULTISIG_APPROVAL_EVENT, MULTISIG_CANCELLED_EVENT, MULTISIG_EXECUTED_EVENT, MULTISIG_PALLET,
    NEW_MULTISIG_EVENT,
};
use crate::multisig::{encoded_timepoint, lemma_encoded_timepoint_injective, Timepoint};

verus! {

/// The kinds of event that the multisig pallet emits.
#[derive(Clone, Copy, Debug, PartialEq, Eq, Structural)]
pub enum EventKind {
    NewMultisig,
    MultisigApproval,
    MultisigExecuted,
    MultisigCancelled,
}

/// How the dispatch of a wrapped call ended.
#[derive(Clone, Copy, Debug, PartialEq, Eq, Structural)]
pub enum DispatchOutcome {
    Success,
    Failure(DispatchError),
}

/// An event of the multisig pallet.
#[derive(Clone, Copy, Debug, PartialEq, Eq)]
pub enum Event {
    /// `approving` opened an operation on the account `multisig`.
    NewMultisig { approving: AccountId, multisig: AccountId, call_hash: CallHash },
    /// `approving` approved an operation that still awaits approvals.
    MultisigApproval {
        approving: AccountId,
        timepoint: Timepoint,
        multisig: AccountId,
        call_hash: CallHash,
    },
    /// The approval of `approving` reached the threshold; the wrapped call
    /// was dispatched and ended as `result` tells.
    MultisigExecuted {
        approving: AccountId,
        timepoint: Timepoint,
        multisig: AccountId,
        call_hash: CallHash,
        result: DispatchOutcome,
    },
    /// `cancelling` withdrew the operation.
    MultisigCancelled {
        cancelling: AccountId,
        timepoint: Timepoint,
        multisig: AccountId,
        call_hash: CallHash,
    },
}

/// An event as the stream hands it out: the indices of its pallet and of
/// the event within the pallet, and the bytes of its fields.
#[derive(Clone, Debug, PartialEq, Eq)]
pub struct RawEvent {
    pub pallet_index: u8,
    pub variant_index: u8,
    pub bytes: Vec<u8>,
}

/// A raw event, apart from how its value is held in memory.
pub struct RawEventView {
    pub pallet_index: u8,
    pub variant_index: u8,
    pub bytes: Seq<u8>,
}

impl View for RawEvent {
    type V = RawEventView;

    open spec fn view(&self) -> RawEventView {
        RawEventView {
            pallet_index: self.pallet_index,
            variant_index: self.variant_index,
            bytes: self.bytes@,
        }
    }
}

/// The kind of an event.
pub open spec fn kind_of(e: Event) -> EventKind {
    match e {
        Event::NewMultisig { .. } => EventKind::NewMultisig,
        Event::MultisigApproval { .. } => EventKind::MultisigApproval,
        Event::MultisigExecuted { .. } => EventKind::MultisigExecuted,
        Event::MultisigCancelled { .. } => EventKind::MultisigCancelled,
    }
}

/// The hash of the call that an event is about.
pub open spec fn call_hash_of(e: Event) -> CallHash {
    match e {
        Event::NewMultisig { call_hash, .. } => call_hash,
        Event::MultisigApproval { call_hash, .. } => call_hash,
        Event::MultisigExecuted { call_hash, .. } => call_hash,
        Event::MultisigCancelled { call_hash, .. } => call_hash,
    }
}

/// The shared account that an event is about.
pub open spec fn multisig_of(e: Event) -> AccountId {
    match e {
        Event::NewMultisig { multisig, .. } => multisig,
        Event::MultisigApproval { multisig, .. } => multisig,
        Event::MultisigExecuted { multisig, .. } => multisig,
        Event::MultisigCancelled { multisig, .. } => multisig,
    }
}

/// The index of a kind of event within the multisig pallet.
pub open spec fn variant_of(kind: EventKind) -> u8 {
    match kind {
        EventKind::NewMultisig => NEW_MULTISIG_EVENT,
        EventKind::MultisigApproval => MULTISIG_APPROVAL_EVENT,
        EventKind::MultisigExecuted => MULTISIG_EXECUTED_EVENT,
        EventKind::MultisigCancelled => MULTISIG_CANCELLED_EVENT,
    }
}

/// The kind that a pair of pallet index and event index names, if any.
pub open spec fn kind_named(pallet_index: u8, variant_index: u8) -> Option<EventKind> {
    if pallet_index != MULTISIG_PALLET {
        None
    } else if variant_index == NEW_MULTISIG_EVENT {
        Some(EventKind::NewMultisig)
    } else if variant_index == MULTISIG_APPROVAL_EVENT {
        Some(EventKind::MultisigApproval)
    } else if variant_index == MULTISIG_EXECUTED_EVENT {
        Some(EventKind::MultisigExecuted)
    } else if variant_index == MULTISIG_CANCELLED_EVENT {
        Some(EventKind::MultisigCancelled)
    } else {
        None
    }
}

/// The fixed-width fields of an event, in the order the ledger writes them.
pub open spec fn event_head(e: Event) -> Seq<u8> {
    match e {
        Event::NewMultisig { approving, multisig, call_hash } => approving@ + multisig@
            + call_hash@,
        Event::MultisigApproval { approving, timepoint, multisig, call_hash } => approving@
            + encoded_timepoint(timepoint) + multisig@ + call_hash@,
        Event::MultisigExecuted { approving, timepoint, multisig, call_hash, result } => approving@
            + encoded_timepoint(timepoint) + multisig@ + call_hash@,
        Event::MultisigCancelled { cancelling, timepoint, multisig, call_hash } => cancelling@
            + encoded_timepoint(timepoint) + multisig@ + call_hash@,
    }
}

/// The outcome that the bytes after the fixed-width fields tell: a single
/// zero for success, or a one and then the error.
pub open spec fn outcome_of(tail: Seq<u8>) -> Option<DispatchOutcome> {
    if tail.len() == 1 && tail[0] == 0 {
        Some(DispatchOutcome::Success)
    } else if tail.len() >= 2 && tail[0] == 1 {
        Some(DispatchOutcome::Failure(classified(tail.skip(1))))
    } else {
        None
    }
}

/// An outcome as this library writes it.
pub open spec fn encoded_outcome(o: DispatchOutcome) -> Seq<u8> {
    match o {
        DispatchOutcome::Success => seq![0u8],
        DispatchOutcome::Failure(e) => seq![1u8] + encoded_error(e),
    }
}

/// The event as this library writes it: the indices of its kind, its
/// fixed-width fields and, for an executed call, the outcome.
pub open spec fn encoded_event(e: Event) -> RawEventView {
    RawEventView {
        pallet_index: MULTISIG_PALLET,
        variant_index: variant_of(kind_of(e)),
        bytes: match e {
            Event::MultisigExecuted { result, .. } => event_head(e) + encoded_outcome(result),
            _ => event_head(e),
        },
    }
}

/// Whether `raw` is the event `e`: the indices name its kind, the bytes are
/// its fields, and, for an executed call, what follows tells its outcome.
pub open spec fn event_fits(e: Event, raw: RawEventView) -> bool {
    &&& raw.pallet_index == MULTISIG_PALLET
    &&& raw.variant_index == variant_of(kind_of(e))
    &&& match e {
        Event::MultisigExecuted { result, .. } => {
            &&& raw.bytes.len() >= 104
            &&& raw.bytes.subrange(0, 104) == event_head(e)
            &&& outcome_of(raw.bytes.skip(104)) == Some(result)
        },
        _ => raw.bytes == event_head(e),
    }
}

/// The event that `raw` is, if it is one of the multisig pallet's.
pub open spec fn decoded(raw: RawEventView) -> Option<Event> {
    if exists|e: Event| event_fits(e, raw) {
        Some(choose|e: Event| event_fits(e, raw))
    } else {
        None
    }
}

/// The length of the fixed-width fields.
pub proof fn lemma_event_head_len(e: Event)
    ensures
        event_head(e).len() == if e is NewMultisig {
            96int
        } else {
            104int
        },
{
    match e {
        Event::NewMultisig { .. } => {},
        Event::MultisigApproval { timepoint, .. } => {
            lemma_le_bytes_len(timepoint.height as nat, 4);
            lemma_le_bytes_len(timepoint.index as nat, 4);
        },
        Event::MultisigExecuted { timepoint, .. } => {
            lemma_le_bytes_len(timepoint.height as nat, 4);
            lemma_le_bytes_len(timepoint.index as nat, 4);
        },
        Event::MultisigCancelled { timepoint, .. } => {
            lemma_le_bytes_len(timepoint.height as nat, 4);
            lemma_le_bytes_len(timepoint.index as nat, 4);
        },
    }
}

/// The four fields read from the fixed-width part of an event with a timepoint.
proof fn lemma_head_fields(
    who: AccountId,
    timepoint: Timepoint,
    multisig: AccountId,
    call_hash: CallHash,
    head: Seq<u8>,
)
    requires
        head == who@ + encoded_timepoint(timepoint) + multisig@ + call_hash@,
    ensures
        head.len() == 104,
        head.subrange(0, 32) == who@,
        head.subrange(32, 40) == encoded_timepoint(timepoint),
        head.subrange(40, 72) == multisig@,
        head.subrange(72, 104) == call_hash@,
{
    lemma_le_bytes_len(timepoint.height as nat, 4);
    lemma_le_bytes_len(timepoint.index as nat, 4);
    assert(head.subrange(0, 32) =~= who@);
    assert(head.subrange(32, 40) =~= encoded_timepoint(timepoint));
    assert(head.subrange(40, 72) =~= multisig@);
    assert(head.subrange(72, 104) =~= call_hash@);
}

/// Events with the same fixed-width fields and kind agree in those fields.
proof fn lemma_same_head(
    a_who: AccountId,
    a_timepoint: Timepoint,
    a_multisig: AccountId,
    a_hash: CallHash,
    b_who: AccountId,
    b_timepoint: Timepoint,
    b_multisig: AccountId,
    b_hash: CallHash,
)
    requires
        a_who@ + encoded_timepoint(a_timepoint) + a_multisig@ + a_hash@ == b_who@
            + encoded_timepoint(b_timepoint) + b_multisig@ + b_hash@,
    ensures
        a_who == b_who,
        a_timepoint == b_timepoint,
        a_multisig == b_multisig,
        a_hash == b_hash,
{
    let head = a_who@ + encoded_timepoint(a_timepoint) + a_multisig@ + a_hash@;
    lemma_head_fields(a_who, a_timepoint, a_multisig, a_hash, head);
    lemma_head_fields(b_who, b_timepoint, b_multisig, b_hash, head);
    lemma_account_ext(a_who, b_who);
    lemma_account_ext(a_multisig, b_multisig);
    lemma_call_hash_ext(a_hash, b_hash);
    lemma_encoded_timepoint_injective(a_timepoint, b_timepoint);
}

/// A raw event is at most one event.
pub proof fn lemma_event_fits_unique(a: Event, b: Event, raw: RawEventView)
    requires
        event_fits(a, raw),
        event_fits(b, raw),
    ensures
        a == b,
{
    match (a, b) {
        (
            Event::NewMultisig { approving: a1, multisig: a2, call_hash: a3 },
            Event::NewMultisig { approving: b1, multisig: b2, call_hash: b3 },
        ) => {
            let head = raw.bytes;
            assert(head.subrange(0, 32) =~= a1@);
            assert(head.subrange(0, 32) =~= b1@);
            assert(head.subrange(32, 64) =~= a2@);
            assert(head.subrange(32, 64) =~= b2@);
            assert(head.subrange(64, 96) =~= a3@);
            assert(head.subrange(64, 96) =~= b3@);
            lemma_account_ext(a1, b1);
            lemma_account_ext(a2, b2);
            lemma_call_hash_ext(a3, b3);
        },
        (
            Event::MultisigApproval { approving: a1, timepoint: at, multisig: a2, call_hash: a3 },
            Event::MultisigApproval { approving: b1, timepoint: bt, multisig: b2, call_hash: b3 },
        ) => {
            lemma_same_head(a1, at, a2, a3, b1, bt, b2, b3);
        },
        (
            Event::MultisigExecuted {
                approving: a1,
                timepoint: at,
                multisig: a2,
                call_hash: a3,
                result: ar,
            },
            Event::MultisigExecuted {
                approving: b1,
                timepoint: bt,
                multisig: b2,
                call_hash: b3,
                result: br,
            },
        ) => {
            lemma_same_head(a1, at, a2, a3, b1, bt, b2, b3);
        },
        (
            Event::MultisigCancelled { cancelling: a1, timepoint: at, multisig: a2, call_hash: a3 },
            Event::MultisigCancelled { cancelling: b1, timepoint: bt, multisig: b2, call_hash: b3 },
        ) => {
            lemma_same_head(a1, at, a2, a3, b1, bt, b2, b3);
        },
        _ => {},
    }
}

/// If `raw` is the event `e`, then `e` is what it decodes to.
pub proof fn lemma_decoded_is(e: Event, raw: RawEventView)
    requires
        event_fits(e, raw),
    ensures
        decoded(raw) == Some(e),
{
    let c = choose|c: Event| event_fits(c, raw);
    lemma_event_fits_unique(c, e, raw);
}

impl EventKind {
    /// The kind that a pair of pallet index and event index names, if any.
    pub fn named(pallet_index: u8, variant_index: u8) -> (kind: Option<EventKind>)
        ensures
            kind == kind_named(pallet_index, variant_index),
    {
        if pallet_index != MULTISIG_PALLET {
            None
        } else if variant_index == NEW_MULTISIG_EVENT {
            Some(EventKind::NewMultisig)
        } else if variant_index == MULTISIG_APPROVAL_EVENT {
            Some(EventKind::MultisigApproval)
        } else if variant_index == MULTISIG_EXECUTED_EVENT {
            Some(EventKind::MultisigExecuted)
        } else if variant_index == MULTISIG_CANCELLED_EVENT {
            Some(EventKind::MultisigCancelled)
        } else {
            None
        }
    }

    /// The index of the kind within the multisig pallet.
    pub fn variant(&self) -> (index: u8)
        ensures
            index == variant_of(*self),
            kind_named(MULTISIG_PALLET, index) == Some(*self),
    {
        match self {
            EventKind::NewMultisig => NEW_MULTISIG_EVENT,
            EventKind::MultisigApproval => MULTISIG_APPROVAL_EVENT,
            EventKind::MultisigExecuted => MULTISIG_EXECUTED_EVENT,
            EventKind::MultisigCancelled => MULTISIG_CANCELLED_EVENT,
        }
    }
}

impl DispatchOutcome {
    /// The outcome that the bytes of `input` from `pos` on tell, if any.
    pub fn read(input: &[u8], pos: usize) -> (r: Option<DispatchOutcome>)
        requires
            pos <= input@.len(),
        ensures
            r == outcome_of(input@.skip(pos as int)),
    {
        let left = input.len() - pos;
        if left == 1 && input[pos] == 0 {
            Some(DispatchOutcome::Success)
        } else if left >= 2 && input[pos] == 1 {
            assert(input@.skip(pos as int).skip(1) =~= input@.skip(pos + 1));
            Some(DispatchOutcome::Failure(DispatchError::classify(input, pos + 1)))
        } else {
            None
        }
    }

    /// Appends the outcome in written form.
    pub fn put(&self, out: &mut Vec<u8>)
        ensures
            final(out)@ == old(out)@ + encoded_outcome(*self),
    {
        match self {
            DispatchOutcome::Success => {
                out.push(0u8);
                assert(out@ =~= old(out)@ + encoded_outcome(*self));
            },
            DispatchOutcome::Failure(e) => {
                out.push(1u8);
                e.put(out);
                assert(out@ =~= old(out)@ + encoded_outcome(*self));
            },
        }
    }
}

/// Every outcome reads back from its written form.
pub proof fn lemma_outcome_of_encoded(o: DispatchOutcome)
    ensures
        outcome_of(encoded_outcome(o)) == Some(o),
{
    match o {
        DispatchOutcome::Success => {},
        DispatchOutcome::Failure(e) => {
            lemma_classified_encoded(e);
            assert(encoded_outcome(o).skip(1) =~= encoded_error(e));
        },
    }
}

impl Event {
    /// The kind of the event.
    pub fn kind(&self) -> (kind: EventKind)
        ensures
            kind == kind_of(*self),
    {
        match self {
            Event::NewMultisig { .. } => EventKind::NewMultisig,
            Event::MultisigApproval { .. } => EventKind::MultisigApproval,
            Event::MultisigExecuted { .. } => EventKind::MultisigExecuted,
            Event::MultisigCancelled { .. } => EventKind::MultisigCancelled,
        }
    }

    /// The hash of the call that the event is about.
    pub fn call_hash(&self) -> (h: CallHash)
        ensures
            h == call_hash_of(*self),
    {
        match self {
            Event::NewMultisig { call_hash, .. } => *call_hash,
            Event::MultisigApproval { call_hash, .. } => *call_hash,
            Event::MultisigExecuted { call_hash, .. } => *call_hash,
            Event::MultisigCancelled { call_hash, .. } => *call_hash,
        }
    }

    /// The shared account that the event is about.
    pub fn multisig(&self) -> (id: AccountId)
        ensures
            id == multisig_of(*self),
    {
        match self {
            Event::NewMultisig { multisig, .. } => *multisig,
            Event::MultisigApproval { multisig, .. } => *multisig,
            Event::MultisigExecuted { multisig, .. } => *multisig,
            Event::MultisigCancelled { multisig, .. } => *multisig,
        }
    }

    /// The event as the stream hands it out.
    pub fn encode(&self) -> (raw: RawEvent)
        ensures
            raw@ == encoded_event(*self),
            event_fits(*self, raw@),
            decoded(raw@) == Some(*self),
    {
        let mut bytes: Vec<u8> = Vec::new();
        match self {
            Event::NewMultisig { approving, multisig, call_hash } => {
                bytes.extend_from_slice(approving.bytes.as_slice());
                bytes.extend_from_slice(multisig.bytes.as_slice());
                bytes.extend_from_slice(call_hash.bytes.as_slice());
                assert(bytes@ =~= event_head(*self));
            },
            Event::MultisigApproval { approving, timepoint, multisig, call_hash } => {
                bytes.extend_from_slice(approving.bytes.as_slice());
                timepoint.put(&mut bytes);
                bytes.extend_from_slice(multisig.bytes.as_slice());
                bytes.extend_from_slice(call_hash.bytes.as_slice());
                assert(bytes@ =~= event_head(*self));
            },
            Event::MultisigExecuted { approving, timepoint, multisig, call_hash, result } => {
                bytes.extend_from_slice(approving.bytes.as_slice());
                timepoint.put(&mut bytes);
                bytes.extend_from_slice(multisig.bytes.as_slice());
                bytes.extend_from_slice(call_hash.bytes.as_slice());
                assert(bytes@ =~= event_head(*self));
                result.put(&mut bytes);
                proof {
                    lemma_event_head_len(*self);
                    lemma_outcome_of_encoded(*result);
                    assert(bytes@.subrange(0, 104) =~= event_head(*self));
                    assert(bytes@.skip(104) =~= encoded_outcome(*result));
                }
            },
            Event::MultisigCancelled { cancelling, timepoint, multisig, call_hash } => {
                bytes.extend_from_slice(cancelling.bytes.as_slice());
                timepoint.put(&mut bytes);
                bytes.extend_from_slice(multisig.bytes.as_slice());
                bytes.extend_from_slice(call_hash.bytes.as_slice());
                assert(bytes@ =~= event_head(*self));
            },
        }
        let raw = RawEvent {
            pallet_index: MULTISIG_PALLET,
            variant_index: self.kind().variant(),
            bytes,
        };
        proof {
            lemma_decoded_is(*self, raw@);
        }
        raw
    }

    /// The event that `raw` is; `None` when it is none of the multisig pallet's.
    pub fn decode(raw: &RawEvent) -> (r: Option<Event>)
        ensures
            r == decoded(raw@),
    {
        let bytes = raw.bytes.as_slice();
        let total = bytes.len();
        let kind = match EventKind::named(raw.pallet_index, raw.variant_index) {
            Some(kind) => kind,
            None => {
                assert forall|e: Event| !event_fits(e, raw@) by {}
                return None;
            },
        };
        match kind {
            EventKind::NewMultisig => {
                if total != 96 {
                    assert forall|e: Event| !event_fits(e, raw@) by {
                        lemma_event_head_len(e);
                    }
                    return None;
                }
                let e = Event::NewMultisig {
                    approving: AccountId::read(bytes, 0),
                    multisig: AccountId::read(bytes, 32),
                    call_hash: CallHash::read(bytes, 64),
                };
                proof {
                    assert(bytes@ =~= event_head(e));
                    lemma_decoded_is(e, raw@);
                }
                Some(e)
            },
            EventKind::MultisigExecuted => {
                if total < 104 {
                    assert forall|e: Event| !event_fits(e, raw@) by {
                        lemma_event_head_len(e);
                    }
                    return None;
                }
                let approving = AccountId::read(bytes, 0);
                let timepoint = Timepoint::read(bytes, 32);
                let multisig = AccountId::read(bytes, 40);
                let call_hash = CallHash::read(bytes, 72);
                match DispatchOutcome::read(bytes, 104) {
                    Some(result) => {
                        let e = Event::MultisigExecuted {
                            approving,
                            timepoint,
                            multisig,
                            call_hash,
                            result,
                        };
                        proof {
                            assert(bytes@.subrange(0, 104) =~= event_head(e));
                            lemma_decoded_is(e, raw@);
                        }
                        Some(e)
                    },
                    None => {
                        assert forall|e: Event| !event_fits(e, raw@) by {}
                        None
                    },
                }
            },
            EventKind::MultisigApproval => {
                if total != 104 {
                    assert forall|e: Event| !event_fits(e, raw@) by {
                        lemma_event_head_len(e);
                    }
                    return None;
                }
                let e = Event::MultisigApproval {
                    approving: AccountId::read(bytes, 0),
                    timepoint: Timepoint::read(bytes, 32),
                    multisig: AccountId::read(bytes, 40),
                    call_hash: CallHash::read(bytes, 72),
                };
                proof {
                    assert(bytes@ =~= event_head(e));
                    lemma_decoded_is(e, raw@);
                }
                Some(e)
            },
            EventKind::MultisigCancelled => {
                if total != 104 {
                    assert forall|e: Event| !event_fits(e, raw@) by {
                        lemma_event_head_len(e);
                    }
                    return None;
                }
                let e = Event::MultisigCancelled {
                    cancelling: AccountId::read(bytes, 0),
                    timepoint: Timepoint::read(bytes, 32),
                    multisig: AccountId::read(bytes, 40),
                    call_hash: CallHash::read(bytes, 72),
                };
                proof {
                    assert(bytes@ =~= event_head(e));
                    lemma_decoded_is(e, raw@);
                }
                Some(e)
            },
        }
    }
}

} // verus!
