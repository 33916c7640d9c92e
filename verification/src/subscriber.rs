//! Views over the finalized-event stream: all events of one kind, in
//! order, and the wait for the one event that a caller names.

use vstd::prelude::*;
use crate::call::CallHash;
use crate::error::Error;
use crate::events::{call_hash_of, decoded, kind_of, Event, EventKind, RawEvent, RawEventView};

verus! {

/// What a waiter waits for: an event of one kind and, where a hash is
/// given, about the call with that hash.
#[derive(Clone, Copy, Debug, PartialEq, Eq)]
pub struct Wanted {
    pub kind: EventKind,
    pub call_hash: Option<CallHash>,
}

/// Whether the event is one that is waited for.
pub open spec fn satisfies(wanted: Wanted, e: Event) -> bool {
    &&& kind_of(e) == wanted.kind
    &&& match wanted.call_hash {
        Some(h) => call_hash_of(e) == h,
        None => true,
    }
}

/// Whether the raw event is an event that is waited for.
pub open spec fn admitted(wanted: Wanted, raw: RawEventView) -> bool {
    match decoded(raw) {
        Some(e) => satisfies(wanted, e),
        None => false,
    }
}

impl Wanted {
    /// Any event of the kind.
    pub fn any(kind: EventKind) -> (wanted: Wanted)
        ensures
            wanted == (Wanted { kind, call_hash: None }),
    {
        Wanted { kind, call_hash: None }
    }

    /// The events of the kind that are about the call with this hash.
    pub fn about(kind: EventKind, call_hash: CallHash) -> (wanted: Wanted)
        ensures
            wanted == (Wanted { kind, call_hash: Some(call_hash) }),
    {
        Wanted { kind, call_hash: Some(call_hash) }
    }

    /// Whether the event is one that is waited for.
    pub fn admits(&self, e: &Event) -> (yes: bool)
        ensures
            yes == satisfies(*self, *e),
    {
        if e.kind() != self.kind {
            return false;
        }
        match &self.call_hash {
            Some(h) => e.call_hash().same(h),
            None => true,
        }
    }

    /// The event that `raw` is, if it is one that is waited for.
    pub fn check(&self, raw: &RawEvent) -> (found: Option<Event>)
        ensures
            found == if admitted(*self, raw@) {
                decoded(raw@)
            } else {
                None
            },
    {
        match Event::decode(raw) {
            Some(e) => {
                if self.admits(&e) {
                    Some(e)
                } else {
                    None
                }
            },
            None => None,
        }
    }
}

/// The events of one kind among `raws`, decoded, in the order of the stream.
pub open spec fn filtered(raws: Seq<RawEvent>, kind: EventKind) -> Seq<Event>
    decreases raws.len(),
{
    if raws.len() == 0 {
        Seq::empty()
    } else {
        let before = filtered(raws.drop_last(), kind);
        match decoded(raws.last()@) {
            Some(e) => if kind_of(e) == kind {
                before.push(e)
            } else {
                before
            },
            None => before,
        }
    }
}

/// Decodes the events of one kind and discards the rest, keeping the order.
pub fn filter(events: &Vec<RawEvent>, kind: EventKind) -> (out: Vec<Event>)
    ensures
        out@ == filtered(events@, kind),
{
    let wanted = Wanted::any(kind);
    let mut out: Vec<Event> = Vec::new();
    let mut i: usize = 0;
    assert(events@.subrange(0, 0) =~= Seq::<RawEvent>::empty());
    while i < events.len()
        invariant
            i <= events.len(),
            wanted == (Wanted { kind, call_hash: None }),
            out@ == filtered(events@.subrange(0, i as int), kind),
        decreases events.len() - i,
    {
        proof {
            let next = events@.subrange(0, i + 1);
            assert(next.drop_last() =~= events@.subrange(0, i as int));
            assert(next.last() == events@[i as int]);
        }
        match wanted.check(&events[i]) {
            Some(e) => out.push(e),
            None => {},
        }
        i = i + 1;
    }
    assert(events@.subrange(0, i as int) =~= events@);
    out
}

/// The first event at or after `from` that is waited for, with its position.
pub fn first_match(events: &Vec<RawEvent>, from: usize, wanted: &Wanted) -> (r: Option<
    (usize, Event),
>)
    ensures
        match r {
            Some((at, e)) => {
                &&& from <= at < events@.len()
                &&& decoded(events@[at as int]@) == Some(e)
                &&& satisfies(*wanted, e)
                &&& forall|j: int| from <= j < at ==> !admitted(*wanted, (#[trigger] events@[j])@)
            },
            None => forall|j: int|
                from <= j < events@.len() ==> !admitted(*wanted, (#[trigger] events@[j])@),
        },
{
    let mut i: usize = from;
    while i < events.len()
        invariant
            from <= i,
            forall|j: int| from <= j < i && j < events@.len() ==> !admitted(
                *wanted,
                (#[trigger] events@[j])@,
            ),
        decreases events.len() - i,
    {
        match wanted.check(&events[i]) {
            Some(e) => {
                return Some((i, e));
            },
            None => {},
        }
        i = i + 1;
    }
    None
}

/// What reaches a waiter: the next event of the stream, the end of the
/// stream, or the end of the caller's patience.
#[derive(Clone, Debug, PartialEq, Eq)]
pub enum Arrival {
    Event(RawEvent),
    Closed,
    TimedOut,
}

/// What a waiter does next.
#[derive(Clone, Copy, Debug, PartialEq, Eq)]
pub enum WaitStep {
    /// Keep consuming the stream.
    Continue,
    /// The event waited for has come.
    Found(Event),
    /// The wait is over without the event.
    Failed(Error),
}

/// What follows from an arrival.
pub open spec fn wait_outcome(wanted: Wanted, arrival: Arrival) -> WaitStep {
    match arrival {
        Arrival::Event(raw) => match decoded(raw@) {
            Some(e) => if satisfies(wanted, e) {
                WaitStep::Found(e)
            } else {
                WaitStep::Continue
            },
            None => WaitStep::Continue,
        },
        Arrival::Closed => WaitStep::Failed(Error::SubscriptionClosed),
        Arrival::TimedOut => WaitStep::Failed(Error::Timeout),
    }
}

/// One step of a wait: the event ends it only if it is the one waited for;
/// any other event, of the same kind or not, is passed over.
pub fn wait_step(wanted: &Wanted, arrival: &Arrival) -> (step: WaitStep)
    ensures
        step == wait_outcome(*wanted, *arrival),
{
    match arrival {
        Arrival::Event(raw) => match wanted.check(raw) {
            Some(e) => WaitStep::Found(e),
            None => WaitStep::Continue,
        },
        Arrival::Closed => WaitStep::Failed(Error::SubscriptionClosed),
        Arrival::TimedOut => WaitStep::Failed(Error::Timeout),
    }
}

/// Waits on a stream that has ended after `events`: the first event waited
/// for, or `SubscriptionClosed` when none of them is.
pub fn wait_for(events: &Vec<RawEvent>, wanted: &Wanted) -> (r: Result<Event, Error>)
    ensures
        match r {
            Ok(e) => exists|at: int|
                {
                    &&& 0 <= at < events@.len()
                    &&& decoded((#[trigger] events@[at])@) == Some(e)
                    &&& satisfies(*wanted, e)
                    &&& forall|j: int| 0 <= j < at ==> !admitted(*wanted, (#[trigger] events@[j])@)
                },
            Err(err) => err == Error::SubscriptionClosed && forall|j: int|
                0 <= j < events@.len() ==> !admitted(*wanted, (#[trigger] events@[j])@),
        },
{
    match first_match(events, 0, wanted) {
        Some((at, e)) => Ok(e),
        None => Err(Error::SubscriptionClosed),
    }
}

} // verus!
