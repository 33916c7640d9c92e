//! The life of one operation as its events tell it: not yet opened,
//! pending with the approvals seen so far, dispatched, or cancelled.

use vstd::prelude::*;
use crate::account::AccountId;
use crate::call::CallHash;
use crate::events::{call_hash_of, multisig_of, DispatchOutcome, Event};
use crate::multisig::Timepoint;

verus! {

/// Where an operation stands.
#[derive(Clone, Debug, PartialEq, Eq)]
pub enum Phase {
    /// No event has opened the operation, or none has been seen.
    Uninitiated,
    /// The operation awaits approvals. `timepoint` is known once an event
    /// has named it; `approvals` are the approvers seen, in order.
    Pending { timepoint: Option<Timepoint>, approvals: Vec<AccountId> },
    /// The wrapped call was dispatched and ended as `result` tells.
    Executed { result: DispatchOutcome },
    /// The operation was withdrawn.
    Cancelled,
}

/// A phase, apart from how its value is held in memory.
pub enum PhaseView {
    Uninitiated,
    Pending { timepoint: Option<Timepoint>, approvals: Seq<AccountId> },
    Executed { result: DispatchOutcome },
    Cancelled,
}

impl View for Phase {
    type V = PhaseView;

    open spec fn view(&self) -> PhaseView {
        match self {
            Phase::Uninitiated => PhaseView::Uninitiated,
            Phase::Pending { timepoint, approvals } => PhaseView::Pending {
                timepoint: *timepoint,
                approvals: approvals@,
            },
            Phase::Executed { result } => PhaseView::Executed { result: *result },
            Phase::Cancelled => PhaseView::Cancelled,
        }
    }
}

/// The phase after an event. An event about another account or another
/// call changes nothing. A new operation begins with its opener's
/// approval, whatever came before; an approval adds its approver and names
/// the timepoint; a dispatch and a cancellation end the operation.
pub open spec fn observed(phase: PhaseView, account: AccountId, call_hash: CallHash, e: Event)
    -> PhaseView {
    if multisig_of(e) != account || call_hash_of(e) != call_hash {
        phase
    } else {
        match e {
            Event::NewMultisig { approving, .. } => PhaseView::Pending {
                timepoint: None,
                approvals: seq![approving],
            },
            Event::MultisigApproval { approving, timepoint, .. } => match phase {
                PhaseView::Pending { approvals, .. } => PhaseView::Pending {
                    timepoint: Some(timepoint),
                    approvals: approvals.push(approving),
                },
                _ => PhaseView::Pending { timepoint: Some(timepoint), approvals: seq![approving] },
            },
            Event::MultisigExecuted { result, .. } => PhaseView::Executed { result },
            Event::MultisigCancelled { .. } => PhaseView::Cancelled,
        }
    }
}

/// The phase that a sequence of events, oldest first, leaves an operation in.
pub open spec fn phase_after(events: Seq<Event>, account: AccountId, call_hash: CallHash) -> PhaseView
    decreases events.len(),
{
    if events.len() == 0 {
        PhaseView::Uninitiated
    } else {
        observed(phase_after(events.drop_last(), account, call_hash), account, call_hash, events.last())
    }
}

impl Phase {
    /// The phase after `event`, for the operation of `account` on the call
    /// with hash `call_hash`.
    pub fn observe(self, account: &AccountId, call_hash: &CallHash, event: &Event) -> (next: Phase)
        ensures
            next@ == observed(self@, *account, *call_hash, *event),
    {
        if !event.multisig().same(account) || !event.call_hash().same(call_hash) {
            return self;
        }
        match event {
            Event::NewMultisig { approving, .. } => {
                let mut approvals: Vec<AccountId> = Vec::new();
                approvals.push(*approving);
                assert(approvals@ =~= seq![*approving]);
                Phase::Pending { timepoint: None, approvals }
            },
            Event::MultisigApproval { approving, timepoint, .. } => match self {
                Phase::Pending { timepoint: _, approvals } => {
                    let mut approvals = approvals;
                    approvals.push(*approving);
                    Phase::Pending { timepoint: Some(*timepoint), approvals }
                },
                _ => {
                    let mut approvals: Vec<AccountId> = Vec::new();
                    approvals.push(*approving);
                    assert(approvals@ =~= seq![*approving]);
                    Phase::Pending { timepoint: Some(*timepoint), approvals }
                },
            },
            Event::MultisigExecuted { result, .. } => Phase::Executed { result: *result },
            Event::MultisigCancelled { .. } => Phase::Cancelled,
        }
    }

    /// The phase that `events`, oldest first, leave the operation in.
    pub fn track(events: &Vec<Event>, account: &AccountId, call_hash: &CallHash) -> (phase: Phase)
        ensures
            phase@ == phase_after(events@, *account, *call_hash),
    {
        let mut phase = Phase::Uninitiated;
        let mut i: usize = 0;
        assert(events@.subrange(0, 0) =~= Seq::<Event>::empty());
        while i < events.len()
            invariant
                i <= events.len(),
                phase@ == phase_after(events@.subrange(0, i as int), *account, *call_hash),
            decreases events.len() - i,
        {
            proof {
                let next = events@.subrange(0, i + 1);
                assert(next.drop_last() =~= events@.subrange(0, i as int));
                assert(next.last() == events@[i as int]);
            }
            phase = phase.observe(account, call_hash, &events[i]);
            i = i + 1;
        }
        assert(events@.subrange(0, i as int) =~= events@);
        phase
    }
}

} // verus!
