//! The coordinator: what a signer does to open an operation, to approve
//! one, and to learn its timepoint. It checks the participant set before
//! anything is sent, says exactly which call is to be submitted, and turns
//! what the ledger answers into this library's errors. Nothing is retried.

use vstd::prelude::*;
use crate::account::{contains, AccountId};
use crate::call::{call_hash_from, CallHash, WrappedCall};
use crate::error::{DispatchError, Error, InvalidReason};
use crate::events::Event;
use crate::hashing::blake2_256_digest;
use crate::layout::MAX_SIGNATORIES;
use crate::ledger::{shared_account, submitted, timepoint_at, Ledger, LedgerView};
use crate::multisig::{
    decoded_record, lemma_encoded_record_injective, MultisigCall, MultisigCallView,
    PendingOperation, Timepoint,
};

verus! {

/// What is wrong with a participant set, if anything: the signer listed
/// among the others, then too many participants, then a threshold outside
/// one to the number of participants, in this order.
pub open spec fn participant_fault(signer: AccountId, others: Seq<AccountId>, threshold: u16)
    -> Option<InvalidReason> {
    if others.contains(signer) {
        Some(InvalidReason::SignerAmongOthers)
    } else if others.len() + 1 > MAX_SIGNATORIES {
        Some(InvalidReason::TooManySignatories)
    } else if threshold < 1 || threshold > others.len() + 1 {
        Some(InvalidReason::ThresholdOutOfRange)
    } else {
        None
    }
}

/// Checks a participant set; nothing is sent anywhere.
pub fn validate(signer: &AccountId, other_signatories: &Vec<AccountId>, threshold: u16) -> (r:
    Result<(), Error>)
    ensures
        r == match participant_fault(*signer, other_signatories@, threshold) {
            Some(reason) => Err::<(), Error>(Error::InvalidParticipantSet(reason)),
            None => Ok(()),
        },
{
    if contains(other_signatories, signer) {
        Err(Error::InvalidParticipantSet(InvalidReason::SignerAmongOthers))
    } else if other_signatories.len() >= MAX_SIGNATORIES {
        Err(Error::InvalidParticipantSet(InvalidReason::TooManySignatories))
    } else if threshold < 1 || threshold as usize > other_signatories.len() + 1 {
        Err(Error::InvalidParticipantSet(InvalidReason::ThresholdOutOfRange))
    } else {
        Ok(())
    }
}

/// How a submission ended.
#[derive(Clone, Copy, Debug, PartialEq, Eq, Structural)]
pub enum SubmissionOutcome {
    /// The call is in a final block and the ledger accepted it.
    Finalized,
    /// The transaction did not reach a block.
    NotIncluded,
    /// The call is in a final block and the ledger rejected it.
    Rejected(DispatchError),
}

/// What the caller is told of a submission: a rejection because no such
/// operation exists becomes `OperationNotFound`, every other rejection
/// `DispatchFailed` with its reason.
pub open spec fn settled(outcome: SubmissionOutcome) -> Result<(), Error> {
    match outcome {
        SubmissionOutcome::Finalized => Ok(()),
        SubmissionOutcome::NotIncluded => Err(Error::SubmissionFailed),
        SubmissionOutcome::Rejected(DispatchError::NotFound) => Err(Error::OperationNotFound),
        SubmissionOutcome::Rejected(DispatchError::UnexpectedTimepoint) => Err(
            Error::OperationNotFound,
        ),
        SubmissionOutcome::Rejected(e) => Err(Error::DispatchFailed(e)),
    }
}

/// What the ledger's answer to a submission comes to.
pub open spec fn answered(answer: Result<Event, DispatchError>) -> SubmissionOutcome {
    match answer {
        Ok(_) => SubmissionOutcome::Finalized,
        Err(e) => SubmissionOutcome::Rejected(e),
    }
}

/// Turns the end of a submission into what the caller is told.
pub fn settle(outcome: SubmissionOutcome) -> (r: Result<(), Error>)
    ensures
        r == settled(outcome),
{
    match outcome {
        SubmissionOutcome::Finalized => Ok(()),
        SubmissionOutcome::NotIncluded => Err(Error::SubmissionFailed),
        SubmissionOutcome::Rejected(DispatchError::NotFound) => Err(Error::OperationNotFound),
        SubmissionOutcome::Rejected(DispatchError::UnexpectedTimepoint) => Err(
            Error::OperationNotFound,
        ),
        SubmissionOutcome::Rejected(e) => Err(Error::DispatchFailed(e)),
    }
}

/// The call that opens an operation: the first approval, with the wrapped
/// call and no timepoint. `InvalidParticipantSet` when the set is not
/// acceptable.
pub fn plan_initiate(
    signer: &AccountId,
    other_signatories: Vec<AccountId>,
    threshold: u16,
    wrapped_call: WrappedCall,
    max_weight: u64,
) -> (r: Result<MultisigCall, Error>)
    ensures
        match participant_fault(*signer, other_signatories@, threshold) {
            Some(reason) => r == Err::<MultisigCall, Error>(Error::InvalidParticipantSet(reason)),
            None => r is Ok && r->Ok_0@ == (MultisigCallView::Initiate {
                threshold,
                other_signatories: other_signatories@,
                call: wrapped_call@,
                max_weight,
            }),
        },
{
    match validate(signer, &other_signatories, threshold) {
        Err(e) => Err(e),
        Ok(()) => Ok(
            MultisigCall::Initiate { threshold, other_signatories, call: wrapped_call, max_weight },
        ),
    }
}

/// The call that approves the operation created at `timepoint` for the call
/// with this hash. `InvalidParticipantSet` when the set is not acceptable.
pub fn plan_approve(
    signer: &AccountId,
    other_signatories: Vec<AccountId>,
    threshold: u16,
    timepoint: Timepoint,
    call_hash: CallHash,
    max_weight: u64,
) -> (r: Result<MultisigCall, Error>)
    ensures
        match participant_fault(*signer, other_signatories@, threshold) {
            Some(reason) => r == Err::<MultisigCall, Error>(Error::InvalidParticipantSet(reason)),
            None => r is Ok && r->Ok_0@ == (MultisigCallView::Approve {
                threshold,
                other_signatories: other_signatories@,
                timepoint,
                call_hash,
                max_weight,
            }),
        },
{
    match validate(signer, &other_signatories, threshold) {
        Err(e) => Err(e),
        Ok(()) => Ok(
            MultisigCall::Approve { threshold, other_signatories, timepoint, call_hash, max_weight },
        ),
    }
}

/// The ledger after a coordinator's call, and what the caller is told: an
/// unacceptable set leaves the ledger as it was; else the call is
/// submitted once and the ledger's answer is settled.
pub open spec fn coordinated(
    pre: LedgerView,
    signer: AccountId,
    others: Seq<AccountId>,
    threshold: u16,
    call: MultisigCallView,
) -> (LedgerView, Result<(), Error>) {
    match participant_fault(signer, others, threshold) {
        Some(reason) => (pre, Err(Error::InvalidParticipantSet(reason))),
        None => {
            let (post, answer) = submitted(pre, signer, call);
            (post, settled(answered(answer)))
        },
    }
}

fn submit_and_settle(ledger: &mut Ledger, signer: &AccountId, call: &MultisigCall) -> (r: Result<
    (),
    Error,
>)
    requires
        old(ledger).wf(),
        old(ledger)@.height < u32::MAX,
    ensures
        final(ledger).wf(),
        final(ledger)@ == submitted(old(ledger)@, *signer, call@).0,
        r == settled(answered(submitted(old(ledger)@, *signer, call@).1)),
{
    match ledger.submit(signer, call) {
        Ok(_) => settle(SubmissionOutcome::Finalized),
        Err(e) => settle(SubmissionOutcome::Rejected(e)),
    }
}

/// Opens an operation on the ledger: submits the first approval, with the
/// wrapped call and no timepoint, and returns when the block is final.
pub fn initiate(
    ledger: &mut Ledger,
    signer: &AccountId,
    other_signatories: Vec<AccountId>,
    threshold: u16,
    wrapped_call: WrappedCall,
    max_weight: u64,
) -> (r: Result<(), Error>)
    requires
        old(ledger).wf(),
        old(ledger)@.height < u32::MAX,
    ensures
        final(ledger).wf(),
        (final(ledger)@, r) == coordinated(
            old(ledger)@,
            *signer,
            other_signatories@,
            threshold,
            MultisigCallView::Initiate {
                threshold,
                other_signatories: other_signatories@,
                call: wrapped_call@,
                max_weight,
            },
        ),
{
    match plan_initiate(signer, other_signatories, threshold, wrapped_call, max_weight) {
        Err(e) => Err(e),
        Ok(call) => submit_and_settle(ledger, signer, &call),
    }
}

/// Approves a pending operation on the ledger, and returns when the block
/// is final. Where this approval reaches the threshold, the ledger
/// dispatches the wrapped call in the same block.
pub fn approve(
    ledger: &mut Ledger,
    signer: &AccountId,
    other_signatories: Vec<AccountId>,
    threshold: u16,
    timepoint: Timepoint,
    call_hash: CallHash,
    max_weight: u64,
) -> (r: Result<(), Error>)
    requires
        old(ledger).wf(),
        old(ledger)@.height < u32::MAX,
    ensures
        final(ledger).wf(),
        (final(ledger)@, r) == coordinated(
            old(ledger)@,
            *signer,
            other_signatories@,
            threshold,
            MultisigCallView::Approve {
                threshold,
                other_signatories: other_signatories@,
                timepoint,
                call_hash,
                max_weight,
            },
        ),
{
    match plan_approve(signer, other_signatories, threshold, timepoint, call_hash, max_weight) {
        Err(e) => Err(e),
        Ok(call) => submit_and_settle(ledger, signer, &call),
    }
}

/// The timepoint that stored bytes hold: that of the record they store.
pub open spec fn timepoint_in(stored: Option<Seq<u8>>) -> Option<Timepoint> {
    match stored {
        None => None,
        Some(bytes) => match decoded_record(bytes) {
            Some(record) => Some(record.when),
            None => None,
        },
    }
}

/// Reads the timepoint from what storage holds for an operation; `None`
/// when storage holds nothing or no record.
pub fn read_timepoint(stored: &Option<Vec<u8>>) -> (r: Option<Timepoint>)
    ensures
        r == timepoint_in(
            match stored {
                Some(bytes) => Some(bytes@),
                None => None,
            },
        ),
{
    match stored {
        None => None,
        Some(bytes) => match PendingOperation::decode(bytes.as_slice()) {
            Some(record) => Some(record.when),
            None => None,
        },
    }
}

/// The timepoint that an approval needs: `OperationNotFound` where the
/// lookup found none.
pub fn require_timepoint(found: Option<Timepoint>) -> (r: Result<Timepoint, Error>)
    ensures
        r == match found {
            Some(timepoint) => Ok::<Timepoint, Error>(timepoint),
            None => Err(Error::OperationNotFound),
        },
{
    match found {
        Some(timepoint) => Ok(timepoint),
        None => Err(Error::OperationNotFound),
    }
}

/// The timepoint of the pending operation for the account and the hash;
/// `None` when no such operation is pending.
pub fn get_timepoint(ledger: &Ledger, multisig_account: &AccountId, call_hash: &CallHash) -> (r:
    Option<Timepoint>)
    requires
        ledger.wf(),
    ensures
        r == timepoint_at(ledger@, *multisig_account, *call_hash),
{
    let stored = ledger.query_storage(multisig_account, call_hash);
    let r = read_timepoint(&stored);
    let size: usize = match &stored {
        Some(bytes) => bytes.len(),
        None => 0,
    };
    proof {
        if stored is Some {
            let bytes = stored->Some_0@;
            let record = ledger@.operations[(*multisig_account, *call_hash)].record;
            let found = decoded_record(bytes)->Some_0;
            lemma_encoded_record_injective(found, record);
        }
    }
    r
}

} // verus!
