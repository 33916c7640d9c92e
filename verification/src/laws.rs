//! What holds of every operation, whatever the state of the ledger and
//! whoever calls: stated over the ledger's rules and proved from them.

use vstd::prelude::*;
use crate::account::AccountId;
use crate::call::{call_hash_from, CallHash};
use crate::coordinator::{answered, coordinated, participant_fault, settled};
use crate::error::{DispatchError, Error};
use crate::events::{call_hash_of, multisig_of, Event};
use crate::hashing::blake2_256_digest;
use crate::ledger::{
    approved, genesis, initiated, next_timepoint, shared_account, submitted, timepoint_at,
    LedgerView,
};
use crate::lifecycle::{observed, phase_after, PhaseView};
use crate::multisig::{MultisigCallView, Timepoint};

verus! {

/// The call with which `initiate` opens an operation.
pub open spec fn opening(threshold: u16, others: Seq<AccountId>, call: Seq<u8>, max_weight: u64)
    -> MultisigCallView {
    MultisigCallView::Initiate { threshold, other_signatories: others, call, max_weight }
}

/// The call with which `approve` approves an operation.
pub open spec fn approval(
    threshold: u16,
    others: Seq<AccountId>,
    timepoint: Timepoint,
    call_hash: CallHash,
    max_weight: u64,
) -> MultisigCallView {
    MultisigCallView::Approve { threshold, other_signatories: others, timepoint, call_hash, max_weight }
}

/// An unacceptable participant set is turned down before anything reaches
/// the ledger: the ledger is as it was, not even a block older.
pub proof fn lemma_invalid_set_sends_nothing(
    pre: LedgerView,
    signer: AccountId,
    others: Seq<AccountId>,
    threshold: u16,
    call: MultisigCallView,
)
    requires
        participant_fault(signer, others, threshold) is Some,
    ensures
        coordinated(pre, signer, others, threshold, call).0 == pre,
        coordinated(pre, signer, others, threshold, call).1 == Err::<(), Error>(
            Error::InvalidParticipantSet(participant_fault(signer, others, threshold)->Some_0),
        ),
{
}

/// After `initiate` has succeeded with a threshold of two or more, the
/// operation is pending and `get_timepoint` gives the timepoint of the
/// block that holds the call; one approval is recorded, the initiator's,
/// and no balance has moved.
pub proof fn lemma_initiate_then_timepoint(
    pre: LedgerView,
    signer: AccountId,
    others: Seq<AccountId>,
    threshold: u16,
    call: Seq<u8>,
    max_weight: u64,
)
    requires
        threshold >= 2,
        coordinated(pre, signer, others, threshold, opening(threshold, others, call, max_weight)).1
            is Ok,
    ensures
        ({
            let post = coordinated(
                pre,
                signer,
                others,
                threshold,
                opening(threshold, others, call, max_weight),
            ).0;
            let account = shared_account(signer, others, threshold);
            let call_hash = call_hash_from(blake2_256_digest(call));
            &&& timepoint_at(post, account, call_hash) == Some(next_timepoint(pre))
            &&& post.operations[(account, call_hash)].record.approvals == seq![signer]
            &&& post.operations[(account, call_hash)].call == call
            &&& post.balances == pre.balances
            &&& post.log == pre.log.push(
                Event::NewMultisig { approving: signer, multisig: account, call_hash },
            )
        }),
{
}

/// One submission in a trace: who submits, and what.
pub struct Step {
    pub signer: AccountId,
    pub call: MultisigCallView,
}

/// The ledger after the submissions of `steps`, one block each, in order.
pub open spec fn replayed(start: LedgerView, steps: Seq<Step>) -> LedgerView
    decreases steps.len(),
{
    if steps.len() == 0 {
        start
    } else {
        submitted(replayed(start, steps.drop_last()), steps.last().signer, steps.last().call).0
    }
}

/// Whether the step opens an operation for the call with this hash.
pub open spec fn opens(step: Step, call_hash: CallHash) -> bool {
    match step.call {
        MultisigCallView::Initiate { call, .. } => call_hash_from(blake2_256_digest(call))
            == call_hash,
        MultisigCallView::Approve { .. } => false,
    }
}

/// A submission that opens no operation for a call hash leaves every
/// account without a pending operation for it, if it had none.
pub proof fn lemma_only_initiate_creates(
    pre: LedgerView,
    step: Step,
    account: AccountId,
    call_hash: CallHash,
)
    requires
        timepoint_at(pre, account, call_hash) is None,
        !opens(step, call_hash),
    ensures
        timepoint_at(submitted(pre, step.signer, step.call).0, account, call_hash) is None,
{
}

/// For a call hash that was never initiated, `get_timepoint` gives `None`:
/// whatever else was submitted, by whomever, since a state that held no
/// such operation.
pub proof fn lemma_never_initiated_no_timepoint(
    start: LedgerView,
    steps: Seq<Step>,
    account: AccountId,
    call_hash: CallHash,
)
    requires
        timepoint_at(start, account, call_hash) is None,
        forall|i: int| 0 <= i < steps.len() ==> !opens(#[trigger] steps[i], call_hash),
    ensures
        timepoint_at(replayed(start, steps), account, call_hash) is None,
    decreases steps.len(),
{
    if steps.len() > 0 {
        let before = steps.drop_last();
        assert forall|i: int| 0 <= i < before.len() implies !opens(
            #[trigger] before[i],
            call_hash,
        ) by {
            assert(before[i] == steps[i]);
        }
        lemma_never_initiated_no_timepoint(start, before, account, call_hash);
        lemma_only_initiate_creates(replayed(start, before), steps.last(), account, call_hash);
    }
}

/// An approval that leaves the operation short of the threshold leaves it
/// pending: `get_timepoint` still gives its timepoint, the wrapped call is
/// not dispatched, no balance moves, and the event is an approval. With a
/// threshold of all N participants this holds up to the approval before
/// the last.
pub proof fn lemma_below_threshold_stays_pending(
    pre: LedgerView,
    signer: AccountId,
    others: Seq<AccountId>,
    threshold: u16,
    timepoint: Timepoint,
    call_hash: CallHash,
    max_weight: u64,
)
    requires
        pre.operations.dom().contains((shared_account(signer, others, threshold), call_hash)),
        pre.operations[(
            shared_account(signer, others, threshold),
            call_hash,
        )].record.approvals.len() + 1 < threshold,
        approved(pre, signer, threshold, others, timepoint, call_hash, max_weight).1 is Ok,
    ensures
        ({
            let account = shared_account(signer, others, threshold);
            let (post, answer) = approved(
                pre,
                signer,
                threshold,
                others,
                timepoint,
                call_hash,
                max_weight,
            );
            let before = pre.operations[(account, call_hash)];
            let after = post.operations[(account, call_hash)];
            &&& timepoint_at(post, account, call_hash) == Some(timepoint)
            &&& after.record.approvals == before.record.approvals.push(signer)
            &&& after.record.approvals.len() < threshold
            &&& after.call == before.call
            &&& post.balances == pre.balances
            &&& answer == Ok::<Event, DispatchError>(
                Event::MultisigApproval { approving: signer, timepoint, multisig: account, call_hash },
            )
            &&& post.log == pre.log.push(answer->Ok_0)
        }),
{
}

/// An approval is either refused, or it is recorded, or it dispatches the
/// wrapped call; it dispatches only where it brings the approvals to the
/// threshold, and then the operation is gone.
pub proof fn lemma_dispatch_only_at_threshold(
    pre: LedgerView,
    signer: AccountId,
    others: Seq<AccountId>,
    threshold: u16,
    timepoint: Timepoint,
    call_hash: CallHash,
    max_weight: u64,
)
    requires
        approved(pre, signer, threshold, others, timepoint, call_hash, max_weight).1 matches Ok(
            e,
        ) && e is MultisigExecuted,
    ensures
        ({
            let account = shared_account(signer, others, threshold);
            let post = approved(pre, signer, threshold, others, timepoint, call_hash, max_weight).0;
            &&& pre.operations.dom().contains((account, call_hash))
            &&& pre.operations[(account, call_hash)].record.when == timepoint
            &&& pre.operations[(account, call_hash)].record.approvals.len() + 1 >= threshold
            &&& !pre.operations[(account, call_hash)].record.approvals.contains(signer)
            &&& timepoint_at(post, account, call_hash) is None
            &&& post.log.len() == pre.log.len() + 1
        }),
{
}

/// Of two approvals for one operation, each of which would be the last if
/// it came alone, the one that the ledger takes first dispatches the
/// wrapped call; the other finds no operation and is told
/// `OperationNotFound`. The call is dispatched once: the second approval
/// adds no event and moves no balance. The same holds with the two the
/// other way round.
pub proof fn lemma_race_dispatches_once(
    pre: LedgerView,
    first_signer: AccountId,
    first_others: Seq<AccountId>,
    second_signer: AccountId,
    second_others: Seq<AccountId>,
    threshold: u16,
    timepoint: Timepoint,
    call_hash: CallHash,
    first_weight: u64,
    second_weight: u64,
)
    requires
        shared_account(first_signer, first_others, threshold) == shared_account(
            second_signer,
            second_others,
            threshold,
        ),
        approved(pre, first_signer, threshold, first_others, timepoint, call_hash, first_weight).1
            matches Ok(e) && e is MultisigExecuted,
        approved(
            pre,
            second_signer,
            threshold,
            second_others,
            timepoint,
            call_hash,
            second_weight,
        ).1 matches Ok(e) && e is MultisigExecuted,
    ensures
        ({
            let (mid, first) = approved(
                pre,
                first_signer,
                threshold,
                first_others,
                timepoint,
                call_hash,
                first_weight,
            );
            let (post, second) = approved(
                mid,
                second_signer,
                threshold,
                second_others,
                timepoint,
                call_hash,
                second_weight,
            );
            &&& first matches Ok(e) && e is MultisigExecuted
            &&& second == Err::<Event, DispatchError>(DispatchError::NotFound)
            &&& settled(answered(second)) == Err::<(), Error>(Error::OperationNotFound)
            &&& post.log == pre.log.push(first->Ok_0)
            &&& post.balances == mid.balances
            &&& post.operations == mid.operations
            &&& timepoint_at(post, shared_account(first_signer, first_others, threshold), call_hash)
                is None
        }),
{
}

/// Once an operation has been dispatched, a further approval for it, by
/// any participant, is told `OperationNotFound`, however often it is tried.
pub proof fn lemma_approve_after_execution(
    pre: LedgerView,
    signer: AccountId,
    others: Seq<AccountId>,
    threshold: u16,
    timepoint: Timepoint,
    call_hash: CallHash,
    max_weight: u64,
)
    requires
        participant_fault(signer, others, threshold) is None,
        timepoint_at(pre, shared_account(signer, others, threshold), call_hash) is None,
    ensures
        ({
            let (post, told) = coordinated(
                pre,
                signer,
                others,
                threshold,
                approval(threshold, others, timepoint, call_hash, max_weight),
            );
            &&& told == Err::<(), Error>(Error::OperationNotFound)
            &&& post.operations == pre.operations
            &&& post.balances == pre.balances
            &&& post.log == pre.log
        }),
{
}

/// Whether what the events tell of one operation is what storage holds: it
/// is pending in the one exactly when it is in the other, with the same
/// approvals in the same order and, where an event named it, the same
/// timepoint.
pub open spec fn agrees_at(state: LedgerView, account: AccountId, call_hash: CallHash) -> bool {
    match phase_after(state.log, account, call_hash) {
        PhaseView::Pending { timepoint, approvals } => {
            &&& state.operations.dom().contains((account, call_hash))
            &&& state.operations[(account, call_hash)].record.approvals == approvals
            &&& timepoint matches Some(t) ==> state.operations[(account, call_hash)].record.when
                == t
        },
        _ => !state.operations.dom().contains((account, call_hash)),
    }
}

/// Whether events and storage agree on every operation.
pub open spec fn agrees(state: LedgerView) -> bool {
    forall|account: AccountId, call_hash: CallHash| #[trigger] agrees_at(state, account, call_hash)
}

/// A submission keeps events and storage in agreement.
pub proof fn lemma_submission_keeps_agreement(pre: LedgerView, signer: AccountId, call: MultisigCallView)
    requires
        agrees(pre),
    ensures
        agrees(submitted(pre, signer, call).0),
{
    let (post, answer) = submitted(pre, signer, call);
    assert forall|account: AccountId, call_hash: CallHash| #[trigger] agrees_at(
        post,
        account,
        call_hash,
    ) by {
        assert(agrees_at(pre, account, call_hash));
        if answer is Ok {
            let e = answer->Ok_0;
            assert(post.log == pre.log.push(e));
            assert(post.log.drop_last() =~= pre.log);
            assert(post.log.last() == e);
            assert(phase_after(post.log, account, call_hash) == observed(
                phase_after(pre.log, account, call_hash),
                account,
                call_hash,
                e,
            ));
            assert(agrees_at(pre, multisig_of(e), call_hash_of(e)));
        } else {
            assert(post.log == pre.log);
        }
    }
}

/// The state of an operation can always be rebuilt from the ledger's
/// events: after any submissions since the first block, by whomever, what
/// the events tell of each operation is what storage holds.
pub proof fn lemma_events_tell_the_state(dispatch_weight: u64, steps: Seq<Step>)
    ensures
        agrees(replayed(genesis(dispatch_weight), steps)),
    decreases steps.len(),
{
    if steps.len() == 0 {
        let start = genesis(dispatch_weight);
        assert forall|account: AccountId, call_hash: CallHash| #[trigger] agrees_at(
            start,
            account,
            call_hash,
        ) by {}
    } else {
        lemma_events_tell_the_state(dispatch_weight, steps.drop_last());
        lemma_submission_keeps_agreement(
            replayed(genesis(dispatch_weight), steps.drop_last()),
            steps.last().signer,
            steps.last().call,
        );
    }
}

} // verus!
