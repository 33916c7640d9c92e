use multisig_core::account::AccountId;
use multisig_core::call::{hash, wrap_opaque, Call, CallHash, WrappedCall};
use multisig_core::coordinator::{
    approve, get_timepoint, initiate, plan_approve, plan_initiate, read_timepoint, settle, validate,
    SubmissionOutcome,
};
use multisig_core::derivation;
use multisig_core::error::{DispatchError, Error, InvalidReason};
use multisig_core::events::{DispatchOutcome, Event, EventKind};
use multisig_core::ledger::Ledger;
use multisig_core::multisig::{MultisigCall, PendingOperation, Timepoint};
use multisig_core::subscriber::{filter, Wanted};
use subxt::codec::Encode;
use subxt::sp_core::{sr25519, Pair};
use subxt::sp_runtime::AccountId32;
use subxt::WrapperKeepOpaque;

const MAX_WEIGHT: u64 = 1_000_000_000_000;

fn keyring(name: &str) -> AccountId {
    let pair = sr25519::Pair::from_string(&format!("//{}", name), None).unwrap();
    AccountId::from_bytes(pair.public().0)
}

fn alice() -> AccountId {
    keyring("Alice")
}

fn bob() -> AccountId {
    keyring("Bob")
}

fn charlie() -> AccountId {
    keyring("Charlie")
}

fn transfer(dest: AccountId, value: u128) -> WrappedCall {
    wrap_opaque(Call::Transfer { dest, value }.encode())
}

fn all_events(ledger: &Ledger) -> Vec<multisig_core::events::RawEvent> {
    let mut sub = ledger.subscribe_from_genesis();
    let mut out = Vec::new();
    while let Some(raw) = sub.poll(ledger) {
        out.push(raw);
    }
    out
}

#[test]
fn keyring_accounts_are_the_well_known_ones() {
    assert_eq!(alice().bytes[..4], [0xd4, 0x35, 0x93, 0xc7]);
    assert_eq!(bob().bytes[..4], [0x8e, 0xaf, 0x04, 0x15]);
    assert_eq!(charlie().bytes[..4], [0x90, 0xb5, 0xab, 0x20]);
}

#[test]
fn should_approve_multisig() {
    let mut ledger = Ledger::new(1_000_000);
    ledger.endow(&alice(), 10_000_000_000_000_000);

    // bob listens before anything happens
    let mut bob_listens = ledger.subscribe_finalized();
    let mut alice_listens = ledger.subscribe_finalized();

    // compute the multisig account id and fund it so it can afford the transfer
    let account_id = derivation::derive(&vec![bob(), alice()], 2);
    ledger.endow(&account_id, 100_000_000_000);
    let charlie_before = ledger.balance(&charlie());

    // alice creates the multisig operation
    let call = transfer(charlie(), 10_000_000_000);
    assert_eq!(initiate(&mut ledger, &alice(), vec![bob()], 2, call.clone(), MAX_WEIGHT), Ok(()));

    // bob signs the incoming multisig
    let event = bob_listens.wait(&ledger, &Wanted::any(EventKind::NewMultisig)).unwrap();
    let (multisig, call_hash, approving) = match event {
        Event::NewMultisig { approving, multisig, call_hash } => (multisig, call_hash, approving),
        other => panic!("unexpected event {:?}", other),
    };
    assert_eq!(multisig, account_id);
    assert_eq!(call_hash, call.hash());
    assert_eq!(approving, alice());
    let timepoint = get_timepoint(&ledger, &multisig, &call_hash).unwrap();
    assert_eq!(timepoint, Timepoint { height: 1, index: 0 });
    assert_eq!(ledger.balance(&charlie()), charlie_before);
    assert_eq!(
        approve(&mut ledger, &bob(), vec![approving], 2, timepoint, call_hash, MAX_WEIGHT),
        Ok(())
    );

    // exactly one execution, with a success outcome
    let found = alice_listens
        .wait(&ledger, &Wanted::about(EventKind::MultisigExecuted, call_hash))
        .unwrap();
    assert_eq!(
        found,
        Event::MultisigExecuted {
            approving: bob(),
            timepoint,
            multisig: account_id,
            call_hash,
            result: DispatchOutcome::Success,
        }
    );
    assert_eq!(filter(&all_events(&ledger), EventKind::MultisigExecuted).len(), 1);
    assert_eq!(ledger.balance(&charlie()), charlie_before + 10_000_000_000);
    assert_eq!(ledger.balance(&account_id), 100_000_000_000 - 10_000_000_000);
    assert_eq!(get_timepoint(&ledger, &multisig, &call_hash), None);

    // a second approval finds nothing to approve
    assert_eq!(
        approve(&mut ledger, &bob(), vec![alice()], 2, timepoint, call_hash, MAX_WEIGHT),
        Err(Error::OperationNotFound)
    );
    assert_eq!(
        approve(&mut ledger, &alice(), vec![bob()], 2, timepoint, call_hash, MAX_WEIGHT),
        Err(Error::OperationNotFound)
    );
    assert_eq!(filter(&all_events(&ledger), EventKind::MultisigExecuted).len(), 1);
    assert_eq!(ledger.balance(&charlie()), charlie_before + 10_000_000_000);
}

#[test]
fn timepoint_is_known_after_initiate_and_unknown_without() {
    let mut ledger = Ledger::new(0);
    let call = transfer(charlie(), 5);
    let account = derivation::derive(&vec![alice(), bob()], 2);
    assert_eq!(get_timepoint(&ledger, &account, &call.hash()), None);
    assert_eq!(initiate(&mut ledger, &alice(), vec![bob()], 2, call.clone(), MAX_WEIGHT), Ok(()));
    assert_eq!(
        get_timepoint(&ledger, &account, &call.hash()),
        Some(Timepoint { height: 1, index: 0 })
    );
    let never = transfer(charlie(), 6);
    assert_eq!(get_timepoint(&ledger, &account, &never.hash()), None);
    assert_eq!(get_timepoint(&ledger, &alice(), &call.hash()), None);
    assert_eq!(ledger.height(), 1);
}

#[test]
fn all_of_three_stays_pending_until_the_last_approval() {
    let mut ledger = Ledger::new(0);
    let account = derivation::derive(&vec![alice(), bob(), charlie()], 3);
    ledger.endow(&account, 1_000);
    let dest = AccountId::from_bytes([7; 32]);
    let call = transfer(dest, 400);
    let call_hash = call.hash();
    assert_eq!(
        initiate(&mut ledger, &alice(), vec![bob(), charlie()], 3, call, MAX_WEIGHT),
        Ok(())
    );
    let timepoint = get_timepoint(&ledger, &account, &call_hash).unwrap();
    assert_eq!(
        approve(&mut ledger, &bob(), vec![alice(), charlie()], 3, timepoint, call_hash, MAX_WEIGHT),
        Ok(())
    );
    // two of three: still pending, nothing dispatched
    assert_eq!(get_timepoint(&ledger, &account, &call_hash), Some(timepoint));
    assert_eq!(ledger.balance(&dest), 0);
    assert_eq!(ledger.balance(&account), 1_000);
    assert_eq!(filter(&all_events(&ledger), EventKind::MultisigExecuted), vec![]);
    assert_eq!(filter(&all_events(&ledger), EventKind::MultisigApproval).len(), 1);
    let record = ledger.pending_operation(&account, &call_hash).unwrap();
    assert_eq!(record.approvals, vec![alice(), bob()]);
    assert_eq!(record.depositor, alice());
    assert_eq!(record.when, timepoint);
    // the third approval dispatches
    assert_eq!(
        approve(&mut ledger, &charlie(), vec![bob(), alice()], 3, timepoint, call_hash, MAX_WEIGHT),
        Ok(())
    );
    assert_eq!(get_timepoint(&ledger, &account, &call_hash), None);
    assert_eq!(ledger.balance(&dest), 400);
    assert_eq!(ledger.balance(&account), 600);
}

#[test]
fn of_two_racing_final_approvals_one_dispatches() {
    for bob_first in [true, false] {
        let mut ledger = Ledger::new(0);
        let account = derivation::derive(&vec![alice(), bob(), charlie()], 2);
        ledger.endow(&account, 50);
        let dest = AccountId::from_bytes([7; 32]);
        let call = transfer(dest, 20);
        let call_hash = call.hash();
        initiate(&mut ledger, &alice(), vec![bob(), charlie()], 2, call, MAX_WEIGHT).unwrap();
        let timepoint = get_timepoint(&ledger, &account, &call_hash).unwrap();
        let by_bob = (bob(), vec![alice(), charlie()]);
        let by_charlie = (charlie(), vec![alice(), bob()]);
        let (first, second) = if bob_first { (by_bob, by_charlie) } else { (by_charlie, by_bob) };
        assert_eq!(
            approve(&mut ledger, &first.0, first.1, 2, timepoint, call_hash, MAX_WEIGHT),
            Ok(())
        );
        assert_eq!(
            approve(&mut ledger, &second.0, second.1, 2, timepoint, call_hash, MAX_WEIGHT),
            Err(Error::OperationNotFound)
        );
        assert_eq!(filter(&all_events(&ledger), EventKind::MultisigExecuted).len(), 1);
        assert_eq!(ledger.balance(&dest), 20);
        assert_eq!(ledger.balance(&account), 30);
        assert_eq!(ledger.height(), 3);
    }
}

#[test]
fn unacceptable_sets_are_turned_down_locally() {
    let mut ledger = Ledger::new(0);
    let call = transfer(charlie(), 1);
    assert_eq!(
        initiate(&mut ledger, &alice(), vec![bob(), alice()], 2, call.clone(), MAX_WEIGHT),
        Err(Error::InvalidParticipantSet(InvalidReason::SignerAmongOthers))
    );
    assert_eq!(
        initiate(&mut ledger, &alice(), vec![bob()], 0, call.clone(), MAX_WEIGHT),
        Err(Error::InvalidParticipantSet(InvalidReason::ThresholdOutOfRange))
    );
    assert_eq!(
        initiate(&mut ledger, &alice(), vec![bob()], 3, call.clone(), MAX_WEIGHT),
        Err(Error::InvalidParticipantSet(InvalidReason::ThresholdOutOfRange))
    );
    let crowd: Vec<AccountId> = (0..100u8).map(|i| AccountId::from_bytes([i; 32])).collect();
    assert_eq!(
        initiate(&mut ledger, &alice(), crowd.clone(), 2, call.clone(), MAX_WEIGHT),
        Err(Error::InvalidParticipantSet(InvalidReason::TooManySignatories))
    );
    assert_eq!(
        approve(
            &mut ledger,
            &alice(),
            vec![alice()],
            1,
            Timepoint { height: 1, index: 0 },
            call.hash(),
            MAX_WEIGHT
        ),
        Err(Error::InvalidParticipantSet(InvalidReason::SignerAmongOthers))
    );
    // nothing reached the ledger
    assert_eq!(ledger.height(), 0);
    assert_eq!(ledger.event_count(), 0);
    // the largest set that is admitted
    assert_eq!(validate(&alice(), &crowd[..99].to_vec(), 100), Ok(()));
    assert_eq!(validate(&alice(), &Vec::new(), 1), Ok(()));
    assert_eq!(
        validate(&alice(), &crowd[..99].to_vec(), 101),
        Err(Error::InvalidParticipantSet(InvalidReason::ThresholdOutOfRange))
    );
}

#[test]
fn the_ledger_rejects_what_does_not_match_the_operation() {
    let mut ledger = Ledger::new(500);
    let account = derivation::derive(&vec![alice(), bob(), charlie()], 3);
    let call = transfer(charlie(), 1);
    let call_hash = call.hash();
    initiate(&mut ledger, &alice(), vec![bob(), charlie()], 3, call.clone(), MAX_WEIGHT).unwrap();
    let timepoint = get_timepoint(&ledger, &account, &call_hash).unwrap();
    // opening it again
    assert_eq!(
        initiate(&mut ledger, &bob(), vec![alice(), charlie()], 3, call.clone(), MAX_WEIGHT),
        Err(Error::DispatchFailed(DispatchError::NoTimepoint))
    );
    // a stale timepoint
    let stale = Timepoint { height: timepoint.height + 5, index: 0 };
    assert_eq!(
        approve(&mut ledger, &bob(), vec![alice(), charlie()], 3, stale, call_hash, MAX_WEIGHT),
        Err(Error::DispatchFailed(DispatchError::WrongTimepoint))
    );
    // approving twice
    assert_eq!(
        approve(&mut ledger, &alice(), vec![bob(), charlie()], 3, timepoint, call_hash, MAX_WEIGHT),
        Err(Error::DispatchFailed(DispatchError::AlreadyApproved))
    );
    // another threshold names another account
    assert_eq!(
        approve(&mut ledger, &bob(), vec![alice(), charlie()], 2, timepoint, call_hash, MAX_WEIGHT),
        Err(Error::OperationNotFound)
    );
    // too little weight for the dispatch
    approve(&mut ledger, &bob(), vec![alice(), charlie()], 3, timepoint, call_hash, 0).unwrap();
    assert_eq!(
        approve(&mut ledger, &charlie(), vec![alice(), bob()], 3, timepoint, call_hash, 499),
        Err(Error::DispatchFailed(DispatchError::MaxWeightTooLow))
    );
    assert_eq!(get_timepoint(&ledger, &account, &call_hash), Some(timepoint));
    assert_eq!(
        approve(&mut ledger, &charlie(), vec![alice(), bob()], 3, timepoint, call_hash, 500),
        Ok(())
    );
    assert_eq!(ledger.height(), 8);
}

#[test]
fn a_failed_dispatch_is_reported_in_the_event() {
    let mut ledger = Ledger::new(0);
    let account = derivation::derive(&vec![alice(), bob()], 2);
    ledger.endow(&account, 9);
    let call = transfer(charlie(), 10);
    let call_hash = call.hash();
    initiate(&mut ledger, &alice(), vec![bob()], 2, call, MAX_WEIGHT).unwrap();
    let timepoint = get_timepoint(&ledger, &account, &call_hash).unwrap();
    assert_eq!(approve(&mut ledger, &bob(), vec![alice()], 2, timepoint, call_hash, 0), Ok(()));
    assert_eq!(
        filter(&all_events(&ledger), EventKind::MultisigExecuted),
        vec![Event::MultisigExecuted {
            approving: bob(),
            timepoint,
            multisig: account,
            call_hash,
            result: DispatchOutcome::Failure(DispatchError::InsufficientBalance),
        }]
    );
    assert_eq!(ledger.balance(&account), 9);
    assert_eq!(ledger.balance(&charlie()), 0);
    assert_eq!(get_timepoint(&ledger, &account, &call_hash), None);
}

#[test]
fn wrapped_bytes_that_are_no_call_fail_at_dispatch() {
    let mut ledger = Ledger::new(0);
    let call = wrap_opaque(vec![0xde, 0xad]);
    let call_hash = call.hash();
    initiate(&mut ledger, &alice(), vec![bob()], 2, call, MAX_WEIGHT).unwrap();
    let account = derivation::derive(&vec![alice(), bob()], 2);
    let timepoint = get_timepoint(&ledger, &account, &call_hash).unwrap();
    approve(&mut ledger, &bob(), vec![alice()], 2, timepoint, call_hash, 0).unwrap();
    let executed = filter(&all_events(&ledger), EventKind::MultisigExecuted);
    assert_eq!(executed.len(), 1);
    assert!(matches!(
        executed[0],
        Event::MultisigExecuted { result: DispatchOutcome::Failure(DispatchError::Other), .. }
    ));
}

#[test]
fn a_remark_changes_no_balance() {
    let mut ledger = Ledger::new(0);
    let account = derivation::derive(&vec![alice(), bob()], 2);
    ledger.endow(&account, 77);
    let call = wrap_opaque(Call::Remark { remark: b"hello".to_vec() }.encode());
    let call_hash = call.hash();
    initiate(&mut ledger, &bob(), vec![alice()], 2, call, MAX_WEIGHT).unwrap();
    let timepoint = get_timepoint(&ledger, &account, &call_hash).unwrap();
    approve(&mut ledger, &alice(), vec![bob()], 2, timepoint, call_hash, 0).unwrap();
    assert_eq!(ledger.balance(&account), 77);
    let executed = filter(&all_events(&ledger), EventKind::MultisigExecuted);
    assert!(matches!(executed[0], Event::MultisigExecuted { result: DispatchOutcome::Success, .. }));
}

#[test]
fn a_threshold_of_one_dispatches_at_once() {
    let mut ledger = Ledger::new(10);
    let account = derivation::derive(&vec![alice(), bob()], 1);
    ledger.endow(&account, 100);
    let call = transfer(charlie(), 60);
    let call_hash = call.hash();
    assert_eq!(
        initiate(&mut ledger, &alice(), vec![bob()], 1, call.clone(), 9),
        Err(Error::DispatchFailed(DispatchError::MaxWeightTooLow))
    );
    assert_eq!(initiate(&mut ledger, &alice(), vec![bob()], 1, call, 10), Ok(()));
    assert_eq!(get_timepoint(&ledger, &account, &call_hash), None);
    assert_eq!(ledger.balance(&charlie()), 60);
    assert_eq!(filter(&all_events(&ledger), EventKind::NewMultisig), vec![]);
    assert_eq!(filter(&all_events(&ledger), EventKind::MultisigExecuted).len(), 1);
}

#[test]
fn the_same_call_at_another_time_has_another_timepoint() {
    let mut ledger = Ledger::new(0);
    let account = derivation::derive(&vec![alice(), bob()], 2);
    ledger.endow(&account, 100);
    let call = transfer(charlie(), 10);
    let call_hash = call.hash();
    initiate(&mut ledger, &alice(), vec![bob()], 2, call.clone(), MAX_WEIGHT).unwrap();
    let first = get_timepoint(&ledger, &account, &call_hash).unwrap();
    approve(&mut ledger, &bob(), vec![alice()], 2, first, call_hash, MAX_WEIGHT).unwrap();
    initiate(&mut ledger, &alice(), vec![bob()], 2, call, MAX_WEIGHT).unwrap();
    let second = get_timepoint(&ledger, &account, &call_hash).unwrap();
    assert_ne!(first, second);
    assert_eq!(second, Timepoint { height: 3, index: 0 });
    // the old timepoint no longer names the operation
    assert_eq!(
        approve(&mut ledger, &bob(), vec![alice()], 2, first, call_hash, MAX_WEIGHT),
        Err(Error::DispatchFailed(DispatchError::WrongTimepoint))
    );
    assert_eq!(approve(&mut ledger, &bob(), vec![alice()], 2, second, call_hash, MAX_WEIGHT), Ok(()));
    assert_eq!(ledger.balance(&charlie()), 20);
}

#[test]
fn a_transfer_that_would_overflow_the_destination_fails() {
    let mut ledger = Ledger::new(0);
    let account = derivation::derive(&vec![alice(), bob()], 2);
    ledger.endow(&account, 10);
    ledger.endow(&charlie(), u128::MAX - 5);
    let call = transfer(charlie(), 6);
    let call_hash = call.hash();
    initiate(&mut ledger, &alice(), vec![bob()], 2, call, MAX_WEIGHT).unwrap();
    let timepoint = get_timepoint(&ledger, &account, &call_hash).unwrap();
    approve(&mut ledger, &bob(), vec![alice()], 2, timepoint, call_hash, MAX_WEIGHT).unwrap();
    assert_eq!(ledger.balance(&charlie()), u128::MAX - 5);
    assert_eq!(ledger.balance(&account), 10);
}

#[test]
fn a_transfer_to_the_shared_account_itself_keeps_its_balance() {
    let mut ledger = Ledger::new(0);
    let account = derivation::derive(&vec![alice(), bob()], 2);
    ledger.endow(&account, 10);
    let call = transfer(account, 10);
    let call_hash = call.hash();
    initiate(&mut ledger, &alice(), vec![bob()], 2, call, MAX_WEIGHT).unwrap();
    let timepoint = get_timepoint(&ledger, &account, &call_hash).unwrap();
    approve(&mut ledger, &bob(), vec![alice()], 2, timepoint, call_hash, MAX_WEIGHT).unwrap();
    assert_eq!(ledger.balance(&account), 10);
}

#[test]
fn a_subscription_replays_nothing() {
    let mut ledger = Ledger::new(0);
    initiate(&mut ledger, &alice(), vec![bob()], 2, transfer(charlie(), 1), MAX_WEIGHT).unwrap();
    let mut late = ledger.subscribe_finalized();
    assert_eq!(late.poll(&ledger), None);
    assert_eq!(late.wait(&ledger, &Wanted::any(EventKind::NewMultisig)), None);
    initiate(&mut ledger, &alice(), vec![bob()], 2, transfer(charlie(), 2), MAX_WEIGHT).unwrap();
    let seen = late.wait(&ledger, &Wanted::any(EventKind::NewMultisig)).unwrap();
    assert_eq!(seen.call_hash(), transfer(charlie(), 2).hash());
    assert_eq!(late.poll(&ledger), None);
    let mut early = ledger.subscribe_from_genesis();
    assert_eq!(
        early.wait(&ledger, &Wanted::any(EventKind::NewMultisig)).unwrap().call_hash(),
        transfer(charlie(), 1).hash()
    );
}

#[test]
fn settling_a_submission() {
    assert_eq!(settle(SubmissionOutcome::Finalized), Ok(()));
    assert_eq!(settle(SubmissionOutcome::NotIncluded), Err(Error::SubmissionFailed));
    assert_eq!(
        settle(SubmissionOutcome::Rejected(DispatchError::NotFound)),
        Err(Error::OperationNotFound)
    );
    assert_eq!(
        settle(SubmissionOutcome::Rejected(DispatchError::UnexpectedTimepoint)),
        Err(Error::OperationNotFound)
    );
    assert_eq!(
        settle(SubmissionOutcome::Rejected(DispatchError::BadOrigin)),
        Err(Error::DispatchFailed(DispatchError::BadOrigin))
    );
    assert_eq!(
        settle(SubmissionOutcome::Rejected(DispatchError::InsufficientBalance)),
        Err(Error::DispatchFailed(DispatchError::InsufficientBalance))
    );
}

#[test]
fn planned_calls_have_the_ledger_layout() {
    let others = vec![bob(), charlie()];
    let theirs: Vec<AccountId32> = others.iter().map(|a| AccountId32::new(a.bytes)).collect();
    let inner = Call::Transfer { dest: charlie(), value: 10_000_000_000 }.encode();
    let opening =
        plan_initiate(&alice(), others.clone(), 2, wrap_opaque(inner.clone()), MAX_WEIGHT).unwrap();
    let expected = (
        2u16,
        theirs.clone(),
        None::<(u32, u32)>,
        WrapperKeepOpaque::<()>::from_encoded(inner.clone()),
        true,
        MAX_WEIGHT,
    )
        .encode();
    assert_eq!(opening.encode_arguments(), expected);
    let mut whole = vec![30u8, 1];
    whole.extend_from_slice(&expected);
    assert_eq!(opening.encode(), whole);

    let call_hash = hash(&inner);
    let approving = plan_approve(
        &alice(),
        others,
        2,
        Timepoint { height: 1234, index: 2 },
        call_hash,
        MAX_WEIGHT,
    )
    .unwrap();
    let expected = (2u16, theirs, Some((1234u32, 2u32)), call_hash.bytes, MAX_WEIGHT).encode();
    assert_eq!(approving.encode_arguments(), expected);
    assert_eq!(approving.encode()[..2], [30, 2]);
    assert!(matches!(approving, MultisigCall::Approve { threshold: 2, .. }));
}

#[test]
fn the_timepoint_is_read_from_the_stored_record() {
    let approvals = vec![AccountId32::new(alice().bytes), AccountId32::new(bob().bytes)];
    let stored =
        ((4321u32, 3u32), 20_000_000_000u128, AccountId32::new(alice().bytes), approvals).encode();
    assert_eq!(read_timepoint(&Some(stored.clone())), Some(Timepoint { height: 4321, index: 3 }));
    let record = PendingOperation::decode(&stored).unwrap();
    assert_eq!(record.deposit, 20_000_000_000);
    assert_eq!(record.depositor, alice());
    assert_eq!(record.approvals, vec![alice(), bob()]);
    assert_eq!(record.encode(), stored);
    assert_eq!(read_timepoint(&None), None);
    assert_eq!(read_timepoint(&Some(stored[..stored.len() - 1].to_vec())), None);
    let mut longer = stored.clone();
    longer.push(0);
    assert_eq!(read_timepoint(&Some(longer)), None);
    assert_eq!(read_timepoint(&Some(vec![])), None);
}

#[test]
fn storage_holds_the_record_of_a_pending_operation() {
    let mut ledger = Ledger::new(0);
    let call = transfer(charlie(), 1);
    let account = derivation::derive(&vec![alice(), bob()], 2);
    assert_eq!(ledger.query_storage(&account, &call.hash()), None);
    initiate(&mut ledger, &alice(), vec![bob()], 2, call.clone(), MAX_WEIGHT).unwrap();
    let expected =
        ((1u32, 0u32), 0u128, AccountId32::new(alice().bytes), vec![AccountId32::new(alice().bytes)])
            .encode();
    assert_eq!(ledger.query_storage(&account, &call.hash()), Some(expected));
    assert_eq!(ledger.query_storage(&account, &CallHash { bytes: [0; 32] }), None);
}
