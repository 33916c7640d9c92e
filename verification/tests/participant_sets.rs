use multisig_core::account::{sort_accounts, AccountId};
use multisig_core::call::{wrap_opaque, Call, CallHash};
use multisig_core::coordinator::{approve, get_timepoint, initiate};
use multisig_core::derivation;
use multisig_core::error::{DispatchError, Error, InvalidReason};
use multisig_core::events::{DispatchOutcome, Event, RawEvent};
use multisig_core::ledger::Ledger;
use multisig_core::lifecycle::Phase;
use multisig_core::multisig::Timepoint;
use multisig_core::participants::{sort_unique, ParticipantSet};

fn account(fill: u8) -> AccountId {
    AccountId::from_bytes([fill; 32])
}

fn log_of(ledger: &Ledger) -> Vec<Event> {
    let mut sub = ledger.subscribe_from_genesis();
    let mut out = Vec::new();
    while let Some(raw) = sub.poll(ledger) {
        out.push(Event::decode(&raw).unwrap());
    }
    out
}

#[test]
fn sorting_keeps_every_member() {
    let who = vec![account(3), account(1), account(2), account(1)];
    assert_eq!(sort_accounts(&who), vec![account(1), account(1), account(2), account(3)]);
    assert_eq!(sort_unique(&who), vec![account(1), account(2), account(3)]);
    assert_eq!(sort_accounts(&Vec::new()), Vec::new());
    assert_eq!(sort_unique(&Vec::new()), Vec::new());
}

#[test]
fn sorting_agrees_with_the_order_of_bytes() {
    let mut who: Vec<AccountId> = Vec::new();
    let mut seed: u32 = 12345;
    for _ in 0..40 {
        let mut bytes = [0u8; 32];
        for b in bytes.iter_mut() {
            seed = seed.wrapping_mul(1664525).wrapping_add(1013904223);
            *b = (seed >> 24) as u8 % 3;
        }
        who.push(AccountId::from_bytes(bytes));
    }
    let mut expected = who.clone();
    expected.sort();
    assert_eq!(sort_accounts(&who), expected);
    expected.dedup();
    assert_eq!(sort_unique(&who), expected);
}

#[test]
fn a_set_holds_each_participant_once() {
    let set = ParticipantSet::new(&vec![account(9), account(2), account(9), account(5)], 3).unwrap();
    assert_eq!(set.len(), 3);
    assert_eq!(set.threshold(), 3);
    assert!(set.contains(&account(5)));
    assert!(!set.contains(&account(6)));
    assert_eq!(set.others_for(&account(5)), Some(vec![account(2), account(9)]));
    assert_eq!(set.others_for(&account(2)), Some(vec![account(5), account(9)]));
    assert_eq!(set.others_for(&account(9)), Some(vec![account(2), account(5)]));
    assert_eq!(set.others_for(&account(1)), None);
    assert_eq!(
        ParticipantSet::new(&vec![account(5), account(9), account(2)], 3).unwrap(),
        set
    );
}

#[test]
fn sets_that_are_turned_down() {
    let invalid = |reason| Err(Error::InvalidParticipantSet(reason));
    assert_eq!(
        ParticipantSet::new(&vec![account(1), account(2)], 0),
        invalid(InvalidReason::ThresholdOutOfRange)
    );
    assert_eq!(
        ParticipantSet::new(&vec![account(1), account(2)], 3),
        invalid(InvalidReason::ThresholdOutOfRange)
    );
    // named twice, counted once
    assert_eq!(
        ParticipantSet::new(&vec![account(1), account(1)], 2),
        invalid(InvalidReason::ThresholdOutOfRange)
    );
    assert_eq!(ParticipantSet::new(&Vec::new(), 1), invalid(InvalidReason::ThresholdOutOfRange));
    let crowd: Vec<AccountId> = (0..101u8).map(account).collect();
    assert_eq!(ParticipantSet::new(&crowd, 2), invalid(InvalidReason::TooManySignatories));
    assert_eq!(ParticipantSet::new(&crowd, 0), invalid(InvalidReason::TooManySignatories));
    assert!(ParticipantSet::new(&crowd[..100].to_vec(), 100).is_ok());
    assert!(ParticipantSet::new(&vec![account(1)], 1).is_ok());
}

#[test]
fn every_participant_names_the_same_account() {
    let set = ParticipantSet::new(&vec![account(7), account(3), account(5)], 2).unwrap();
    let shared = set.account();
    assert_eq!(shared, derivation::derive(&vec![account(3), account(5), account(7)], 2));
    for signer in [account(3), account(5), account(7)] {
        let mut all = set.others_for(&signer).unwrap();
        all.push(signer);
        assert_eq!(derivation::derive(&all, 2), shared);
    }
}

#[test]
fn a_set_drives_an_operation() {
    let set = ParticipantSet::new(&vec![account(7), account(3), account(5)], 2).unwrap();
    let mut ledger = Ledger::new(0);
    ledger.endow(&set.account(), 10);
    let call = wrap_opaque(Call::Transfer { dest: account(99), value: 4 }.encode());
    let call_hash = call.hash();
    let opener = account(5);
    initiate(&mut ledger, &opener, set.others_for(&opener).unwrap(), set.threshold(), call, 0)
        .unwrap();
    let timepoint = get_timepoint(&ledger, &set.account(), &call_hash).unwrap();
    let second = account(3);
    approve(
        &mut ledger,
        &second,
        set.others_for(&second).unwrap(),
        set.threshold(),
        timepoint,
        call_hash,
        0,
    )
    .unwrap();
    assert_eq!(ledger.balance(&account(99)), 4);
}

#[test]
fn the_events_tell_the_phase_of_an_operation() {
    let a = account(1);
    let b = account(2);
    let c = account(3);
    let shared = derivation::derive(&vec![a, b, c], 3);
    let call = wrap_opaque(Call::Remark { remark: vec![1] }.encode());
    let call_hash = call.hash();
    let mut ledger = Ledger::new(0);
    assert_eq!(Phase::track(&log_of(&ledger), &shared, &call_hash), Phase::Uninitiated);

    initiate(&mut ledger, &a, vec![b, c], 3, call.clone(), 0).unwrap();
    assert_eq!(
        Phase::track(&log_of(&ledger), &shared, &call_hash),
        Phase::Pending { timepoint: None, approvals: vec![a] }
    );
    let timepoint = get_timepoint(&ledger, &shared, &call_hash).unwrap();

    approve(&mut ledger, &c, vec![a, b], 3, timepoint, call_hash, 0).unwrap();
    let phase = Phase::track(&log_of(&ledger), &shared, &call_hash);
    assert_eq!(phase, Phase::Pending { timepoint: Some(timepoint), approvals: vec![a, c] });
    assert_eq!(
        ledger.pending_operation(&shared, &call_hash).unwrap().approvals,
        vec![a, c]
    );
    // another operation does not disturb it
    assert_eq!(
        Phase::track(&log_of(&ledger), &shared, &CallHash { bytes: [0; 32] }),
        Phase::Uninitiated
    );
    initiate(&mut ledger, &a, vec![b], 2, call.clone(), 0).unwrap();
    assert_eq!(Phase::track(&log_of(&ledger), &shared, &call_hash), phase);

    approve(&mut ledger, &b, vec![a, c], 3, timepoint, call_hash, 0).unwrap();
    assert_eq!(
        Phase::track(&log_of(&ledger), &shared, &call_hash),
        Phase::Executed { result: DispatchOutcome::Success }
    );
    assert_eq!(ledger.pending_operation(&shared, &call_hash), None);

    // opened again at another time
    initiate(&mut ledger, &b, vec![a, c], 3, call, 0).unwrap();
    assert_eq!(
        Phase::track(&log_of(&ledger), &shared, &call_hash),
        Phase::Pending { timepoint: None, approvals: vec![b] }
    );
}

#[test]
fn a_phase_follows_single_events() {
    let shared = account(10);
    let call_hash = CallHash { bytes: [4; 32] };
    let timepoint = Timepoint { height: 3, index: 1 };
    let approval = Event::MultisigApproval {
        approving: account(2),
        timepoint,
        multisig: shared,
        call_hash,
    };
    let late = Phase::Uninitiated.observe(&shared, &call_hash, &approval);
    assert_eq!(late, Phase::Pending { timepoint: Some(timepoint), approvals: vec![account(2)] });
    let cancelled = Event::MultisigCancelled {
        cancelling: account(2),
        timepoint,
        multisig: shared,
        call_hash,
    };
    assert_eq!(late.clone().observe(&shared, &call_hash, &cancelled), Phase::Cancelled);
    assert_eq!(late.clone().observe(&account(11), &call_hash, &cancelled), late);
    let failed = Event::MultisigExecuted {
        approving: account(3),
        timepoint,
        multisig: shared,
        call_hash,
        result: DispatchOutcome::Failure(DispatchError::BadOrigin),
    };
    assert_eq!(
        late.observe(&shared, &call_hash, &failed),
        Phase::Executed { result: DispatchOutcome::Failure(DispatchError::BadOrigin) }
    );
    let raw: RawEvent = failed.encode();
    assert_eq!(raw.bytes.len(), 104 + 2);
}
