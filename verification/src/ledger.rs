//! An in-memory ledger with the multisig pallet's rules: deterministic,
//! with state that the caller puts in, and one block for every submission.
//! It stands where the network would, behind the same three questions:
//! submit and await finality, query storage, subscribe to finalized events.

use vstd::prelude::*;
use crate::account::{account_of, contains, copy_accounts, lemma_account_of, AccountId};
use crate::call::{
    call_hash_from, decoded_call, lemma_call_hash_from, Call, CallHash, CallView,
};
use crate::codec::copy_range;
use crate::derivation;
use crate::derivation::derived_account;
use crate::error::DispatchError;
use crate::events::{decoded, encoded_event, DispatchOutcome, Event, RawEvent};
use crate::subscriber::{admitted, satisfies, wait_step, Arrival, WaitStep, Wanted};
use crate::hashing::blake2_256_digest;
use crate::multisig::{
    encoded_record, MultisigCall, MultisigCallView, PendingOperation, PendingView, Timepoint,
};
use crate::table::{
    is_table, lemma_table_absent, lemma_table_at, lemma_table_push, lemma_table_remove,
    lemma_table_update, table,
};

verus! {

/// A pending operation as the ledger keeps it: the record, and the wrapped
/// call that the initiator asked to store.
pub struct StoredView {
    pub call: Seq<u8>,
    pub record: PendingView,
}

/// The state of the ledger.
pub struct LedgerView {
    /// The number of the last finalized block.
    pub height: u32,
    /// The weight that the dispatch of a wrapped call costs.
    pub dispatch_weight: u64,
    /// The pending operations, by shared account and call hash.
    pub operations: Map<(AccountId, CallHash), StoredView>,
    /// The free balance of each account that holds one.
    pub balances: Map<AccountId, u128>,
    /// The multisig events finalized so far, oldest first.
    pub log: Seq<Event>,
}

/// The ledger before its first block: no balances, no operations, no events.
pub open spec fn genesis(dispatch_weight: u64) -> LedgerView {
    LedgerView {
        height: 0,
        dispatch_weight,
        operations: Map::empty(),
        balances: Map::empty(),
        log: Seq::empty(),
    }
}

/// The free balance of `who`: zero for an account never heard of.
pub open spec fn balance_in(balances: Map<AccountId, u128>, who: AccountId) -> u128 {
    if balances.dom().contains(who) {
        balances[who]
    } else {
        0
    }
}

/// The account that `signer` shares with `others` under `threshold`.
pub open spec fn shared_account(signer: AccountId, others: Seq<AccountId>, threshold: u16)
    -> AccountId {
    account_of(derived_account(others.push(signer), threshold))
}

/// The balances after the call in `call` was dispatched from `origin`, and
/// how the dispatch ended. A transfer moves its value if the origin holds
/// as much and the destination can hold the sum; a remark changes nothing;
/// bytes that are no call fail.
pub open spec fn dispatched(balances: Map<AccountId, u128>, origin: AccountId, call: Seq<u8>) -> (
    Map<AccountId, u128>,
    DispatchOutcome,
) {
    match decoded_call(call) {
        None => (balances, DispatchOutcome::Failure(DispatchError::Other)),
        Some(CallView::Remark { .. }) => (balances, DispatchOutcome::Success),
        Some(CallView::Transfer { dest, value }) => {
            let have = balance_in(balances, origin);
            let there = balance_in(balances, dest);
            if have < value {
                (balances, DispatchOutcome::Failure(DispatchError::InsufficientBalance))
            } else if dest == origin {
                (balances, DispatchOutcome::Success)
            } else if there + value > u128::MAX {
                (balances, DispatchOutcome::Failure(DispatchError::Other))
            } else {
                (
                    balances.insert(origin, (have - value) as u128).insert(
                        dest,
                        (there + value) as u128,
                    ),
                    DispatchOutcome::Success,
                )
            }
        },
    }
}

/// The state after one more block in which nothing else changed.
pub open spec fn next_block(pre: LedgerView) -> LedgerView {
    LedgerView { height: (pre.height + 1) as u32, ..pre }
}

/// The timepoint of the submission that the next block holds.
pub open spec fn next_timepoint(pre: LedgerView) -> Timepoint {
    Timepoint { height: (pre.height + 1) as u32, index: 0 }
}

/// The state after the wrapped call of an operation was dispatched, and the
/// event that reports it.
pub open spec fn executed(
    pre: LedgerView,
    signer: AccountId,
    account: AccountId,
    call_hash: CallHash,
    when: Timepoint,
    call: Seq<u8>,
) -> (LedgerView, Event) {
    let (balances, result) = dispatched(pre.balances, account, call);
    let event = Event::MultisigExecuted {
        approving: signer,
        timepoint: when,
        multisig: account,
        call_hash,
        result,
    };
    (
        LedgerView {
            height: (pre.height + 1) as u32,
            operations: pre.operations.remove((account, call_hash)),
            balances,
            log: pre.log.push(event),
            ..pre
        },
        event,
    )
}

/// The ledger's rule for the call that opens an operation.
pub open spec fn initiated(
    pre: LedgerView,
    signer: AccountId,
    threshold: u16,
    others: Seq<AccountId>,
    call: Seq<u8>,
    max_weight: u64,
) -> (LedgerView, Result<Event, DispatchError>) {
    let account = shared_account(signer, others, threshold);
    let call_hash = call_hash_from(blake2_256_digest(call));
    let key = (account, call_hash);
    let now = next_timepoint(pre);
    if others.contains(signer) {
        (next_block(pre), Err(DispatchError::SenderInSignatories))
    } else if threshold == 0 {
        (next_block(pre), Err(DispatchError::MinimumThreshold))
    } else if pre.operations.dom().contains(key) {
        (next_block(pre), Err(DispatchError::NoTimepoint))
    } else if threshold == 1 {
        if max_weight < pre.dispatch_weight {
            (next_block(pre), Err(DispatchError::MaxWeightTooLow))
        } else {
            let (post, event) = executed(pre, signer, account, call_hash, now, call);
            (post, Ok(event))
        }
    } else {
        let event = Event::NewMultisig { approving: signer, multisig: account, call_hash };
        let stored = StoredView {
            call,
            record: PendingView {
                when: now,
                deposit: 0,
                depositor: signer,
                approvals: seq![signer],
            },
        };
        (
            LedgerView {
                height: (pre.height + 1) as u32,
                operations: pre.operations.insert(key, stored),
                log: pre.log.push(event),
                ..pre
            },
            Ok(event),
        )
    }
}

/// The ledger's rule for the call that approves an operation.
pub open spec fn approved(
    pre: LedgerView,
    signer: AccountId,
    threshold: u16,
    others: Seq<AccountId>,
    timepoint: Timepoint,
    call_hash: CallHash,
    max_weight: u64,
) -> (LedgerView, Result<Event, DispatchError>) {
    let account = shared_account(signer, others, threshold);
    let key = (account, call_hash);
    if others.contains(signer) {
        (next_block(pre), Err(DispatchError::SenderInSignatories))
    } else if threshold == 0 {
        (next_block(pre), Err(DispatchError::MinimumThreshold))
    } else if !pre.operations.dom().contains(key) {
        (next_block(pre), Err(DispatchError::NotFound))
    } else {
        let stored = pre.operations[key];
        if stored.record.when != timepoint {
            (next_block(pre), Err(DispatchError::WrongTimepoint))
        } else if stored.record.approvals.contains(signer) {
            (next_block(pre), Err(DispatchError::AlreadyApproved))
        } else if stored.record.approvals.len() + 1 >= threshold {
            if max_weight < pre.dispatch_weight {
                (next_block(pre), Err(DispatchError::MaxWeightTooLow))
            } else {
                let (post, event) = executed(
                    pre,
                    signer,
                    account,
                    call_hash,
                    timepoint,
                    stored.call,
                );
                (post, Ok(event))
            }
        } else {
            let event = Event::MultisigApproval {
                approving: signer,
                timepoint,
                multisig: account,
                call_hash,
            };
            let record = PendingView {
                approvals: stored.record.approvals.push(signer),
                ..stored.record
            };
            (
                LedgerView {
                    height: (pre.height + 1) as u32,
                    operations: pre.operations.insert(key, StoredView { record, ..stored }),
                    log: pre.log.push(event),
                    ..pre
                },
                Ok(event),
            )
        }
    }
}

/// The state after `signer` submitted `call` and the block that holds it
/// became final, and what the submission came to: the event that the
/// ledger emitted, or the reason for which it refused the call.
pub open spec fn submitted(pre: LedgerView, signer: AccountId, call: MultisigCallView) -> (
    LedgerView,
    Result<Event, DispatchError>,
) {
    match call {
        MultisigCallView::Initiate { threshold, other_signatories, call, max_weight } => initiated(
            pre,
            signer,
            threshold,
            other_signatories,
            call,
            max_weight,
        ),
        MultisigCallView::Approve {
            threshold,
            other_signatories,
            timepoint,
            call_hash,
            max_weight,
        } => approved(pre, signer, threshold, other_signatories, timepoint, call_hash, max_weight),
    }
}

/// The timepoint of the pending operation for the account and the hash.
pub open spec fn timepoint_at(state: LedgerView, account: AccountId, call_hash: CallHash)
    -> Option<Timepoint> {
    if state.operations.dom().contains((account, call_hash)) {
        Some(state.operations[(account, call_hash)].record.when)
    } else {
        None
    }
}

/// What the ledger's storage holds for the account and the hash.
pub open spec fn stored_bytes(state: LedgerView, account: AccountId, call_hash: CallHash)
    -> Option<Seq<u8>> {
    if state.operations.dom().contains((account, call_hash)) {
        Some(encoded_record(state.operations[(account, call_hash)].record))
    } else {
        None
    }
}

struct Stored {
    account: AccountId,
    call_hash: CallHash,
    call: Vec<u8>,
    record: PendingOperation,
}

impl View for Stored {
    type V = StoredView;

    closed spec fn view(&self) -> StoredView {
        StoredView { call: self.call@, record: self.record@ }
    }
}

#[derive(Clone, Copy)]
struct Holding {
    who: AccountId,
    free: u128,
}

spec fn pending_keys(p: Seq<Stored>) -> Seq<(AccountId, CallHash)> {
    p.map_values(|s: Stored| (s.account, s.call_hash))
}

spec fn pending_values(p: Seq<Stored>) -> Seq<StoredView> {
    p.map_values(|s: Stored| s@)
}

spec fn holding_keys(h: Seq<Holding>) -> Seq<AccountId> {
    h.map_values(|x: Holding| x.who)
}

spec fn holding_values(h: Seq<Holding>) -> Seq<u128> {
    h.map_values(|x: Holding| x.free)
}

/// An in-memory ledger.
pub struct Ledger {
    height: u32,
    dispatch_weight: u64,
    pending: Vec<Stored>,
    holdings: Vec<Holding>,
    log: Vec<Event>,
}

impl View for Ledger {
    type V = LedgerView;

    closed spec fn view(&self) -> LedgerView {
        LedgerView {
            height: self.height,
            dispatch_weight: self.dispatch_weight,
            operations: table(pending_keys(self.pending@), pending_values(self.pending@)),
            balances: table(holding_keys(self.holdings@), holding_values(self.holdings@)),
            log: self.log@,
        }
    }
}

impl Ledger {
    /// Whether the ledger keeps each operation and each balance once.
    pub closed spec fn wf(&self) -> bool {
        &&& pending_keys(self.pending@).no_duplicates()
        &&& holding_keys(self.holdings@).no_duplicates()
    }

    /// A ledger at block zero, with no balances and no operations, on which
    /// the dispatch of a wrapped call weighs `dispatch_weight`.
    pub fn new(dispatch_weight: u64) -> (ledger: Ledger)
        ensures
            ledger.wf(),
            ledger@ == genesis(dispatch_weight),
    {
        let ledger = Ledger {
            height: 0,
            dispatch_weight,
            pending: Vec::new(),
            holdings: Vec::new(),
            log: Vec::new(),
        };
        assert(ledger@.operations =~= Map::empty());
        assert(ledger@.balances =~= Map::empty());
        ledger
    }

    /// The number of the last finalized block.
    pub fn height(&self) -> (h: u32)
        ensures
            h == self@.height,
    {
        self.height
    }

    fn find_pending(&self, account: &AccountId, call_hash: &CallHash) -> (r: Option<usize>)
        ensures
            match r {
                Some(i) => i < self.pending@.len() && pending_keys(self.pending@)[i as int] == (
                    *account,
                    *call_hash,
                ),
                None => forall|i: int|
                    0 <= i < self.pending@.len() ==> pending_keys(self.pending@)[i] != (
                        *account,
                        *call_hash,
                    ),
            },
    {
        let mut i: usize = 0;
        while i < self.pending.len()
            invariant
                i <= self.pending@.len(),
                forall|k: int|
                    0 <= k < i ==> pending_keys(self.pending@)[k] != (*account, *call_hash),
            decreases self.pending.len() - i,
        {
            if self.pending[i].account.same(account) && self.pending[i].call_hash.same(call_hash) {
                return Some(i);
            }
            i = i + 1;
        }
        None
    }

    fn find_holding(&self, who: &AccountId) -> (r: Option<usize>)
        ensures
            match r {
                Some(i) => i < self.holdings@.len() && holding_keys(self.holdings@)[i as int]
                    == *who,
                None => forall|i: int|
                    0 <= i < self.holdings@.len() ==> holding_keys(self.holdings@)[i] != *who,
            },
    {
        let mut i: usize = 0;
        while i < self.holdings.len()
            invariant
                i <= self.holdings@.len(),
                forall|k: int| 0 <= k < i ==> holding_keys(self.holdings@)[k] != *who,
            decreases self.holdings.len() - i,
        {
            if self.holdings[i].who.same(who) {
                return Some(i);
            }
            i = i + 1;
        }
        None
    }

    /// The free balance of `who`.
    pub fn balance(&self, who: &AccountId) -> (free: u128)
        requires
            self.wf(),
        ensures
            free == balance_in(self@.balances, *who),
    {
        match self.find_holding(who) {
            Some(i) => {
                proof {
                    lemma_table_at(
                        holding_keys(self.holdings@),
                        holding_values(self.holdings@),
                        i as int,
                    );
                }
                self.holdings[i].free
            },
            None => {
                proof {
                    lemma_table_absent(
                        holding_keys(self.holdings@),
                        holding_values(self.holdings@),
                        *who,
                    );
                }
                0
            },
        }
    }

    /// Sets the free balance of `who`.
    pub fn endow(&mut self, who: &AccountId, free: u128)
        requires
            old(self).wf(),
        ensures
            final(self).wf(),
            final(self)@ == (LedgerView {
                balances: old(self)@.balances.insert(*who, free),
                ..old(self)@
            }),
    {
        let ghost keys = holding_keys(self.holdings@);
        let ghost values = holding_values(self.holdings@);
        match self.find_holding(who) {
            Some(i) => {
                self.holdings.set(i, Holding { who: *who, free });
                proof {
                    lemma_table_update(keys, values, i as int, free);
                    assert(holding_keys(self.holdings@) =~= keys);
                    assert(holding_values(self.holdings@) =~= values.update(i as int, free));
                }
            },
            None => {
                self.holdings.push(Holding { who: *who, free });
                proof {
                    lemma_table_push(keys, values, *who, free);
                    assert(holding_keys(self.holdings@) =~= keys.push(*who));
                    assert(holding_values(self.holdings@) =~= values.push(free));
                }
            },
        }
    }

    /// The record of the pending operation for the account and the hash.
    pub fn pending_operation(&self, account: &AccountId, call_hash: &CallHash) -> (r: Option<
        PendingOperation,
    >)
        requires
            self.wf(),
        ensures
            match r {
                Some(op) => self@.operations.dom().contains((*account, *call_hash))
                    && self@.operations[(*account, *call_hash)].record == op@,
                None => !self@.operations.dom().contains((*account, *call_hash)),
            },
    {
        let ghost keys = pending_keys(self.pending@);
        let ghost values = pending_values(self.pending@);
        match self.find_pending(account, call_hash) {
            Some(i) => {
                proof {
                    lemma_table_at(keys, values, i as int);
                }
                let record = &self.pending[i].record;
                Some(
                    PendingOperation {
                        when: record.when,
                        deposit: record.deposit,
                        depositor: record.depositor,
                        approvals: copy_accounts(&record.approvals),
                    },
                )
            },
            None => {
                proof {
                    lemma_table_absent(keys, values, (*account, *call_hash));
                }
                None
            },
        }
    }

    /// What storage holds for the account and the hash: the stored record of
    /// the pending operation, or nothing.
    pub fn query_storage(&self, account: &AccountId, call_hash: &CallHash) -> (r: Option<Vec<u8>>)
        requires
            self.wf(),
        ensures
            match r {
                Some(bytes) => stored_bytes(self@, *account, *call_hash) == Some(bytes@),
                None => stored_bytes(self@, *account, *call_hash) is None,
            },
    {
        match self.pending_operation(account, call_hash) {
            Some(op) => Some(op.encode()),
            None => None,
        }
    }

    /// The number of events finalized so far.
    pub fn event_count(&self) -> (n: usize)
        ensures
            n == self@.log.len(),
    {
        self.log.len()
    }

    /// The finalized event at position `at` of the stream, as the stream
    /// hands it out; `None` past the last event.
    pub fn finalized_event(&self, at: usize) -> (r: Option<RawEvent>)
        ensures
            match r {
                Some(raw) => {
                    &&& at < self@.log.len()
                    &&& raw@ == encoded_event(self@.log[at as int])
                    &&& decoded(raw@) == Some(self@.log[at as int])
                },
                None => at >= self@.log.len(),
            },
    {
        if at < self.log.len() {
            Some(self.log[at].encode())
        } else {
            None
        }
    }

    fn dispatch(&mut self, origin: &AccountId, call: &[u8]) -> (result: DispatchOutcome)
        requires
            old(self).wf(),
        ensures
            final(self).wf(),
            final(self)@ == (LedgerView {
                balances: dispatched(old(self)@.balances, *origin, call@).0,
                ..old(self)@
            }),
            result == dispatched(old(self)@.balances, *origin, call@).1,
    {
        match Call::decode(call) {
            None => DispatchOutcome::Failure(DispatchError::Other),
            Some(Call::Remark { .. }) => DispatchOutcome::Success,
            Some(Call::Transfer { dest, value }) => {
                let have = self.balance(origin);
                let there = self.balance(&dest);
                if have < value {
                    DispatchOutcome::Failure(DispatchError::InsufficientBalance)
                } else if dest.same(origin) {
                    DispatchOutcome::Success
                } else if there > u128::MAX - value {
                    DispatchOutcome::Failure(DispatchError::Other)
                } else {
                    self.endow(origin, have - value);
                    self.endow(&dest, there + value);
                    DispatchOutcome::Success
                }
            },
        }
    }

    fn execute(
        &mut self,
        signer: &AccountId,
        account: AccountId,
        call_hash: CallHash,
        when: Timepoint,
        call: &[u8],
    ) -> (event: Event)
        requires
            old(self).wf(),
            !old(self)@.operations.dom().contains((account, call_hash)),
        ensures
            final(self).wf(),
            final(self)@ == (LedgerView {
                height: old(self)@.height,
                ..executed(old(self)@, *signer, account, call_hash, when, call@).0
            }),
            event == executed(old(self)@, *signer, account, call_hash, when, call@).1,
    {
        let result = self.dispatch(&account, call);
        let event = Event::MultisigExecuted {
            approving: *signer,
            timepoint: when,
            multisig: account,
            call_hash,
            result,
        };
        self.log.push(event);
        assert(old(self)@.operations.remove((account, call_hash)) =~= old(self)@.operations);
        event
    }

    fn shared(signer: &AccountId, others: &Vec<AccountId>, threshold: u16) -> (account: AccountId)
        ensures
            account == shared_account(*signer, others@, threshold),
    {
        let mut all = copy_accounts(others);
        all.push(*signer);
        let account = derivation::derive(&all, threshold);
        proof {
            lemma_account_of(account);
        }
        account
    }

    fn remove_pending(&mut self, at: usize) -> (stored: Stored)
        requires
            old(self).wf(),
            at < old(self).pending@.len(),
        ensures
            final(self).wf(),
            stored == old(self).pending@[at as int],
            final(self)@ == (LedgerView {
                operations: old(self)@.operations.remove(
                    (old(self).pending@[at as int].account, old(self).pending@[at as int].call_hash),
                ),
                ..old(self)@
            }),
    {
        let ghost keys = pending_keys(self.pending@);
        let ghost values = pending_values(self.pending@);
        let stored = self.pending.remove(at);
        proof {
            lemma_table_remove(keys, values, at as int);
            assert(pending_keys(self.pending@) =~= keys.remove(at as int));
            assert(pending_values(self.pending@) =~= values.remove(at as int));
        }
        stored
    }

    fn insert_pending(&mut self, stored: Stored)
        requires
            old(self).wf(),
            !old(self)@.operations.dom().contains((stored.account, stored.call_hash)),
        ensures
            final(self).wf(),
            final(self)@ == (LedgerView {
                operations: old(self)@.operations.insert(
                    (stored.account, stored.call_hash),
                    stored@,
                ),
                ..old(self)@
            }),
    {
        let ghost keys = pending_keys(self.pending@);
        let ghost values = pending_values(self.pending@);
        let ghost key = (stored.account, stored.call_hash);
        let ghost value = stored@;
        proof {
            if keys.contains(key) {
                let i = choose|i: int| 0 <= i < keys.len() && keys[i] == key;
                lemma_table_at(keys, values, i);
            }
            lemma_table_push(keys, values, key, value);
        }
        self.pending.push(stored);
        proof {
            assert(pending_keys(self.pending@) =~= keys.push(key));
            assert(pending_values(self.pending@) =~= values.push(value));
        }
    }

    /// Takes `call` from `signer` into the next block and finalizes it: the
    /// event that the ledger emitted, or the reason for which it refused.
    pub fn submit(&mut self, signer: &AccountId, call: &MultisigCall) -> (r: Result<
        Event,
        DispatchError,
    >)
        requires
            old(self).wf(),
            old(self)@.height < u32::MAX,
        ensures
            final(self).wf(),
            (final(self)@, r) == submitted(old(self)@, *signer, call@),
    {
        let now = Timepoint { height: self.height + 1, index: 0 };
        let r = match call {
            MultisigCall::Initiate { threshold, other_signatories, call, max_weight } => {
                self.initiate(signer, *threshold, other_signatories, call.bytes.as_slice(), *max_weight, now)
            },
            MultisigCall::Approve {
                threshold,
                other_signatories,
                timepoint,
                call_hash,
                max_weight,
            } => self.approve(signer, *threshold, other_signatories, *timepoint, *call_hash, *max_weight),
        };
        self.height = self.height + 1;
        r
    }

    fn initiate(
        &mut self,
        signer: &AccountId,
        threshold: u16,
        others: &Vec<AccountId>,
        call: &[u8],
        max_weight: u64,
        now: Timepoint,
    ) -> (r: Result<Event, DispatchError>)
        requires
            old(self).wf(),
            now == next_timepoint(old(self)@),
        ensures
            final(self).wf(),
            final(self)@ == (LedgerView {
                height: old(self)@.height,
                ..initiated(old(self)@, *signer, threshold, others@, call@, max_weight).0
            }),
            r == initiated(old(self)@, *signer, threshold, others@, call@, max_weight).1,
    {
        if contains(others, signer) {
            return Err(DispatchError::SenderInSignatories);
        }
        if threshold == 0 {
            return Err(DispatchError::MinimumThreshold);
        }
        let account = Ledger::shared(signer, others, threshold);
        let call_hash = crate::call::hash(call);
        proof {
            lemma_call_hash_from(call_hash);
        }
        let ghost keys = pending_keys(self.pending@);
        let ghost values = pending_values(self.pending@);
        match self.find_pending(&account, &call_hash) {
            Some(i) => {
                proof {
                    lemma_table_at(keys, values, i as int);
                }
                return Err(DispatchError::NoTimepoint);
            },
            None => {
                proof {
                    lemma_table_absent(keys, values, (account, call_hash));
                }
            },
        }
        if threshold == 1 {
            if max_weight < self.dispatch_weight {
                return Err(DispatchError::MaxWeightTooLow);
            }
            let event = self.execute(signer, account, call_hash, now, call);
            Ok(event)
        } else {
            let mut approvals: Vec<AccountId> = Vec::new();
            approvals.push(*signer);
            assert(approvals@ =~= seq![*signer]);
            let stored = Stored {
                account,
                call_hash,
                call: copy_range(call, 0, call.len()),
                record: PendingOperation { when: now, deposit: 0, depositor: *signer, approvals },
            };
            assert(stored.call@ =~= call@);
            self.insert_pending(stored);
            let event = Event::NewMultisig { approving: *signer, multisig: account, call_hash };
            self.log.push(event);
            Ok(event)
        }
    }

    fn approve(
        &mut self,
        signer: &AccountId,
        threshold: u16,
        others: &Vec<AccountId>,
        timepoint: Timepoint,
        call_hash: CallHash,
        max_weight: u64,
    ) -> (r: Result<Event, DispatchError>)
        requires
            old(self).wf(),
        ensures
            final(self).wf(),
            final(self)@ == (LedgerView {
                height: old(self)@.height,
                ..approved(
                    old(self)@,
                    *signer,
                    threshold,
                    others@,
                    timepoint,
                    call_hash,
                    max_weight,
                ).0
            }),
            r == approved(
                old(self)@,
                *signer,
                threshold,
                others@,
                timepoint,
                call_hash,
                max_weight,
            ).1,
    {
        if contains(others, signer) {
            return Err(DispatchError::SenderInSignatories);
        }
        if threshold == 0 {
            return Err(DispatchError::MinimumThreshold);
        }
        let account = Ledger::shared(signer, others, threshold);
        let ghost keys = pending_keys(self.pending@);
        let ghost values = pending_values(self.pending@);
        let at = match self.find_pending(&account, &call_hash) {
            Some(i) => {
                proof {
                    lemma_table_at(keys, values, i as int);
                }
                i
            },
            None => {
                proof {
                    lemma_table_absent(keys, values, (account, call_hash));
                }
                return Err(DispatchError::NotFound);
            },
        };
        if self.pending[at].record.when != timepoint {
            return Err(DispatchError::WrongTimepoint);
        }
        if contains(&self.pending[at].record.approvals, signer) {
            return Err(DispatchError::AlreadyApproved);
        }
        let reached = self.pending[at].record.approvals.len() >= threshold as usize - 1;
        if reached && max_weight < self.dispatch_weight {
            return Err(DispatchError::MaxWeightTooLow);
        }
        let ghost before = old(self)@.operations;
        let ghost key = (account, call_hash);
        let mut stored = self.remove_pending(at);
        assert(stored@ == before[key]);
        if reached {
            let event = self.execute(signer, account, call_hash, timepoint, stored.call.as_slice());
            assert(before.remove(key).remove(key) =~= before.remove(key));
            Ok(event)
        } else {
            stored.record.approvals.push(*signer);
            let ghost after = stored@;
            assert(after == (StoredView {
                record: PendingView {
                    approvals: before[key].record.approvals.push(*signer),
                    ..before[key].record
                },
                ..before[key]
            }));
            self.insert_pending(stored);
            assert(before.remove(key).insert(key, after) =~= before.insert(key, after));
            let event = Event::MultisigApproval {
                approving: *signer,
                timepoint,
                multisig: account,
                call_hash,
            };
            self.log.push(event);
            Ok(event)
        }
    }
}

/// A place in the finalized-event stream: what was final before the
/// subscription opened is behind it and is not replayed.
pub struct Subscription {
    next: usize,
}

impl Subscription {
    /// The number of events of the stream that lie behind this place.
    pub closed spec fn position(&self) -> nat {
        self.next as nat
    }

    /// The next finalized event, if one has come since the last.
    pub fn poll(&mut self, ledger: &Ledger) -> (r: Option<RawEvent>)
        ensures
            match r {
                Some(raw) => {
                    &&& old(self).position() < ledger@.log.len()
                    &&& raw@ == encoded_event(ledger@.log[old(self).position() as int])
                    &&& decoded(raw@) == Some(ledger@.log[old(self).position() as int])
                    &&& final(self).position() == old(self).position() + 1
                },
                None => old(self).position() >= ledger@.log.len() && final(self).position() == old(
                    self,
                ).position(),
            },
    {
        if self.next < ledger.event_count() {
            let r = ledger.finalized_event(self.next);
            self.next = self.next + 1;
            r
        } else {
            None
        }
    }

    /// Consumes the events that have come until one is waited for. `None`
    /// when they are used up and none of them was.
    pub fn wait(&mut self, ledger: &Ledger, wanted: &Wanted) -> (r: Option<Event>)
        ensures
            old(self).position() <= final(self).position(),
            forall|j: int|
                old(self).position() <= j < final(self).position() - 1 && j < ledger@.log.len()
                    ==> !satisfies(*wanted, #[trigger] ledger@.log[j]),
            match r {
                Some(e) => {
                    &&& final(self).position() <= ledger@.log.len()
                    &&& old(self).position() < final(self).position()
                    &&& e == ledger@.log[final(self).position() - 1]
                    &&& satisfies(*wanted, e)
                },
                None => {
                    &&& final(self).position() >= ledger@.log.len()
                    &&& forall|j: int|
                        old(self).position() <= j < ledger@.log.len() ==> !satisfies(
                            *wanted,
                            #[trigger] ledger@.log[j],
                        )
                },
            },
    {
        loop
            invariant
                old(self).position() <= self.position(),
                forall|j: int|
                    old(self).position() <= j < self.position() && j < ledger@.log.len()
                        ==> !satisfies(*wanted, #[trigger] ledger@.log[j]),
            decreases ledger@.log.len() - self.position(),
        {
            let arrival = match self.poll(ledger) {
                Some(raw) => Arrival::Event(raw),
                None => {
                    return None;
                },
            };
            match wait_step(wanted, &arrival) {
                WaitStep::Found(e) => {
                    return Some(e);
                },
                _ => {},
            }
        }
    }
}

impl Ledger {
    /// Opens a subscription to the events that become final from now on.
    pub fn subscribe_finalized(&self) -> (sub: Subscription)
        ensures
            sub.position() == self@.log.len(),
    {
        Subscription { next: self.log.len() }
    }

    /// Opens a subscription that starts with the first event ever finalized.
    pub fn subscribe_from_genesis(&self) -> (sub: Subscription)
        ensures
            sub.position() == 0,
    {
        Subscription { next: 0 }
    }
}

} // verus!
