//! The indices by which the ledger's runtime names its pallets, and their
//! calls, events and errors, on the wire.

use vstd::prelude::*;

verus! {

/// Index of the system pallet.
pub const SYSTEM_PALLET: u8 = 0;

/// Index of the remark call within the system pallet.
pub const REMARK_CALL: u8 = 1;

/// Index of the balances pallet.
pub const BALANCES_PALLET: u8 = 5;

/// Index of the transfer call within the balances pallet.
pub const TRANSFER_CALL: u8 = 0;

/// Tag of an address given as a plain account identifier.
pub const ADDRESS_ID: u8 = 0;

/// Index of the multisig pallet.
pub const MULTISIG_PALLET: u8 = 30;

/// The most participants, the signer among them, that the ledger admits in one set.
pub const MAX_SIGNATORIES: usize = 100;

/// Index, within the multisig pallet, of the call that carries the whole wrapped call.
pub const AS_MULTI_CALL: u8 = 1;

/// Index, within the multisig pallet, of the call that approves by hash.
pub const APPROVE_AS_MULTI_CALL: u8 = 2;

/// Index of the event that reports a new operation.
pub const NEW_MULTISIG_EVENT: u8 = 0;

/// Index of the event that reports an approval short of the threshold.
pub const MULTISIG_APPROVAL_EVENT: u8 = 1;

/// Index of the event that reports the dispatch of the wrapped call.
pub const MULTISIG_EXECUTED_EVENT: u8 = 2;

/// Index of the event that reports a cancelled operation.
pub const MULTISIG_CANCELLED_EVENT: u8 = 3;

/// Tag of a dispatch error without further detail.
pub const ERROR_OTHER: u8 = 0;

/// Tag of the dispatch error for a bad origin.
pub const ERROR_BAD_ORIGIN: u8 = 2;

/// Tag of a dispatch error raised by a pallet: the pallet's index and the
/// error's index within the pallet follow.
pub const ERROR_MODULE: u8 = 3;

} // verus!
