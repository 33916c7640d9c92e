//! What can go wrong, and where it was found out.

use vstd::prelude::*;
use crate::layout::{
    BALANCES_PALLET, ERROR_BAD_ORIGIN, ERROR_MODULE, ERROR_OTHER, MULTISIG_PALLET,
};

verus! {

/// Why a participant set was turned down before anything was sent.
#[derive(Clone, Copy, Debug, PartialEq, Eq, Structural)]
pub enum InvalidReason {
    /// The signer is listed among the other signatories.
    SignerAmongOthers,
    /// The threshold is zero or exceeds the number of participants.
    ThresholdOutOfRange,
    /// There are more participants than the ledger admits.
    TooManySignatories,
}

/// Why the ledger refused a call, or failed the call it dispatched.
#[derive(Clone, Copy, Debug, PartialEq, Eq, Structural)]
pub enum DispatchError {
    /// The origin may not make this call.
    BadOrigin,
    /// An account holds too little for what the call moves.
    InsufficientBalance,
    /// The threshold is below what the ledger accepts.
    MinimumThreshold,
    /// The signer has approved this operation before.
    AlreadyApproved,
    /// The signer is listed among the other signatories.
    SenderInSignatories,
    /// No pending operation has this account and call hash.
    NotFound,
    /// The operation exists, and the call named no timepoint.
    NoTimepoint,
    /// The operation was created at another timepoint than the call names.
    WrongTimepoint,
    /// The call names a timepoint, and no such operation exists.
    UnexpectedTimepoint,
    /// The weight allowed is less than the call needs.
    MaxWeightTooLow,
    /// Any other refusal.
    Other,
}

/// The errors of this library.
#[derive(Clone, Copy, Debug, PartialEq, Eq, Structural)]
pub enum Error {
    /// The participants or the threshold are not acceptable; nothing was sent.
    InvalidParticipantSet(InvalidReason),
    /// The submission did not reach a block.
    SubmissionFailed,
    /// The ledger included the submission and rejected it.
    DispatchFailed(DispatchError),
    /// No pending operation matches the account, call hash and timepoint.
    OperationNotFound,
    /// The event stream ended.
    SubscriptionClosed,
    /// The caller's time limit passed.
    Timeout,
}

/// The error that a pallet's index and an error's index within it name.
pub open spec fn module_error(pallet: u8, error: u8) -> DispatchError {
    if pallet == BALANCES_PALLET && error == 2 {
        DispatchError::InsufficientBalance
    } else if pallet == MULTISIG_PALLET && error == 0 {
        DispatchError::MinimumThreshold
    } else if pallet == MULTISIG_PALLET && error == 1 {
        DispatchError::AlreadyApproved
    } else if pallet == MULTISIG_PALLET && error == 6 {
        DispatchError::SenderInSignatories
    } else if pallet == MULTISIG_PALLET && error == 7 {
        DispatchError::NotFound
    } else if pallet == MULTISIG_PALLET && error == 9 {
        DispatchError::NoTimepoint
    } else if pallet == MULTISIG_PALLET && error == 10 {
        DispatchError::WrongTimepoint
    } else if pallet == MULTISIG_PALLET && error == 11 {
        DispatchError::UnexpectedTimepoint
    } else if pallet == MULTISIG_PALLET && error == 12 {
        DispatchError::MaxWeightTooLow
    } else {
        DispatchError::Other
    }
}

/// The error that the ledger's bytes tell: a bad origin, a pallet's error
/// by its two indices (whatever follows them), or, for all else, `Other`.
pub open spec fn classified(bytes: Seq<u8>) -> DispatchError {
    if bytes.len() >= 1 && bytes[0] == ERROR_BAD_ORIGIN {
        DispatchError::BadOrigin
    } else if bytes.len() >= 3 && bytes[0] == ERROR_MODULE {
        module_error(bytes[1], bytes[2])
    } else {
        DispatchError::Other
    }
}

/// An error as this library writes it: a pallet's error by the module tag
/// and its two indices, the others by their tag alone.
pub open spec fn encoded_error(e: DispatchError) -> Seq<u8> {
    match e {
        DispatchError::BadOrigin => seq![ERROR_BAD_ORIGIN],
        DispatchError::Other => seq![ERROR_OTHER],
        DispatchError::InsufficientBalance => seq![ERROR_MODULE, BALANCES_PALLET, 2u8],
        DispatchError::MinimumThreshold => seq![ERROR_MODULE, MULTISIG_PALLET, 0u8],
        DispatchError::AlreadyApproved => seq![ERROR_MODULE, MULTISIG_PALLET, 1u8],
        DispatchError::SenderInSignatories => seq![ERROR_MODULE, MULTISIG_PALLET, 6u8],
        DispatchError::NotFound => seq![ERROR_MODULE, MULTISIG_PALLET, 7u8],
        DispatchError::NoTimepoint => seq![ERROR_MODULE, MULTISIG_PALLET, 9u8],
        DispatchError::WrongTimepoint => seq![ERROR_MODULE, MULTISIG_PALLET, 10u8],
        DispatchError::UnexpectedTimepoint => seq![ERROR_MODULE, MULTISIG_PALLET, 11u8],
        DispatchError::MaxWeightTooLow => seq![ERROR_MODULE, MULTISIG_PALLET, 12u8],
    }
}

/// Every error reads back from its written form.
pub proof fn lemma_classified_encoded(e: DispatchError)
    ensures
        classified(encoded_error(e)) == e,
        1 <= encoded_error(e).len() <= 3,
{
}

impl DispatchError {
    /// The error that a pallet's index and an error's index within it name.
    pub fn from_module(pallet: u8, error: u8) -> (e: DispatchError)
        ensures
            e == module_error(pallet, error),
    {
        if pallet == BALANCES_PALLET && error == 2 {
            DispatchError::InsufficientBalance
        } else if pallet == MULTISIG_PALLET {
            match error {
                0 => DispatchError::MinimumThreshold,
                1 => DispatchError::AlreadyApproved,
                6 => DispatchError::SenderInSignatories,
                7 => DispatchError::NotFound,
                9 => DispatchError::NoTimepoint,
                10 => DispatchError::WrongTimepoint,
                11 => DispatchError::UnexpectedTimepoint,
                12 => DispatchError::MaxWeightTooLow,
                _ => DispatchError::Other,
            }
        } else {
            DispatchError::Other
        }
    }

    /// The error that the bytes of `input` from `pos` on tell.
    pub fn classify(input: &[u8], pos: usize) -> (e: DispatchError)
        requires
            pos <= input@.len(),
        ensures
            e == classified(input@.skip(pos as int)),
    {
        let left = input.len() - pos;
        if left >= 1 && input[pos] == ERROR_BAD_ORIGIN {
            DispatchError::BadOrigin
        } else if left >= 3 && input[pos] == ERROR_MODULE {
            DispatchError::from_module(input[pos + 1], input[pos + 2])
        } else {
            DispatchError::Other
        }
    }

    /// Appends the error in written form.
    pub fn put(&self, out: &mut Vec<u8>)
        ensures
            final(out)@ == old(out)@ + encoded_error(*self),
    {
        let (pallet, index): (u8, u8) = match self {
            DispatchError::BadOrigin => {
                out.push(ERROR_BAD_ORIGIN);
                assert(out@ =~= old(out)@ + encoded_error(*self));
                return ;
            },
            DispatchError::Other => {
                out.push(ERROR_OTHER);
                assert(out@ =~= old(out)@ + encoded_error(*self));
                return ;
            },
            DispatchError::InsufficientBalance => (BALANCES_PALLET, 2),
            DispatchError::MinimumThreshold => (MULTISIG_PALLET, 0),
            DispatchError::AlreadyApproved => (MULTISIG_PALLET, 1),
            DispatchError::SenderInSignatories => (MULTISIG_PALLET, 6),
            DispatchError::NotFound => (MULTISIG_PALLET, 7),
            DispatchError::NoTimepoint => (MULTISIG_PALLET, 9),
            DispatchError::WrongTimepoint => (MULTISIG_PALLET, 10),
            DispatchError::UnexpectedTimepoint => (MULTISIG_PALLET, 11),
            DispatchError::MaxWeightTooLow => (MULTISIG_PALLET, 12),
        };
        out.push(ERROR_MODULE);
        out.push(pallet);
        out.push(index);
        assert(out@ =~= old(out)@ + encoded_error(*self));
    }
}

} // verus!
