//! Coordination of M-of-N multisignature operations on an account-based
//! ledger: account derivation, canonical call encoding and hashing, the
//! lifecycle of a pending operation, and the finalized-event stream.

pub mod account;
pub mod call;
pub mod codec;
pub mod coordinator;
pub mod derivation;
pub mod error;
pub mod events;
pub mod hashing;
pub mod laws;
pub mod layout;
pub mod ledger;
pub mod lifecycle;
pub mod multisig;
pub mod participants;
pub mod subscriber;
pub mod table;
