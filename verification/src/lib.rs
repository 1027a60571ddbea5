//! An escrow ledger for donation matching.
//!
//! Matchers pledge capped funds toward a recipient. A donation to that
//! recipient is forwarded together with a matching share of every pledge, and
//! each pledge shrinks by the share that was used. A matcher may also take an
//! unused pledge back. Every operation that releases funds updates the ledger
//! first and hands the caller a transfer to perform; when the transfer is
//! reported as failed, the ledger is put back as it was.

pub mod account;
pub mod account_map;
pub mod contract;
pub mod error;
pub mod generic;
pub mod ledger;
pub mod matchers;
pub mod messages;

pub use crate::account::AccountId;
pub use crate::contract::{
    Contract, Donation, PendingTransfer, Rescission, Transfer, GAS_FOR_ACCOUNT_CALLBACK,
    STORAGE_COST,
};
pub use crate::error::{LedgerError, ValidationError};
pub use crate::generic::Amount;
pub use crate::matchers::MatcherAmountMap;
