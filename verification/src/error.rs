//! The ways in which a request to the ledger is turned down.

use vstd::prelude::*;

verus! {

/// A request that is refused for what it asks, before the ledger is touched.
#[derive(Clone, Copy, Debug, PartialEq, Eq, Structural)]
pub enum ValidationError {
    /// An offer below the cost of storing it.
    OfferTooSmall,
    /// A donation of nothing.
    EmptyDonation,
    /// A written amount that is not a decimal number.
    MalformedAmount,
    /// An amount beyond what the ledger can count.
    AmountTooLarge,
}

/// Why the ledger turned a request down. The ledger is unchanged whenever one
/// of these is returned.
#[derive(Clone, Copy, Debug, PartialEq, Eq, Structural)]
pub enum LedgerError {
    /// The request itself is not acceptable.
    Validation(ValidationError),
    /// Nobody has funds committed to the recipient.
    NoSuchRecipient,
    /// The recipient has matchers, but this account is not among them.
    NoSuchMatcher,
}

} // verus!
