//! The ledger in escrow, and the protocol around the transfers that leave it.
//!
//! Whatever releases funds changes the ledger first and hands back the
//! transfer that the host is to make, together with what the ledger held
//! before. When the host reports how the transfer went, the continuation
//! leaves the ledger as it is after a success and puts the earlier amounts
//! back after a failure.

use crate::account::{lemma_precedes_transitive, name_precedes, AccountId};
use crate::account_map::{lemma_listing_prefix, listing_map, AccountMap};
use crate::error::{LedgerError, ValidationError};
use crate::generic::{near_string_to_yocto, read_near, Amount, FormattedNearString};
use crate::ledger::{
    all_positive, commitment_of, donation_total, is_listing_of, ledger_after_donation,
    law_matched_total_bounded, ledger_put, ledger_restore, ledger_set, ledger_wf,
    lemma_donation_step, lemma_listing_of, lemma_matched_total_grows, lemma_restore_nothing,
    lemma_restore_step, listing_of, matched_total, pledges_after_donation, pledges_of,
    rescinded_amount, Ledger,
};
use crate::matchers::MatcherAmountMap;
use crate::messages::{
    commitments_json, offer_message, rescind_message, write_commitments_json,
    write_offer_message, write_rescind_message,
};
use vstd::prelude::*;

verus! {

/// What an offer has to reach: the cost of storing it.
pub const STORAGE_COST: Amount = 1_000_000_000_000_000_000_000;

/// The gas that the host is to set aside for a continuation.
pub const GAS_FOR_ACCOUNT_CALLBACK: u64 = 20_000_000_000_000;

/// A transfer out of escrow that the host is asked to make.
#[derive(Debug, PartialEq, Eq)]
pub struct Transfer {
    pub destination: AccountId,
    pub amount: Amount,
}

/// What a rescission leaves to be settled: the transfer is on its way, and
/// `original_amount` is what the matcher held before.
#[derive(Debug, PartialEq, Eq)]
pub struct PendingTransfer {
    pub recipient: AccountId,
    pub matcher: AccountId,
    pub amount_transferred: Amount,
    pub original_amount: Amount,
}

/// What a rescission comes to.
#[derive(Debug, PartialEq, Eq)]
pub struct Rescission {
    /// What the matcher is told.
    pub message: String,
    /// The transfer back to the matcher.
    pub transfer: Transfer,
    /// What the continuation needs.
    pub pending: PendingTransfer,
}

/// What a donation comes to: the transfer to the recipient, and what the
/// continuation needs to put the pledges back.
#[derive(Debug)]
pub struct Donation {
    /// The transfer of the donation and of what matches it.
    pub transfer: Transfer,
    /// What the donor gave.
    pub donation_amount: Amount,
    /// What each matcher held before the donation.
    pub original_commitments: MatcherAmountMap,
}

/// The ledger of the escrow: for each recipient the pledges toward it, for
/// each matcher among them what it still commits. A commitment that falls
/// to zero leaves the ledger at once, and so does a recipient whose last
/// commitment has left; a recipient without pledges and a recipient that
/// the ledger has never seen are the same to it.
#[derive(Debug)]
pub struct Contract {
    recipients: AccountMap<MatcherAmountMap>,
}

/// Why an offer is refused, if it is.
pub open spec fn offer_refusal(
    ledger: Ledger,
    recipient: Seq<char>,
    matcher: Seq<char>,
    amount: Amount,
) -> Option<LedgerError> {
    if amount < STORAGE_COST {
        Some(LedgerError::Validation(ValidationError::OfferTooSmall))
    } else if commitment_of(ledger, recipient, matcher) + amount > u128::MAX {
        Some(LedgerError::Validation(ValidationError::AmountTooLarge))
    } else {
        None
    }
}

/// What looking up a commitment that is expected to exist comes to.
pub open spec fn expected_commitment(
    ledger: Ledger,
    recipient: Seq<char>,
    matcher: Seq<char>,
) -> Result<Amount, LedgerError> {
    if !ledger.contains_key(recipient) {
        Err(LedgerError::NoSuchRecipient)
    } else if !ledger[recipient].contains_key(matcher) {
        Err(LedgerError::NoSuchMatcher)
    } else {
        Ok(ledger[recipient][matcher])
    }
}

/// Why a rescission is refused, if it is: there must be a commitment, and
/// the amount asked for must be readable.
pub open spec fn rescind_refusal(
    ledger: Ledger,
    recipient: Seq<char>,
    matcher: Seq<char>,
    requested: Seq<char>,
) -> Option<LedgerError> {
    match expected_commitment(ledger, recipient, matcher) {
        Err(e) => Some(e),
        Ok(_) => match read_near(requested) {
            Err(e) => Some(LedgerError::Validation(e)),
            Ok(_) => None,
        },
    }
}

/// Why a donation is refused, if it is.
pub open spec fn donation_refusal(ledger: Ledger, recipient: Seq<char>, amount: Amount) -> Option<
    LedgerError,
> {
    if amount == 0 {
        Some(LedgerError::Validation(ValidationError::EmptyDonation))
    } else if donation_total(ledger, recipient, amount) > u128::MAX {
        Some(LedgerError::Validation(ValidationError::AmountTooLarge))
    } else {
        None
    }
}

/// What a query for the pledges toward `recipient` answers: the pledges as
/// a JSON object, in the order of the matchers' names.
pub open spec fn commitments_answer(ledger: Ledger, recipient: Seq<char>) -> Seq<char> {
    commitments_json(listing_of(pledges_of(ledger, recipient)))
}

/// A query that is repeated gives the same answer: the answer is made of
/// the ledger and the recipient and of nothing else, so two answers to one
/// question about one ledger are the same text.
pub proof fn law_query_repeats(
    contract: Contract,
    recipient: Seq<char>,
    first: Seq<char>,
    second: Seq<char>,
)
    requires
        contract.wf(),
        first == commitments_answer(contract@, recipient),
        second == commitments_answer(contract@, recipient),
    ensures
        first == second,
{
}

/// Two queries about one recipient, with no change of the ledger between
/// them, give the same text: whatever two calls of `get_commitments` on one
/// ledger may return for one name, they return the same.
pub proof fn law_query_is_idempotent(
    contract: Contract,
    recipient: AccountId,
    again: AccountId,
    first: String,
    second: String,
)
    requires
        contract.wf(),
        recipient@ == again@,
        call_ensures(Contract::get_commitments, (&contract, recipient), first),
        call_ensures(Contract::get_commitments, (&contract, again), second),
    ensures
        first@ == second@,
{
}

impl View for Contract {
    type V = Ledger;

    closed spec fn view(&self) -> Ledger {
        Map::new(
            |r: Seq<char>| self.recipients@.contains_key(r),
            |r: Seq<char>| self.recipients@[r]@,
        )
    }
}

impl Contract {
    /// The recipients are listed in order, each with pledges that are well
    /// formed and not empty.
    pub closed spec fn wf(&self) -> bool {
        &&& self.recipients.wf()
        &&& forall|r: Seq<char>| #[trigger]
            self.recipients@.contains_key(r) ==> self.recipients@[r].wf()
                && self.recipients@[r].listing().len() > 0
    }

    /// A well-formed value holds a well-formed ledger: no recipient without
    /// pledges and no pledge of zero. The pledges toward each recipient can
    /// be listed, so they are finitely many.
    pub proof fn lemma_wf(&self)
        requires
            self.wf(),
        ensures
            ledger_wf(self@),
            forall|r: Seq<char>| #[trigger]
                is_listing_of(listing_of(pledges_of(self@, r)), pledges_of(self@, r)),
    {
        assert forall|r: Seq<char>| #[trigger] self@.contains_key(r) implies !self@[r].is_empty()
            && all_positive(self@[r]) by {
            self.recipients@[r].lemma_wf();
        }
        assert forall|r: Seq<char>| #[trigger]
            is_listing_of(listing_of(pledges_of(self@, r)), pledges_of(self@, r)) by {
            if self@.contains_key(r) {
                self.recipients@[r].lemma_wf();
                lemma_listing_of(self.recipients@[r].listing(), self@[r]);
            } else {
                let none = Seq::<(Seq<char>, Amount)>::empty();
                assert(listing_map(none) =~= Map::<Seq<char>, Amount>::empty());
                lemma_listing_of(none, Map::empty());
            }
        }
    }

    /// In every state of the ledger, what the matchers add to a donation is
    /// at most the donation for each matcher that has a commitment to the
    /// recipient.
    pub proof fn law_matched_sum_bounded(&self, recipient: Seq<char>, donation: Amount)
        requires
            self.wf(),
        ensures
            pledges_of(self@, recipient).dom().finite(),
            donation_total(self@, recipient, donation) - donation <= donation * pledges_of(
                self@,
                recipient,
            ).dom().len(),
    {
        self.lemma_wf();
        let pledges = pledges_of(self@, recipient);
        lemma_listing_of(listing_of(pledges), pledges);
        law_matched_total_bounded(listing_of(pledges), donation);
    }

    /// A ledger without commitments.
    pub fn new() -> (contract: Self)
        ensures
            contract.wf(),
            contract@ == Map::<Seq<char>, Map<Seq<char>, Amount>>::empty(),
    {
        let contract = Contract { recipients: AccountMap::new() };
        contract
    }

    /// The pledges toward `recipient`, which is expected to have some.
    pub fn get_expected_matchers_for_this_recipient(&self, recipient: &AccountId) -> (found: Result<
        &MatcherAmountMap,
        LedgerError,
    >)
        requires
            self.wf(),
        ensures
            match found {
                Ok(pledges) => {
                    &&& self@.contains_key(recipient@)
                    &&& pledges@ == self@[recipient@]
                    &&& pledges.wf()
                    &&& pledges.listing() == listing_of(self@[recipient@])
                },
                Err(e) => e == LedgerError::NoSuchRecipient && !self@.contains_key(recipient@),
            },
    {
        match self.recipients.get(recipient) {
            Some(pledges) => {
                proof {
                    pledges.lemma_wf();
                    lemma_listing_of(pledges.listing(), pledges@);
                }
                Ok(pledges)
            },
            None => Err(LedgerError::NoSuchRecipient),
        }
    }

    /// What `matcher` commits to `recipient`, where a commitment is
    /// expected to exist.
    pub fn get_expected_commitment(&self, recipient: &AccountId, matcher: &AccountId) -> (found:
        Result<Amount, LedgerError>)
        requires
            self.wf(),
        ensures
            found == expected_commitment(self@, recipient@, matcher@),
            found is Ok ==> found->Ok_0 > 0,
    {
        match self.get_expected_matchers_for_this_recipient(recipient) {
            Err(e) => Err(e),
            Ok(pledges) => match pledges.get(matcher) {
                Some(amount) => Ok(amount),
                None => Err(LedgerError::NoSuchMatcher),
            },
        }
    }

    /// The pledges toward `recipient` as the ledger holds them, or no
    /// pledges where it holds none. What is handed out is a copy: it is part
    /// of the ledger only once it has been put there.
    fn get_or_create_bucket(&self, recipient: &AccountId) -> (pledges: MatcherAmountMap)
        requires
            self.wf(),
        ensures
            pledges.wf(),
            pledges@ == pledges_of(self@, recipient@),
            pledges.listing() == listing_of(pledges_of(self@, recipient@)),
    {
        match self.get_expected_matchers_for_this_recipient(recipient) {
            Ok(held) => held.clone(),
            Err(_) => {
                let none = MatcherAmountMap::new();
                proof {
                    lemma_listing_of(none.listing(), none@);
                }
                none
            },
        }
    }

    /// Makes `pledges` the pledges toward `recipient`; without pledges the
    /// recipient leaves the ledger.
    fn put(&mut self, recipient: &AccountId, pledges: MatcherAmountMap)
        requires
            old(self).wf(),
            pledges.wf(),
        ensures
            final(self).wf(),
            final(self)@ == ledger_put(old(self)@, recipient@, pledges@),
    {
        if pledges.is_empty() {
            self.recipients.remove(recipient);
        } else {
            self.recipients.insert(recipient.clone(), pledges);
        }
        assert forall|r: Seq<char>| #[trigger]
            self.recipients@.contains_key(r) implies self.recipients@[r].wf()
            && self.recipients@[r].listing().len() > 0 by {}
    }

    /// Lets `matcher` commit `amount` to `recipient` from now on, whether
    /// or not it committed anything before. An amount of zero takes the
    /// commitment out of the ledger, and the recipient with its last
    /// commitment.
    pub fn set_matcher_amount(&mut self, recipient: &AccountId, matcher: &AccountId, amount: Amount)
        requires
            old(self).wf(),
        ensures
            final(self).wf(),
            final(self)@ == ledger_set(old(self)@, recipient@, matcher@, amount),
    {
        let mut pledges = self.get_or_create_bucket(recipient);
        pledges.set(matcher, amount);
        self.put(recipient, pledges);
    }

    /// Takes an offer of `matcher` to match donations to `recipient` with up
    /// to `amount` more than before. The offer has to reach the cost of
    /// storing it; an offer of just that cost is taken.
    pub fn offer_matching_funds(
        &mut self,
        recipient: &AccountId,
        matcher: &AccountId,
        amount: Amount,
    ) -> (taken: Result<String, LedgerError>)
        requires
            old(self).wf(),
        ensures
            final(self).wf(),
            match taken {
                Ok(message) => {
                    &&& offer_refusal(old(self)@, recipient@, matcher@, amount) is None
                    &&& final(self)@ == ledger_set(
                        old(self)@,
                        recipient@,
                        matcher@,
                        (commitment_of(old(self)@, recipient@, matcher@) + amount) as Amount,
                    )
                    &&& message@ == offer_message(matcher@, recipient@, amount)
                },
                Err(e) => {
                    &&& offer_refusal(old(self)@, recipient@, matcher@, amount) == Some(e)
                    &&& final(self)@ == old(self)@
                },
            },
    {
        if amount < STORAGE_COST {
            return Err(LedgerError::Validation(ValidationError::OfferTooSmall));
        }
        let existing_commitment = match self.get_expected_commitment(recipient, matcher) {
            Ok(held) => held,
            Err(_) => 0,
        };
        let updated_commitment = match existing_commitment.checked_add(amount) {
            Some(sum) => sum,
            None => {
                return Err(LedgerError::Validation(ValidationError::AmountTooLarge));
            },
        };
        self.set_matcher_amount(recipient, matcher, updated_commitment);
        Ok(write_offer_message(matcher, recipient, amount))
    }

    /// The transfer of `amount` out of escrow to `destination_account`, for
    /// the host to make.
    pub fn transfer_from_escrow(&self, destination_account: &AccountId, amount: Amount) -> (transfer:
        Transfer)
        ensures
            transfer.destination@ == destination_account@,
            transfer.amount == amount,
    {
        Transfer { destination: destination_account.clone(), amount }
    }

    /// Gives `matcher` back what it asks for of its commitment to
    /// `recipient`, as far as the commitment reaches: whoever asks for more
    /// gets the whole commitment and no more. The ledger holds the smaller
    /// commitment at once; the transfer is for the host to make, and its
    /// outcome goes to `on_rescind_matching_funds`.
    pub fn rescind_matching_funds(
        &mut self,
        recipient: &AccountId,
        matcher: &AccountId,
        requested_withdrawal_amount: FormattedNearString,
    ) -> (done: Result<Rescission, LedgerError>)
        requires
            old(self).wf(),
        ensures
            final(self).wf(),
            match done {
                Ok(rescission) => {
                    let committed = old(self)@[recipient@][matcher@];
                    let requested = read_near(requested_withdrawal_amount@)->Ok_0;
                    let rescinded = rescinded_amount(requested, committed);
                    let left = (committed - rescinded) as Amount;
                    &&& rescind_refusal(
                        old(self)@,
                        recipient@,
                        matcher@,
                        requested_withdrawal_amount@,
                    ) is None
                    &&& final(self)@ == ledger_set(old(self)@, recipient@, matcher@, left)
                    &&& rescission.message@ == rescind_message(
                        matcher@,
                        recipient@,
                        rescinded,
                        left,
                    )
                    &&& rescission.transfer.destination@ == matcher@
                    &&& rescission.transfer.amount == rescinded
                    &&& rescission.pending.recipient@ == recipient@
                    &&& rescission.pending.matcher@ == matcher@
                    &&& rescission.pending.amount_transferred == rescinded
                    &&& rescission.pending.original_amount == committed
                },
                Err(e) => {
                    &&& rescind_refusal(
                        old(self)@,
                        recipient@,
                        matcher@,
                        requested_withdrawal_amount@,
                    ) == Some(e)
                    &&& final(self)@ == old(self)@
                },
            },
    {
        let amount_already_committed = match self.get_expected_commitment(recipient, matcher) {
            Ok(held) => held,
            Err(e) => {
                return Err(e);
            },
        };
        let requested = match near_string_to_yocto(requested_withdrawal_amount) {
            Ok(amount) => amount,
            Err(e) => {
                return Err(LedgerError::Validation(e));
            },
        };
        let amount_to_decrease = if requested <= amount_already_committed {
            requested
        } else {
            amount_already_committed
        };
        let new_amount = amount_already_committed - amount_to_decrease;
        let message = write_rescind_message(matcher, recipient, amount_to_decrease, new_amount);
        self.set_matcher_amount(recipient, matcher, new_amount);
        let transfer = self.transfer_from_escrow(matcher, amount_to_decrease);
        let pending = PendingTransfer {
            recipient: recipient.clone(),
            matcher: matcher.clone(),
            amount_transferred: amount_to_decrease,
            original_amount: amount_already_committed,
        };
        Ok(Rescission { message, transfer, pending })
    }

    /// Settles a rescission once the host has reported on the transfer:
    /// after a success the ledger stays as it is, after a failure the
    /// matcher holds `original_amount` again.
    pub fn on_rescind_matching_funds(
        &mut self,
        recipient: &AccountId,
        matcher: AccountId,
        original_amount: Amount,
        transfer_succeeded: bool,
    )
        requires
            old(self).wf(),
        ensures
            final(self).wf(),
            final(self)@ == if transfer_succeeded {
                old(self)@
            } else {
                ledger_set(old(self)@, recipient@, matcher@, original_amount)
            },
    {
        if !transfer_succeeded {
            self.set_matcher_amount(recipient, &matcher, original_amount);
        }
    }

    /// The pledges toward `recipient` as a JSON object: for each matcher, in
    /// the order of the names, the name and the displayed amount. A
    /// recipient without pledges gets the empty object. The ledger is only
    /// read.
    pub fn get_commitments(&self, recipient: AccountId) -> (answer: String)
        requires
            self.wf(),
        ensures
            answer@ == commitments_answer(self@, recipient@),
    {
        let pledges = self.get_or_create_bucket(&recipient);
        write_commitments_json(&pledges)
    }

    /// Lets every pledge toward `recipient` match a donation of
    /// `donation_amount`: each matcher adds as much as was donated, as far as
    /// its commitment reaches, and keeps the rest of its commitment. Hands
    /// back what is to be sent on to the recipient, the donation and all that
    /// matches it, and what each matcher held before.
    pub fn record_matching_donations_as_sent(
        &mut self,
        donation_amount: &Amount,
        recipient: &AccountId,
    ) -> (sent: Result<(Amount, MatcherAmountMap), LedgerError>)
        requires
            old(self).wf(),
        ensures
            final(self).wf(),
            match sent {
                Ok((sum_of_donations_to_send, original_commitments)) => {
                    &&& sum_of_donations_to_send == donation_total(
                        old(self)@,
                        recipient@,
                        *donation_amount,
                    )
                    &&& original_commitments.wf()
                    &&& original_commitments@ == pledges_of(old(self)@, recipient@)
                    &&& final(self)@ == ledger_after_donation(
                        old(self)@,
                        recipient@,
                        *donation_amount,
                    )
                },
                Err(e) => {
                    &&& e == LedgerError::Validation(ValidationError::AmountTooLarge)
                    &&& donation_total(old(self)@, recipient@, *donation_amount) > u128::MAX
                    &&& final(self)@ == old(self)@
                },
            },
    {
        let donation = *donation_amount;
        let held = self.get_or_create_bucket(recipient);
        let ghost listing = held.listing();
        let n = held.len();
        let mut sum_of_donations_to_send = donation;
        let mut remaining = MatcherAmountMap::new();
        let mut i: usize = 0;
        while i < n
            invariant
                i <= n == listing.len(),
                held.wf(),
                listing == held.listing(),
                listing == listing_of(pledges_of(self@, recipient@)),
                self.wf(),
                self@ == old(self)@,
                donation == *donation_amount,
                sum_of_donations_to_send == donation + matched_total(
                    listing.take(i as int),
                    donation,
                ),
                remaining.wf(),
                remaining@ == pledges_after_donation(
                    listing_map(listing.take(i as int)),
                    donation,
                ),
                i < n ==> forall|j: int|
                    0 <= j < remaining.listing().len() ==> name_precedes(
                        #[trigger] remaining.listing()[j].0,
                        listing[i as int].0,
                    ),
            decreases n - i,
        {
            let matcher = held.matcher_at(i);
            let existing_commitment = held.amount_at(i);
            let matched_amount = if donation <= existing_commitment {
                donation
            } else {
                existing_commitment
            };
            let remaining_commitment = existing_commitment - matched_amount;
            proof {
                lemma_listing_prefix(listing, i as int);
                assert(listing.take(i + 1).drop_last() =~= listing.take(i as int));
                lemma_donation_step(
                    listing_map(listing.take(i as int)),
                    donation,
                    matcher@,
                    existing_commitment,
                );
            }
            sum_of_donations_to_send = match sum_of_donations_to_send.checked_add(matched_amount) {
                Some(sum) => sum,
                None => {
                    proof {
                        lemma_matched_total_grows(listing, donation, i + 1, n as int);
                        assert(listing.take(n as int) =~= listing);
                    }
                    return Err(LedgerError::Validation(ValidationError::AmountTooLarge));
                },
            };
            let ghost kept = remaining.listing();
            if remaining_commitment > 0 {
                remaining.push_last(matcher.clone(), remaining_commitment);
            }
            proof {
                if i + 1 < n {
                    assert forall|j: int|
                        0 <= j < remaining.listing().len() implies name_precedes(
                        #[trigger] remaining.listing()[j].0,
                        listing[i + 1].0,
                    ) by {
                        if j < kept.len() {
                            lemma_precedes_transitive(
                                kept[j].0,
                                listing[i as int].0,
                                listing[i + 1].0,
                            );
                        }
                    }
                }
            }
            i = i + 1;
        }
        assert(listing.take(n as int) =~= listing);
        self.put(recipient, remaining);
        Ok((sum_of_donations_to_send, held))
    }

    /// Takes a donation of `amount` to `recipient`: every pledge toward the
    /// recipient matches it, and the donation goes on to the recipient
    /// together with what matches it, in one transfer that the host is to
    /// make. The ledger holds the smaller pledges at once; the outcome of the
    /// transfer goes to `on_donate`.
    pub fn donate(&mut self, recipient: AccountId, amount: Amount) -> (done: Result<
        Donation,
        LedgerError,
    >)
        requires
            old(self).wf(),
        ensures
            final(self).wf(),
            match done {
                Ok(donation) => {
                    &&& donation_refusal(old(self)@, recipient@, amount) is None
                    &&& final(self)@ == ledger_after_donation(old(self)@, recipient@, amount)
                    &&& donation.transfer.destination@ == recipient@
                    &&& donation.transfer.amount == donation_total(
                        old(self)@,
                        recipient@,
                        amount,
                    )
                    &&& donation.donation_amount == amount
                    &&& donation.original_commitments.wf()
                    &&& donation.original_commitments@ == pledges_of(old(self)@, recipient@)
                },
                Err(e) => {
                    &&& donation_refusal(old(self)@, recipient@, amount) == Some(e)
                    &&& final(self)@ == old(self)@
                },
            },
    {
        if amount == 0 {
            return Err(LedgerError::Validation(ValidationError::EmptyDonation));
        }
        match self.record_matching_donations_as_sent(&amount, &recipient) {
            Err(e) => Err(e),
            Ok((sum_of_donations_to_send, original_commitments)) => {
                let transfer = self.transfer_from_escrow(&recipient, sum_of_donations_to_send);
                Ok(Donation { transfer, donation_amount: amount, original_commitments })
            },
        }
    }

    /// Settles a donation to `recipient` once the host has reported on the
    /// transfer: after a success the ledger stays as it is, after a failure
    /// every matcher that `original_commitments` names holds again what it
    /// held before the donation, all of them or none.
    pub fn on_donate(
        &mut self,
        recipient: &AccountId,
        _donation_amount: &Amount,
        original_commitments: &MatcherAmountMap,
        transfer_succeeded: bool,
    )
        requires
            old(self).wf(),
            original_commitments.wf(),
        ensures
            final(self).wf(),
            final(self)@ == if transfer_succeeded {
                old(self)@
            } else {
                ledger_restore(old(self)@, recipient@, original_commitments@)
            },
    {
        if transfer_succeeded {
            return ;
        }
        let ghost listing = original_commitments.listing();
        let n = original_commitments.len();
        let mut i: usize = 0;
        proof {
            self.lemma_wf();
            lemma_restore_nothing(self@, recipient@);
            assert(listing_map(listing.take(0)) =~= Map::<Seq<char>, Amount>::empty());
        }
        while i < n
            invariant
                i <= n == listing.len(),
                original_commitments.wf(),
                listing == original_commitments.listing(),
                self.wf(),
                self@ == ledger_restore(
                    old(self)@,
                    recipient@,
                    listing_map(listing.take(i as int)),
                ),
            decreases n - i,
        {
            let matcher = original_commitments.matcher_at(i);
            let original_amount = original_commitments.amount_at(i);
            proof {
                lemma_listing_prefix(listing, i as int);
                lemma_restore_step(
                    old(self)@,
                    recipient@,
                    listing_map(listing.take(i as int)),
                    matcher@,
                    original_amount,
                );
            }
            self.set_matcher_amount(recipient, matcher, original_amount);
            i = i + 1;
        }
        assert(listing.take(n as int) =~= listing);
    }

    /// Takes every pledge toward `recipient` out of the ledger in one step,
    /// and hands out what was taken; for a recipient without pledges, that is
    /// nothing.
    pub fn delete_all_matches_associated_with_recipient(&mut self, recipient: AccountId) -> (removed:
        MatcherAmountMap)
        requires
            old(self).wf(),
        ensures
            final(self).wf(),
            final(self)@ == old(self)@.remove(recipient@),
            removed.wf(),
            removed@ == pledges_of(old(self)@, recipient@),
    {
        let removed = self.get_or_create_bucket(&recipient);
        self.put(&recipient, MatcherAmountMap::new());
        removed
    }
}

} // verus!
