//! The ledger as a mathematical object, and what the operations on it come to.
//!
//! A ledger maps each recipient to the pledges made toward it, and the pledges
//! map each matcher to an amount. An amount of zero is never held: the pledge
//! is left out instead, and a recipient without pledges is left out too.

use crate::account_map::{
    lemma_listing_len, lemma_listing_lookup, lemma_listing_prefix, lemma_listing_unique,
    listed_in_order, listing_map,
};
use crate::generic::Amount;
use vstd::prelude::*;

verus! {

/// The pledges toward one recipient: what each matcher still commits.
pub type Pledges = Map<Seq<char>, Amount>;

/// The pledges toward every recipient.
pub type Ledger = Map<Seq<char>, Map<Seq<char>, Amount>>;

/// The pledges toward `recipient`; none where the ledger does not know it.
pub open spec fn pledges_of(ledger: Ledger, recipient: Seq<char>) -> Pledges {
    if ledger.contains_key(recipient) {
        ledger[recipient]
    } else {
        Map::empty()
    }
}

/// What `matcher` still commits to `recipient`; zero where nothing is held.
pub open spec fn commitment_of(ledger: Ledger, recipient: Seq<char>, matcher: Seq<char>) -> Amount {
    if pledges_of(ledger, recipient).contains_key(matcher) {
        pledges_of(ledger, recipient)[matcher]
    } else {
        0
    }
}

/// No pledge of zero is held.
pub open spec fn all_positive(pledges: Pledges) -> bool {
    forall|matcher: Seq<char>| pledges.contains_key(matcher) ==> #[trigger] pledges[matcher] > 0
}

/// Every recipient of the ledger has a pledge, and no pledge is zero.
pub open spec fn ledger_wf(ledger: Ledger) -> bool {
    forall|recipient: Seq<char>| #[trigger]
        ledger.contains_key(recipient) ==> !ledger[recipient].is_empty() && all_positive(
            ledger[recipient],
        )
}

/// The pledges once `matcher` commits `amount`: an amount of zero takes the
/// pledge out.
pub open spec fn pledges_set(pledges: Pledges, matcher: Seq<char>, amount: Amount) -> Pledges {
    if amount == 0 {
        pledges.remove(matcher)
    } else {
        pledges.insert(matcher, amount)
    }
}

/// The ledger once `pledges` are those toward `recipient`: without pledges
/// the recipient is taken out.
pub open spec fn ledger_put(ledger: Ledger, recipient: Seq<char>, pledges: Pledges) -> Ledger {
    if pledges.is_empty() {
        ledger.remove(recipient)
    } else {
        ledger.insert(recipient, pledges)
    }
}

/// The ledger once `matcher` commits `amount` to `recipient`.
pub open spec fn ledger_set(
    ledger: Ledger,
    recipient: Seq<char>,
    matcher: Seq<char>,
    amount: Amount,
) -> Ledger {
    ledger_put(ledger, recipient, pledges_set(pledges_of(ledger, recipient), matcher, amount))
}

/// What a matcher who commits `commitment` adds to a donation of `donation`:
/// as much as was donated, as far as the commitment reaches.
pub open spec fn matched_amount(donation: Amount, commitment: Amount) -> Amount {
    if donation <= commitment {
        donation
    } else {
        commitment
    }
}

/// What is left of a commitment once it has matched a donation.
pub open spec fn remaining_amount(donation: Amount, commitment: Amount) -> Amount {
    (commitment - matched_amount(donation, commitment)) as Amount
}

/// The pledges once each has matched a donation of `donation`.
pub open spec fn pledges_after_donation(pledges: Pledges, donation: Amount) -> Pledges {
    Map::new(
        |matcher: Seq<char>|
            pledges.contains_key(matcher) && remaining_amount(donation, pledges[matcher]) > 0,
        |matcher: Seq<char>| remaining_amount(donation, pledges[matcher]),
    )
}

/// The ledger once the pledges toward `recipient` have matched a donation.
pub open spec fn ledger_after_donation(
    ledger: Ledger,
    recipient: Seq<char>,
    donation: Amount,
) -> Ledger {
    ledger_put(ledger, recipient, pledges_after_donation(pledges_of(ledger, recipient), donation))
}

/// The ledger once the pledges toward `recipient` are again what `originals`
/// says, for every matcher that `originals` names.
pub open spec fn ledger_restore(ledger: Ledger, recipient: Seq<char>, originals: Pledges) -> Ledger {
    ledger_put(ledger, recipient, pledges_of(ledger, recipient).union_prefer_right(originals))
}

/// The ledger once each listed matcher has been set, one after the other,
/// to what a donation of `donation` leaves of its listed commitment.
pub open spec fn ledger_after_matches(
    ledger: Ledger,
    recipient: Seq<char>,
    listing: Seq<(Seq<char>, Amount)>,
    donation: Amount,
) -> Ledger
    decreases listing.len(),
{
    if listing.len() == 0 {
        ledger
    } else {
        ledger_set(
            ledger_after_matches(ledger, recipient, listing.drop_last(), donation),
            recipient,
            listing.last().0,
            remaining_amount(donation, listing.last().1),
        )
    }
}

/// `listing` shows `pledges`, in the order of the matchers' names.
pub open spec fn is_listing_of(listing: Seq<(Seq<char>, Amount)>, pledges: Pledges) -> bool {
    listed_in_order(listing) && listing_map(listing) == pledges
}

/// The pledges in the order of the matchers' names.
pub open spec fn listing_of(pledges: Pledges) -> Seq<(Seq<char>, Amount)> {
    choose|listing: Seq<(Seq<char>, Amount)>| is_listing_of(listing, pledges)
}

/// What the listed pledges add to a donation of `donation`, all together.
pub open spec fn matched_total(listing: Seq<(Seq<char>, Amount)>, donation: Amount) -> nat
    decreases listing.len(),
{
    if listing.len() == 0 {
        0
    } else {
        matched_total(listing.drop_last(), donation) + matched_amount(
            donation,
            listing.last().1,
        ) as nat
    }
}

/// What a donation of `donation` to `recipient` sends on: the donation and
/// what every pledge adds to it.
pub open spec fn donation_total(ledger: Ledger, recipient: Seq<char>, donation: Amount) -> nat {
    donation as nat + matched_total(listing_of(pledges_of(ledger, recipient)), donation)
}

/// What a matcher gets back who asks for `requested` of a commitment of
/// `committed`: what was asked for, as far as the commitment reaches.
pub open spec fn rescinded_amount(requested: Amount, committed: Amount) -> Amount {
    if requested <= committed {
        requested
    } else {
        committed
    }
}

/// A listing of pledges is the only one there is, and it shows each matcher
/// once: it is as long as there are matchers.
pub proof fn lemma_listing_of(listing: Seq<(Seq<char>, Amount)>, pledges: Pledges)
    requires
        is_listing_of(listing, pledges),
    ensures
        listing_of(pledges) == listing,
        pledges.dom().finite(),
        pledges.dom().len() == listing.len(),
{
    lemma_listing_unique(listing, listing_of(pledges));
    lemma_listing_len(listing);
}

/// No stored commitment is zero: in a ledger that is well formed, every
/// pledge that is held is positive, and a matcher commits more than zero
/// to a recipient exactly when the ledger holds a pledge for the two.
pub proof fn law_stored_commitments_positive(ledger: Ledger, recipient: Seq<char>, matcher: Seq<char>)
    requires
        ledger_wf(ledger),
    ensures
        ledger.contains_key(recipient) && ledger[recipient].contains_key(matcher)
            ==> ledger[recipient][matcher] > 0,
        commitment_of(ledger, recipient, matcher) > 0 <==> ledger.contains_key(recipient)
            && ledger[recipient].contains_key(matcher),
{
}

/// Setting a commitment keeps the ledger well formed: an amount of zero
/// leaves no entry behind. The commitment that was set is what was asked
/// for, and every other commitment is what it was.
pub proof fn law_set_keeps_wf(ledger: Ledger, recipient: Seq<char>, matcher: Seq<char>, amount: Amount)
    requires
        ledger_wf(ledger),
    ensures
        ledger_wf(ledger_set(ledger, recipient, matcher, amount)),
        commitment_of(ledger_set(ledger, recipient, matcher, amount), recipient, matcher)
            == amount,
        forall|r: Seq<char>, m: Seq<char>|
            r != recipient || m != matcher ==> #[trigger] commitment_of(
                ledger_set(ledger, recipient, matcher, amount),
                r,
                m,
            ) == commitment_of(ledger, r, m),
{
    let after = ledger_set(ledger, recipient, matcher, amount);
    assert forall|r: Seq<char>| #[trigger] after.contains_key(r) implies !after[r].is_empty()
        && all_positive(after[r]) by {}
}

/// Matching a donation keeps the ledger well formed: a pledge that is used
/// up leaves no entry behind.
pub proof fn law_donation_keeps_wf(ledger: Ledger, recipient: Seq<char>, donation: Amount)
    requires
        ledger_wf(ledger),
    ensures
        ledger_wf(ledger_after_donation(ledger, recipient, donation)),
{
    let after = ledger_after_donation(ledger, recipient, donation);
    assert forall|r: Seq<char>| #[trigger] after.contains_key(r) implies !after[r].is_empty()
        && all_positive(after[r]) by {}
}

/// Restoring positive pledges keeps the ledger well formed.
pub proof fn law_restore_keeps_wf(ledger: Ledger, recipient: Seq<char>, originals: Pledges)
    requires
        ledger_wf(ledger),
        all_positive(originals),
    ensures
        ledger_wf(ledger_restore(ledger, recipient, originals)),
{
    let after = ledger_restore(ledger, recipient, originals);
    assert forall|r: Seq<char>| #[trigger] after.contains_key(r) implies !after[r].is_empty()
        && all_positive(after[r]) by {}
}

/// What the matchers add to a donation is at most the donation for each of
/// them, and no matcher adds more than it had committed.
pub proof fn law_matched_total_bounded(listing: Seq<(Seq<char>, Amount)>, donation: Amount)
    ensures
        matched_total(listing, donation) <= donation * listing.len(),
        forall|i: int|
            0 <= i < listing.len() ==> matched_amount(donation, #[trigger] listing[i].1)
                <= listing[i].1,
        forall|i: int|
            0 <= i < listing.len() ==> matched_amount(donation, #[trigger] listing[i].1)
                <= donation,
    decreases listing.len(),
{
    if listing.len() > 0 {
        law_matched_total_bounded(listing.drop_last(), donation);
        assert(donation * listing.len() == donation * (listing.len() - 1) + donation)
            by (nonlinear_arith);
    } else {
        assert(donation * listing.len() == 0) by (nonlinear_arith)
            requires
                listing.len() == 0,
        ;
    }
}

/// What a donation does to each commitment: a matcher of the recipient
/// adds what it matches and keeps the rest, so that no matcher adds more
/// than it had committed or more than was donated, and all of them
/// together add at most the donation for each matcher. The pledges toward
/// other recipients stay as they are.
pub proof fn law_donation_matches(
    ledger: Ledger,
    recipient: Seq<char>,
    donation: Amount,
    matcher: Seq<char>,
    other: Seq<char>,
)
    requires
        ledger_wf(ledger),
        other != recipient,
    ensures
        ({
            let after = ledger_after_donation(ledger, recipient, donation);
            let committed = commitment_of(ledger, recipient, matcher);
            let listing = listing_of(pledges_of(ledger, recipient));
            &&& commitment_of(after, recipient, matcher) + matched_amount(donation, committed)
                == committed
            &&& matched_amount(donation, committed) <= committed
            &&& matched_amount(donation, committed) <= donation
            &&& donation_total(ledger, recipient, donation) - donation <= donation
                * listing.len()
            &&& pledges_of(after, other) == pledges_of(ledger, other)
        }),
{
    law_matched_total_bounded(listing_of(pledges_of(ledger, recipient)), donation);
}

/// The pledges while a donation is being matched: the matchers that `done`
/// lists hold what the donation leaves them, the others what they held.
pub open spec fn pledges_while_matching(
    pledges: Pledges,
    done: Seq<(Seq<char>, Amount)>,
    donation: Amount,
) -> Pledges {
    Map::new(
        |m: Seq<char>|
            pledges.contains_key(m) && (listing_map(done).contains_key(m) ==> remaining_amount(
                donation,
                pledges[m],
            ) > 0),
        |m: Seq<char>|
            if listing_map(done).contains_key(m) {
                remaining_amount(donation, pledges[m])
            } else {
                pledges[m]
            },
    )
}

/// Matching the first `k` of the listed pledges, one after the other, gives
/// the ledger in which just these hold what the donation leaves them.
proof fn lemma_matches_so_far(
    ledger: Ledger,
    recipient: Seq<char>,
    listing: Seq<(Seq<char>, Amount)>,
    donation: Amount,
    k: int,
)
    requires
        ledger_wf(ledger),
        is_listing_of(listing, pledges_of(ledger, recipient)),
        0 <= k <= listing.len(),
    ensures
        ledger_after_matches(ledger, recipient, listing.take(k), donation) == ledger_put(
            ledger,
            recipient,
            pledges_while_matching(pledges_of(ledger, recipient), listing.take(k), donation),
        ),
    decreases k,
{
    let pledges = pledges_of(ledger, recipient);
    let done = listing.take(k);
    if k == 0 {
        assert(pledges_while_matching(pledges, done, donation) =~= pledges);
    } else {
        let earlier = listing.take(k - 1);
        let matcher = listing[k - 1].0;
        let committed = listing[k - 1].1;
        lemma_matches_so_far(ledger, recipient, listing, donation, k - 1);
        lemma_listing_prefix(listing, k - 1);
        assert(done.drop_last() =~= earlier);
        lemma_listing_lookup(listing, k - 1);
        let before = pledges_while_matching(pledges, earlier, donation);
        let after = pledges_set(before, matcher, remaining_amount(donation, committed));
        assert(after =~= pledges_while_matching(pledges, done, donation));
    }
}

/// A donation is matched by setting each commitment: setting every matcher
/// of the recipient, one after the other in the order of the listing, to
/// what the donation leaves of its commitment gives the ledger after the
/// donation.
pub proof fn law_donation_sets_each(ledger: Ledger, recipient: Seq<char>, donation: Amount)
    requires
        ledger_wf(ledger),
        is_listing_of(
            listing_of(pledges_of(ledger, recipient)),
            pledges_of(ledger, recipient),
        ),
    ensures
        ledger_after_matches(
            ledger,
            recipient,
            listing_of(pledges_of(ledger, recipient)),
            donation,
        ) == ledger_after_donation(ledger, recipient, donation),
{
    let pledges = pledges_of(ledger, recipient);
    let listing = listing_of(pledges);
    lemma_matches_so_far(ledger, recipient, listing, donation, listing.len() as int);
    assert(listing.take(listing.len() as int) =~= listing);
    assert(pledges_while_matching(pledges, listing, donation) =~= pledges_after_donation(
        pledges,
        donation,
    ));
}

/// Taking a rescission back puts the ledger back: where a matcher held
/// `committed` and the ledger was set to what a rescission of `requested`
/// leaves, setting the commitment to `committed` again gives the ledger as
/// it was before.
pub proof fn law_rescission_rolls_back(
    ledger: Ledger,
    recipient: Seq<char>,
    matcher: Seq<char>,
    requested: Amount,
)
    requires
        ledger_wf(ledger),
        ledger.contains_key(recipient),
        ledger[recipient].contains_key(matcher),
    ensures
        ({
            let committed = ledger[recipient][matcher];
            let left = (committed - rescinded_amount(requested, committed)) as Amount;
            ledger_set(ledger_set(ledger, recipient, matcher, left), recipient, matcher, committed)
                == ledger
        }),
{
    let committed = ledger[recipient][matcher];
    let left = (committed - rescinded_amount(requested, committed)) as Amount;
    let between = ledger_set(ledger, recipient, matcher, left);
    let restored = pledges_set(pledges_of(between, recipient), matcher, committed);
    assert(restored =~= ledger[recipient]);
}

/// Taking a donation back puts the ledger back: where the pledges toward a
/// recipient have matched a donation, restoring what they were gives the
/// ledger as it was before.
pub proof fn law_donation_rolls_back(ledger: Ledger, recipient: Seq<char>, donation: Amount)
    requires
        ledger_wf(ledger),
    ensures
        ledger_restore(
            ledger_after_donation(ledger, recipient, donation),
            recipient,
            pledges_of(ledger, recipient),
        ) == ledger,
{
    let before = pledges_of(ledger, recipient);
    let between = ledger_after_donation(ledger, recipient, donation);
    let restored = pledges_of(between, recipient).union_prefer_right(before);
    assert(restored =~= before);
}

/// Restoring no pledges leaves the ledger as it is.
pub proof fn lemma_restore_nothing(ledger: Ledger, recipient: Seq<char>)
    requires
        ledger_wf(ledger),
    ensures
        ledger_restore(ledger, recipient, Map::empty()) == ledger,
{
    let held = pledges_of(ledger, recipient);
    assert(held.union_prefer_right(Map::empty()) =~= held);
}

/// Restoring one pledge more is setting that pledge after the others have
/// been restored.
pub proof fn lemma_restore_step(
    ledger: Ledger,
    recipient: Seq<char>,
    originals: Pledges,
    matcher: Seq<char>,
    amount: Amount,
)
    requires
        amount > 0,
    ensures
        ledger_set(ledger_restore(ledger, recipient, originals), recipient, matcher, amount)
            == ledger_restore(ledger, recipient, originals.insert(matcher, amount)),
{
    let held = pledges_of(ledger, recipient);
    let between = ledger_restore(ledger, recipient, originals);
    let next = pledges_set(pledges_of(between, recipient), matcher, amount);
    assert(next =~= held.union_prefer_right(originals.insert(matcher, amount)));
    assert(ledger_set(between, recipient, matcher, amount) =~= ledger_restore(
        ledger,
        recipient,
        originals.insert(matcher, amount),
    ));
}

/// A longer listing adds no less to a donation than its beginning.
pub proof fn lemma_matched_total_grows(
    listing: Seq<(Seq<char>, Amount)>,
    donation: Amount,
    i: int,
    j: int,
)
    requires
        0 <= i <= j <= listing.len(),
    ensures
        matched_total(listing.take(i), donation) <= matched_total(listing.take(j), donation),
    decreases j - i,
{
    if i < j {
        lemma_matched_total_grows(listing, donation, i, j - 1);
        assert(listing.take(j).drop_last() =~= listing.take(j - 1));
    }
}

/// The pledges after a donation, where one more pledge is counted in: the
/// new pledge stays with what the donation leaves of it, if it leaves
/// anything.
pub proof fn lemma_donation_step(
    pledges: Pledges,
    donation: Amount,
    matcher: Seq<char>,
    commitment: Amount,
)
    requires
        !pledges.contains_key(matcher),
    ensures
        pledges_after_donation(pledges.insert(matcher, commitment), donation) == pledges_set(
            pledges_after_donation(pledges, donation),
            matcher,
            remaining_amount(donation, commitment),
        ),
{
    assert(pledges_after_donation(pledges.insert(matcher, commitment), donation) =~= pledges_set(
        pledges_after_donation(pledges, donation),
        matcher,
        remaining_amount(donation, commitment),
    ));
}

/// A rescission is clamped: whoever asks for no less than is committed gets
/// exactly the commitment back, and no commitment is left, neither a
/// negative one nor one of zero.
pub proof fn law_rescission_clamps(
    ledger: Ledger,
    recipient: Seq<char>,
    matcher: Seq<char>,
    requested: Amount,
)
    requires
        ledger_wf(ledger),
        ledger.contains_key(recipient),
        ledger[recipient].contains_key(matcher),
        requested >= ledger[recipient][matcher],
    ensures
        ({
            let committed = ledger[recipient][matcher];
            let left = (committed - rescinded_amount(requested, committed)) as Amount;
            let after = ledger_set(ledger, recipient, matcher, left);
            &&& rescinded_amount(requested, committed) == committed
            &&& left == 0
            &&& !pledges_of(after, recipient).contains_key(matcher)
            &&& commitment_of(after, recipient, matcher) == 0
        }),
{
}

} // verus!
