//! The pledges toward one recipient, as the ledger holds them.

use crate::account::{name_precedes, AccountId};
use crate::account_map::{
    lemma_listing_empty, lemma_listing_lookup, listed_in_order, listing_map, lists_at,
    AccountMap,
};
use crate::generic::Amount;
use crate::ledger::{all_positive, is_listing_of, pledges_set, Pledges};
use vstd::prelude::*;

verus! {

/// No listed pledge is zero.
pub open spec fn listing_positive(listing: Seq<(Seq<char>, Amount)>) -> bool {
    forall|i: int| 0 <= i < listing.len() ==> (#[trigger] listing[i]).1 > 0
}

/// An ordered listing shows positive pledges exactly when the pledges that
/// it stands for are positive.
pub proof fn lemma_listing_positive(listing: Seq<(Seq<char>, Amount)>)
    requires
        listed_in_order(listing),
    ensures
        listing_positive(listing) <==> all_positive(listing_map(listing)),
{
    let pledges = listing_map(listing);
    if listing_positive(listing) {
        assert forall|matcher: Seq<char>| pledges.contains_key(matcher) implies #[trigger] pledges[matcher]
            > 0 by {
            let i = choose|i: int| lists_at(listing, matcher, i);
            lemma_listing_lookup(listing, i);
        }
    }
    if all_positive(pledges) {
        assert forall|i: int| 0 <= i < listing.len() implies (#[trigger] listing[i]).1 > 0 by {
            lemma_listing_lookup(listing, i);
        }
    }
}

/// What each matcher still commits to one recipient. No matcher is held
/// with a commitment of zero.
#[derive(Debug)]
pub struct MatcherAmountMap {
    amounts: AccountMap<Amount>,
}

impl MatcherAmountMap {
    /// The pledges in the order of the matchers' names.
    pub closed spec fn listing(&self) -> Seq<(Seq<char>, Amount)> {
        self.amounts.listing()
    }

    /// The pledges.
    pub open spec fn view(&self) -> Pledges {
        listing_map(self.listing())
    }

    /// The listing is in order and shows no pledge of zero.
    pub open spec fn wf(&self) -> bool {
        listed_in_order(self.listing()) && listing_positive(self.listing())
    }

    /// The listing of a well-formed value is the listing of its pledges, and
    /// its pledges are positive.
    pub proof fn lemma_wf(&self)
        requires
            self.wf(),
        ensures
            is_listing_of(self.listing(), self@),
            all_positive(self@),
            self@.is_empty() <==> self.listing().len() == 0,
    {
        lemma_listing_positive(self.listing());
        lemma_listing_empty(self.listing());
    }

    /// No pledges.
    pub fn new() -> (pledges: Self)
        ensures
            pledges.wf(),
            pledges.listing() == Seq::<(Seq<char>, Amount)>::empty(),
            pledges@ == Map::<Seq<char>, Amount>::empty(),
    {
        MatcherAmountMap { amounts: AccountMap::new() }
    }

    /// The number of matchers.
    pub fn len(&self) -> (n: usize)
        ensures
            n == self.listing().len(),
    {
        self.amounts.len()
    }

    /// Whether there is no matcher.
    pub fn is_empty(&self) -> (empty: bool)
        ensures
            empty == (self.listing().len() == 0),
            empty == self@.is_empty(),
    {
        self.amounts.is_empty()
    }

    /// The matcher at position `i` of the listing.
    pub fn matcher_at(&self, i: usize) -> (matcher: &AccountId)
        requires
            i < self.listing().len(),
        ensures
            matcher@ == self.listing()[i as int].0,
    {
        self.amounts.key_at(i)
    }

    /// The commitment at position `i` of the listing.
    pub fn amount_at(&self, i: usize) -> (amount: Amount)
        requires
            i < self.listing().len(),
        ensures
            amount == self.listing()[i as int].1,
    {
        *self.amounts.value_at(i)
    }

    /// What `matcher` commits, if it commits anything.
    pub fn get(&self, matcher: &AccountId) -> (amount: Option<Amount>)
        requires
            self.wf(),
        ensures
            match amount {
                Some(a) => self@.contains_key(matcher@) && self@[matcher@] == a && a > 0,
                None => !self@.contains_key(matcher@),
            },
    {
        proof {
            self.lemma_wf();
        }
        match self.amounts.get(matcher) {
            Some(a) => Some(*a),
            None => None,
        }
    }

    /// Lets `matcher` commit `amount` from now on; with an amount of zero the
    /// matcher is taken out.
    pub fn set(&mut self, matcher: &AccountId, amount: Amount)
        requires
            old(self).wf(),
        ensures
            final(self).wf(),
            final(self)@ == pledges_set(old(self)@, matcher@, amount),
    {
        proof {
            self.lemma_wf();
        }
        if amount == 0 {
            self.amounts.remove(matcher);
        } else {
            self.amounts.insert(matcher.clone(), amount);
        }
        proof {
            lemma_listing_positive(self.listing());
        }
    }

    /// Lets `matcher`, whose name stands behind those of all matchers held,
    /// commit the positive `amount`.
    pub(crate) fn push_last(&mut self, matcher: AccountId, amount: Amount)
        requires
            old(self).wf(),
            amount > 0,
            forall|j: int|
                0 <= j < old(self).listing().len() ==> name_precedes(
                    #[trigger] old(self).listing()[j].0,
                    matcher@,
                ),
        ensures
            final(self).wf(),
            final(self).listing() == old(self).listing().push((matcher@, amount)),
            final(self)@ == old(self)@.insert(matcher@, amount),
    {
        self.amounts.push_last(matcher, amount);
    }
}

impl Clone for MatcherAmountMap {
    fn clone(&self) -> (copy: Self)
        ensures
            copy.listing() == self.listing(),
    {
        let mut copy = MatcherAmountMap { amounts: AccountMap::new() };
        let n = self.amounts.len();
        let mut i: usize = 0;
        while i < n
            invariant
                i <= n == self.listing().len(),
                copy.listing() == self.listing().take(i as int),
            decreases n - i,
        {
            let matcher = self.amounts.key_at(i).clone();
            let amount = *self.amounts.value_at(i);
            copy.amounts.push_unordered(matcher, amount);
            assert(self.listing().take(i + 1) =~= self.listing().take(i as int).push(
                self.listing()[i as int],
            ));
            i = i + 1;
        }
        copy
    }
}

} // verus!
