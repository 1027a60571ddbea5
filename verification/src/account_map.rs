//! A map keyed by account, kept as a listing in the order of the account
//! names, so that what a map shows depends on what it holds and on nothing
//! else.

use crate::account::{
    lemma_precedes_asymmetric, lemma_precedes_irreflexive, lemma_precedes_transitive,
    name_precedes, AccountId, Precedence,
};
use vstd::prelude::*;

verus! {

/// The names of a listing ascend strictly, so none occurs twice.
pub open spec fn listed_in_order<V>(s: Seq<(Seq<char>, V)>) -> bool {
    forall|i: int, j: int|
        #![trigger s[i], s[j]]
        0 <= i < j < s.len() ==> name_precedes(s[i].0, s[j].0)
}

/// Position `i` of the listing holds the name `k`.
pub open spec fn lists_at<V>(s: Seq<(Seq<char>, V)>, k: Seq<char>, i: int) -> bool {
    0 <= i < s.len() && s[i].0 == k
}

/// The map that a listing stands for.
pub open spec fn listing_map<V>(s: Seq<(Seq<char>, V)>) -> Map<Seq<char>, V> {
    Map::new(
        |k: Seq<char>| exists|i: int| lists_at(s, k, i),
        |k: Seq<char>| s[choose|i: int| lists_at(s, k, i)].1,
    )
}

/// In an ordered listing every position is found again under its name.
pub proof fn lemma_listing_lookup<V>(s: Seq<(Seq<char>, V)>, i: int)
    requires
        listed_in_order(s),
        0 <= i < s.len(),
    ensures
        listing_map(s).contains_key(s[i].0),
        listing_map(s)[s[i].0] == s[i].1,
{
    let k = s[i].0;
    assert(lists_at(s, k, i));
    let j = choose|j: int| lists_at(s, k, j);
    if j != i {
        lemma_precedes_irreflexive(k);
    }
}

/// A name that stands before position `idx` and no later cannot be listed
/// anywhere but at `idx`.
pub proof fn lemma_listing_gap<V>(s: Seq<(Seq<char>, V)>, k: Seq<char>, idx: int)
    requires
        listed_in_order(s),
        0 <= idx <= s.len(),
        forall|j: int| 0 <= j < idx ==> name_precedes(#[trigger] s[j].0, k),
        idx < s.len() ==> name_precedes(k, s[idx].0),
    ensures
        !listing_map(s).contains_key(k),
        forall|j: int| idx <= j < s.len() ==> name_precedes(k, #[trigger] s[j].0),
{
    assert forall|j: int| idx <= j < s.len() implies name_precedes(k, #[trigger] s[j].0) by {
        if idx < j {
            lemma_precedes_transitive(k, s[idx].0, s[j].0);
        }
    }
    if listing_map(s).contains_key(k) {
        lemma_precedes_irreflexive(k);
    }
}

/// Placing a new name at its position keeps the order and adds one pair.
pub proof fn lemma_listing_insert<V>(s: Seq<(Seq<char>, V)>, idx: int, k: Seq<char>, v: V)
    requires
        listed_in_order(s),
        0 <= idx <= s.len(),
        forall|j: int| 0 <= j < idx ==> name_precedes(#[trigger] s[j].0, k),
        forall|j: int| idx <= j < s.len() ==> name_precedes(k, #[trigger] s[j].0),
    ensures
        listed_in_order(s.insert(idx, (k, v))),
        listing_map(s.insert(idx, (k, v))) == listing_map(s).insert(k, v),
{
    let t = s.insert(idx, (k, v));
    assert forall|i: int, j: int| 0 <= i < j < t.len() implies name_precedes(
        (#[trigger] t[i]).0,
        (#[trigger] t[j]).0,
    ) by {}
    let m = listing_map(s).insert(k, v);
    let n = listing_map(t);
    assert forall|key: Seq<char>| m.contains_key(key) implies #[trigger] n.contains_key(key) && n[key]
        == m[key] by {
        if key == k {
            lemma_listing_lookup(t, idx);
        } else {
            let j = choose|j: int| lists_at(s, key, j);
            lemma_listing_lookup(s, j);
            let tj = if j < idx { j } else { j + 1 };
            lemma_listing_lookup(t, tj);
        }
    }
    assert forall|key: Seq<char>| n.contains_key(key) implies #[trigger] m.contains_key(key) by {
        let j = choose|j: int| lists_at(t, key, j);
        if j != idx {
            let sj = if j < idx { j } else { j - 1 };
            assert(lists_at(s, key, sj));
        }
    }
}

/// Replacing the value at a position keeps the order and rewrites one pair.
pub proof fn lemma_listing_update<V>(s: Seq<(Seq<char>, V)>, idx: int, v: V)
    requires
        listed_in_order(s),
        0 <= idx < s.len(),
    ensures
        listed_in_order(s.update(idx, (s[idx].0, v))),
        listing_map(s.update(idx, (s[idx].0, v))) == listing_map(s).insert(s[idx].0, v),
{
    let k = s[idx].0;
    let t = s.update(idx, (k, v));
    assert forall|i: int, j: int| 0 <= i < j < t.len() implies name_precedes(
        (#[trigger] t[i]).0,
        (#[trigger] t[j]).0,
    ) by {}
    let m = listing_map(s).insert(k, v);
    let n = listing_map(t);
    assert forall|key: Seq<char>| m.contains_key(key) implies #[trigger] n.contains_key(key) && n[key]
        == m[key] by {
        if key == k {
            lemma_listing_lookup(t, idx);
        } else {
            let j = choose|j: int| lists_at(s, key, j);
            lemma_listing_lookup(s, j);
            lemma_listing_lookup(t, j);
        }
    }
    assert forall|key: Seq<char>| n.contains_key(key) implies #[trigger] m.contains_key(key) by {
        let j = choose|j: int| lists_at(t, key, j);
        assert(lists_at(s, key, j));
    }
}

/// Taking a position out keeps the order and drops one pair.
pub proof fn lemma_listing_remove<V>(s: Seq<(Seq<char>, V)>, idx: int)
    requires
        listed_in_order(s),
        0 <= idx < s.len(),
    ensures
        listed_in_order(s.remove(idx)),
        listing_map(s.remove(idx)) == listing_map(s).remove(s[idx].0),
{
    let k = s[idx].0;
    let t = s.remove(idx);
    assert forall|i: int, j: int| 0 <= i < j < t.len() implies name_precedes(
        (#[trigger] t[i]).0,
        (#[trigger] t[j]).0,
    ) by {}
    let m = listing_map(s).remove(k);
    let n = listing_map(t);
    assert forall|key: Seq<char>| m.contains_key(key) implies #[trigger] n.contains_key(key) && n[key]
        == m[key] by {
        let j = choose|j: int| lists_at(s, key, j);
        lemma_listing_lookup(s, j);
        let tj = if j < idx { j } else { j - 1 };
        lemma_listing_lookup(t, tj);
    }
    assert forall|key: Seq<char>| n.contains_key(key) implies #[trigger] m.contains_key(key) by {
        let j = choose|j: int| lists_at(t, key, j);
        let sj = if j < idx { j } else { j + 1 };
        assert(lists_at(s, key, sj));
        if key == k {
            lemma_precedes_irreflexive(k);
        }
    }
}

/// A listing stands for the empty map exactly when it is empty.
pub proof fn lemma_listing_empty<V>(s: Seq<(Seq<char>, V)>)
    ensures
        listing_map(s).is_empty() <==> s.len() == 0,
{
    if s.len() > 0 {
        assert(lists_at(s, s[0].0, 0));
        assert(listing_map(s).dom().contains(s[0].0));
    }
}

/// Adding a name that stands behind all others keeps the order and adds one
/// pair.
pub proof fn lemma_listing_push<V>(s: Seq<(Seq<char>, V)>, k: Seq<char>, v: V)
    requires
        listed_in_order(s),
        forall|j: int| 0 <= j < s.len() ==> name_precedes(#[trigger] s[j].0, k),
    ensures
        listed_in_order(s.push((k, v))),
        listing_map(s.push((k, v))) == listing_map(s).insert(k, v),
{
    lemma_listing_insert(s, s.len() as int, k, v);
    assert(s.insert(s.len() as int, (k, v)) =~= s.push((k, v)));
}

/// The listing up to position `i` is an ordered listing that does not hold
/// the name at `i`; with the pair at `i` added, it is the listing up to the
/// next position.
pub proof fn lemma_listing_prefix<V>(s: Seq<(Seq<char>, V)>, i: int)
    requires
        listed_in_order(s),
        0 <= i < s.len(),
    ensures
        listed_in_order(s.take(i)),
        !listing_map(s.take(i)).contains_key(s[i].0),
        s.take(i + 1) == s.take(i).push(s[i]),
        listing_map(s.take(i + 1)) == listing_map(s.take(i)).insert(s[i].0, s[i].1),
{
    let shorter = s.take(i);
    assert forall|a: int, b: int| 0 <= a < b < shorter.len() implies name_precedes(
        (#[trigger] shorter[a]).0,
        (#[trigger] shorter[b]).0,
    ) by {}
    assert forall|j: int| 0 <= j < shorter.len() implies name_precedes(
        #[trigger] shorter[j].0,
        s[i].0,
    ) by {}
    lemma_listing_gap(shorter, s[i].0, i);
    lemma_listing_push(shorter, s[i].0, s[i].1);
    assert(s.take(i + 1) =~= shorter.push(s[i]));
}

/// An ordered listing is as long as its map has names.
pub proof fn lemma_listing_len<V>(s: Seq<(Seq<char>, V)>)
    requires
        listed_in_order(s),
    ensures
        listing_map(s).dom().finite(),
        listing_map(s).dom().len() == s.len(),
    decreases s.len(),
{
    if s.len() == 0 {
        lemma_listing_empty(s);
    } else {
        let last = s.len() - 1;
        lemma_listing_prefix(s, last);
        lemma_listing_len(s.take(last));
        assert(s.take(last + 1) =~= s);
    }
}

/// Two ordered listings of one map are the same listing.
pub proof fn lemma_listing_unique<V>(s: Seq<(Seq<char>, V)>, t: Seq<(Seq<char>, V)>)
    requires
        listed_in_order(s),
        listed_in_order(t),
        listing_map(s) == listing_map(t),
    ensures
        s == t,
    decreases s.len(),
{
    if s.len() == 0 {
        if t.len() > 0 {
            lemma_listing_lookup(t, 0);
        }
    } else {
        lemma_listing_lookup(s, 0);
        lemma_listing_lookup(t, 0);
        let j = choose|j: int| lists_at(t, s[0].0, j);
        let i = choose|i: int| lists_at(s, t[0].0, i);
        if i > 0 && j > 0 {
            lemma_precedes_asymmetric(s[0].0, t[0].0);
        }
        lemma_listing_remove(s, 0);
        lemma_listing_remove(t, 0);
        lemma_listing_unique(s.remove(0), t.remove(0));
        assert(t =~= seq![t[0]] + t.remove(0));
    }
}

/// A map from accounts to values of type `V`.
#[derive(Debug)]
pub struct AccountMap<V> {
    entries: Vec<(AccountId, V)>,
}

impl<V> AccountMap<V> {
    /// The pairs of the map, in the order of the account names.
    pub closed spec fn listing(&self) -> Seq<(Seq<char>, V)> {
        self.entries@.map_values(|e: (AccountId, V)| (e.0@, e.1))
    }

    /// The listing is in order.
    pub open spec fn wf(&self) -> bool {
        listed_in_order(self.listing())
    }

    /// What the map holds.
    pub open spec fn view(&self) -> Map<Seq<char>, V> {
        listing_map(self.listing())
    }

    /// The empty map.
    pub fn new() -> (map: Self)
        ensures
            map.wf(),
            map.listing() == Seq::<(Seq<char>, V)>::empty(),
            map@ == Map::<Seq<char>, V>::empty(),
    {
        let map = AccountMap { entries: Vec::new() };
        map
    }

    /// The number of accounts in the map.
    pub fn len(&self) -> (n: usize)
        ensures
            n == self.listing().len(),
    {
        self.entries.len()
    }

    /// The account at position `i` of the listing.
    pub fn key_at(&self, i: usize) -> (key: &AccountId)
        requires
            i < self.listing().len(),
        ensures
            key@ == self.listing()[i as int].0,
    {
        &self.entries[i].0
    }

    /// The value at position `i` of the listing.
    pub fn value_at(&self, i: usize) -> (value: &V)
        requires
            i < self.listing().len(),
        ensures
            *value == self.listing()[i as int].1,
    {
        &self.entries[i].1
    }

    /// Whether the map holds nothing.
    pub fn is_empty(&self) -> (empty: bool)
        ensures
            empty == (self.listing().len() == 0),
            empty == self@.is_empty(),
    {
        proof {
            lemma_listing_empty(self.listing());
        }
        self.entries.len() == 0
    }

    /// Holds `value` for `key`, an account that stands behind every account
    /// of the map.
    pub(crate) fn push_last(&mut self, key: AccountId, value: V)
        requires
            old(self).wf(),
            forall|j: int|
                0 <= j < old(self).listing().len() ==> name_precedes(
                    #[trigger] old(self).listing()[j].0,
                    key@,
                ),
        ensures
            final(self).wf(),
            final(self).listing() == old(self).listing().push((key@, value)),
            final(self)@ == old(self)@.insert(key@, value),
    {
        proof {
            lemma_listing_push(self.listing(), key@, value);
        }
        self.entries.push((key, value));
        assert(self.listing() =~= old(self).listing().push((key@, value)));
    }

    /// Adds a pair at the end of the listing, whatever stands before it.
    pub(crate) fn push_unordered(&mut self, key: AccountId, value: V)
        ensures
            final(self).listing() == old(self).listing().push((key@, value)),
    {
        self.entries.push((key, value));
    }

    /// The position at which `key` is listed, or at which it would have to
    /// be placed, and whether it is listed there.
    pub fn search(&self, key: &AccountId) -> (found: (usize, bool))
        requires
            self.wf(),
        ensures
            found.0 <= self.listing().len(),
            forall|j: int| 0 <= j < found.0 ==> name_precedes(#[trigger] self.listing()[j].0, key@),
            forall|j: int|
                found.0 <= j < self.listing().len() && !(found.1 && j == found.0) ==> name_precedes(
                    key@,
                    #[trigger] self.listing()[j].0,
                ),
            found.1 ==> found.0 < self.listing().len() && self.listing()[found.0 as int].0
                == key@,
            found.1 == self@.contains_key(key@),
    {
        let mut i: usize = 0;
        while i < self.entries.len()
            invariant
                self.wf(),
                i <= self.entries.len(),
                self.entries.len() == self.listing().len(),
                forall|j: int| 0 <= j < i ==> name_precedes(#[trigger] self.listing()[j].0, key@),
            decreases self.entries.len() - i,
        {
            match self.entries[i].0.compare(key) {
                Precedence::Before => {
                    i = i + 1;
                },
                Precedence::Same => {
                    proof {
                        let s = self.listing();
                        lemma_listing_lookup(s, i as int);
                        assert forall|j: int| i < j < s.len() implies name_precedes(
                            key@,
                            #[trigger] s[j].0,
                        ) by {}
                    }
                    return (i, true);
                },
                Precedence::After => {
                    proof {
                        lemma_listing_gap(self.listing(), key@, i as int);
                    }
                    return (i, false);
                },
            }
        }
        proof {
            lemma_listing_gap(self.listing(), key@, i as int);
        }
        (i, false)
    }

    /// The value held for `key`, if there is one.
    pub fn get(&self, key: &AccountId) -> (value: Option<&V>)
        requires
            self.wf(),
        ensures
            match value {
                Some(v) => self@.contains_key(key@) && self@[key@] == *v,
                None => !self@.contains_key(key@),
            },
    {
        let (idx, found) = self.search(key);
        if found {
            proof {
                lemma_listing_lookup(self.listing(), idx as int);
            }
            Some(&self.entries[idx].1)
        } else {
            None
        }
    }

    /// Holds `value` for `key` from now on, in place of any earlier value.
    pub fn insert(&mut self, key: AccountId, value: V)
        requires
            old(self).wf(),
        ensures
            final(self).wf(),
            final(self)@ == old(self)@.insert(key@, value),
    {
        let (idx, found) = self.search(&key);
        let ghost before = self.listing();
        if found {
            proof {
                lemma_listing_update(before, idx as int, value);
            }
            self.entries.set(idx, (key, value));
            assert(self.listing() =~= before.update(idx as int, (key@, value)));
        } else {
            proof {
                lemma_listing_insert(before, idx as int, key@, value);
            }
            self.entries.insert(idx, (key, value));
            assert(self.listing() =~= before.insert(idx as int, (key@, value)));
        }
    }

    /// Holds nothing for `key` from now on, and hands out what was held.
    pub fn remove(&mut self, key: &AccountId) -> (value: Option<V>)
        requires
            old(self).wf(),
        ensures
            final(self).wf(),
            final(self)@ == old(self)@.remove(key@),
            match value {
                Some(v) => old(self)@.contains_key(key@) && old(self)@[key@] == v,
                None => !old(self)@.contains_key(key@),
            },
    {
        let (idx, found) = self.search(key);
        let ghost before = self.listing();
        if found {
            proof {
                lemma_listing_lookup(before, idx as int);
                lemma_listing_remove(before, idx as int);
            }
            let entry = self.entries.remove(idx);
            assert(self.listing() =~= before.remove(idx as int));
            Some(entry.1)
        } else {
            None
        }
    }
}

} // verus!
