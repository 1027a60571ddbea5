//! Account identifiers and the order in which the ledger lists them.

use vstd::prelude::*;
use vstd::std_specs::iter::IteratorSpec;
use vstd::string::*;

verus! {

/// How one account name stands relative to another in the listing order.
#[derive(Clone, Copy, Debug, PartialEq, Eq, Structural)]
pub enum Precedence {
    Before,
    Same,
    After,
}

/// `a` and `b` agree on their first `i` characters, and at position `i` either
/// `a` has ended while `b` goes on, or `a` holds the smaller character.
pub open spec fn parts_at(a: Seq<char>, b: Seq<char>, i: int) -> bool {
    &&& 0 <= i <= a.len()
    &&& i < b.len()
    &&& a.take(i) =~= b.take(i)
    &&& i < a.len() ==> (a[i] as int) < (b[i] as int)
}

/// The listing order of account names: character by character, a proper
/// prefix before its extensions.
pub open spec fn name_precedes(a: Seq<char>, b: Seq<char>) -> bool {
    exists|i: int| parts_at(a, b, i)
}

/// No name precedes itself.
pub proof fn lemma_precedes_irreflexive(a: Seq<char>)
    ensures
        !name_precedes(a, a),
{
}

/// The listing order is transitive.
pub proof fn lemma_precedes_transitive(a: Seq<char>, b: Seq<char>, c: Seq<char>)
    requires
        name_precedes(a, b),
        name_precedes(b, c),
    ensures
        name_precedes(a, c),
{
    let i = choose|i: int| parts_at(a, b, i);
    let j = choose|j: int| parts_at(b, c, j);
    let k = if i <= j { i } else { j };
    if k < a.len() {
        if i < j {
            assert(b.take(j)[i] == c.take(j)[i]);
        } else if j < i {
            assert(a.take(i)[j] == b.take(i)[j]);
        }
    }
    assert(parts_at(a, c, k));
}

/// Of two names, at most one precedes the other.
pub proof fn lemma_precedes_asymmetric(a: Seq<char>, b: Seq<char>)
    requires
        name_precedes(a, b),
    ensures
        !name_precedes(b, a),
        a != b,
{
    if name_precedes(b, a) {
        lemma_precedes_transitive(a, b, a);
    }
    lemma_precedes_irreflexive(a);
}

/// Compares two texts in the listing order.
pub fn compare_names(a: &str, b: &str) -> (r: Precedence)
    ensures
        r is Before <==> name_precedes(a@, b@),
        r is Same <==> a@ == b@,
        r is After <==> name_precedes(b@, a@),
{
    broadcast use vstd::string::group_string_axioms;

    let mut x = a.chars();
    let mut y = b.chars();
    let ghost mut i: int = 0;
    loop
        invariant
            0 <= i <= a@.len(),
            i <= b@.len(),
            x.remaining() == a@.skip(i),
            y.remaining() == b@.skip(i),
            a@.take(i) == b@.take(i),
            x.obeys_prophetic_iter_laws(),
            y.obeys_prophetic_iter_laws(),
            x.decrease() is Some,
        decreases x.decrease()->0,
    {
        let p = x.next();
        let q = y.next();
        match (p, q) {
            (Some(c), Some(d)) => {
                if c < d {
                    proof {
                        assert(parts_at(a@, b@, i));
                        lemma_precedes_asymmetric(a@, b@);
                    }
                    return Precedence::Before;
                }
                if d < c {
                    proof {
                        assert(parts_at(b@, a@, i));
                        lemma_precedes_asymmetric(b@, a@);
                    }
                    return Precedence::After;
                }
                proof {
                    i = i + 1;
                }
            },
            (None, Some(_)) => {
                proof {
                    assert(parts_at(a@, b@, i));
                    lemma_precedes_asymmetric(a@, b@);
                }
                return Precedence::Before;
            },
            (Some(_), None) => {
                proof {
                    assert(parts_at(b@, a@, i));
                    lemma_precedes_asymmetric(b@, a@);
                }
                return Precedence::After;
            },
            (None, None) => {
                proof {
                    assert(a@ == a@.take(i));
                    assert(b@ == b@.take(i));
                    lemma_precedes_irreflexive(a@);
                }
                return Precedence::Same;
            },
        }
    }
}

/// An account on the network: a matcher, a recipient or a donor. The ledger
/// reads nothing from it but its name.
#[derive(Debug, PartialEq, Eq)]
pub struct AccountId {
    name: String,
}

impl View for AccountId {
    type V = Seq<char>;

    closed spec fn view(&self) -> Seq<char> {
        self.name@
    }
}

impl Clone for AccountId {
    fn clone(&self) -> (copy: Self)
        ensures
            copy@ == self@,
    {
        AccountId { name: self.name.clone() }
    }
}

impl AccountId {
    /// The account with the given name.
    pub fn new(name: String) -> (id: Self)
        ensures
            id@ == name@,
    {
        AccountId { name }
    }

    /// The account's name.
    pub fn as_str(&self) -> (name: &str)
        ensures
            name@ == self@,
    {
        self.name.as_str()
    }

    /// Where this account stands relative to `other` in the listing order.
    pub fn compare(&self, other: &AccountId) -> (r: Precedence)
        ensures
            r is Before <==> name_precedes(self@, other@),
            r is Same <==> self@ == other@,
            r is After <==> name_precedes(other@, self@),
    {
        compare_names(self.name.as_str(), other.name.as_str())
    }
}

} // verus!
