//! A valuation: a finite mapping from variable names to booleans.
//!
//! The type is a small association list viewed as a `Map<Seq<char>, bool>`;
//! a later insertion of the same name overrides an earlier one, and a name
//! never inserted reads as false, as [`crate::semantics::lookup`] specifies.

use vstd::prelude::*;

use crate::semantics::lookup;

verus! {

/// An assignment of booleans to variable names.
pub struct Valuation {
    pairs: Vec<(String, bool)>,
}

/// The mapping an association list stands for: later entries override
/// earlier ones.
pub open spec fn pairs_map(s: Seq<(String, bool)>) -> Map<Seq<char>, bool>
    decreases s.len(),
{
    if s.len() == 0 {
        Map::empty()
    } else {
        pairs_map(s.drop_last()).insert(s.last().0@, s.last().1)
    }
}

impl View for Valuation {
    type V = Map<Seq<char>, bool>;

    closed spec fn view(&self) -> Map<Seq<char>, bool> {
        pairs_map(self.pairs@)
    }
}

impl Valuation {
    /// The empty valuation: every variable reads as false.
    pub fn new() -> (v: Valuation)
        ensures
            v@ == Map::<Seq<char>, bool>::empty(),
    {
        Valuation { pairs: Vec::new() }
    }

    /// Assigns a value to a name, overriding any earlier assignment.
    pub fn insert(&mut self, name: String, value: bool)
        ensures
            final(self)@ == old(self)@.insert(name@, value),
    {
        let ghost name_view = name@;
        self.pairs.push((name, value));
        proof {
            assert(self.pairs@.drop_last() =~= old(self).pairs@);
            assert(self.pairs@.last().0@ == name_view);
        }
    }

    /// The valuation that declares exactly the given names true: every name
    /// of the list reads as true and every other name as false.
    pub fn from_true_names(names: &Vec<String>) -> (v: Valuation)
        ensures
            forall|k: Seq<char>| #[trigger] lookup(v@, k) == names.deep_view().contains(k),
    {
        let mut v = Valuation::new();
        let mut i: usize = 0;
        while i < names.len()
            invariant
                i <= names.len(),
                forall|k: Seq<char>| #[trigger] lookup(v@, k) == names.deep_view().take(
                    i as int,
                ).contains(k),
            decreases names.len() - i,
        {
            let ghost before = v@;
            v.insert(names[i].clone(), true);
            proof {
                assert(names.deep_view()[i as int] == names@[i as int]@);
                assert(v@ == before.insert(names.deep_view()[i as int], true));
                let taken = names.deep_view().take(i as int + 1);
                assert forall|k: Seq<char>| #[trigger] lookup(v@, k) == taken.contains(k) by {
                    if k == names.deep_view()[i as int] {
                        assert(lookup(v@, k));
                        assert(taken[i as int] == k);
                        assert(taken.contains(k));
                    } else {
                        assert(lookup(v@, k) == lookup(before, k));
                        assert(lookup(before, k) == names.deep_view().take(i as int).contains(k));
                        if taken.contains(k) {
                            let j = choose|j: int| 0 <= j < taken.len() && taken[j] == k;
                            assert(names.deep_view().take(i as int)[j] == k);
                        }
                        if names.deep_view().take(i as int).contains(k) {
                            let j = choose|j: int|
                                0 <= j < i as int && names.deep_view().take(i as int)[j] == k;
                            assert(taken[j] == k);
                        }
                    }
                }
            }
            i = i + 1;
        }
        proof {
            assert(names.deep_view().take(names.len() as int) =~= names.deep_view());
        }
        v
    }

    /// Reads a name; a name never assigned is false.
    pub fn get(&self, name: &String) -> (value: bool)
        ensures
            value == lookup(self@, name@),
    {
        let mut i: usize = self.pairs.len();
        proof {
            assert(self.pairs@.take(i as int) =~= self.pairs@);
        }
        while i > 0
            invariant
                i <= self.pairs.len(),
                lookup(pairs_map(self.pairs@.take(i as int)), name@) == lookup(self@, name@),
            decreases i,
        {
            i = i - 1;
            proof {
                assert(self.pairs@.take(i + 1).drop_last() =~= self.pairs@.take(i as int));
                assert(self.pairs@.take(i + 1).last() == self.pairs@[i as int]);
            }
            if self.pairs[i].0 == *name {
                return self.pairs[i].1;
            }
        }
        false
    }
}

} // verus!
