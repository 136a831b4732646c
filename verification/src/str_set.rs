//! A verified set of strings, stored as a duplicate-free vector and viewed
//! as a `Set<Seq<char>>`. Direct and flattened membership values, user
//! identity URLs and object-class sets are all held in this type.

use vstd::prelude::*;
use crate::str_utils::str_eq;

verus! {

pub struct StrSet {
    items: Vec<String>,
}

impl View for StrSet {
    type V = Set<Seq<char>>;

    closed spec fn view(&self) -> Set<Seq<char>> {
        self.items.deep_view().to_set()
    }
}

impl StrSet {
    #[verifier::type_invariant]
    spec fn wf(self) -> bool {
        self.items.deep_view().no_duplicates()
    }

    /// The empty set.
    pub fn new() -> (r: StrSet)
        ensures
            r@ == Set::<Seq<char>>::empty(),
    {
        let r = StrSet { items: Vec::new() };
        proof {
            assert(r@ =~= Set::<Seq<char>>::empty());
        }
        r
    }

    /// Membership test.
    pub fn contains(&self, x: &str) -> (r: bool)
        ensures
            r == self@.contains(x@),
    {
        let ghost dv = self.items.deep_view();
        let mut i: usize = 0;
        while i < self.items.len()
            invariant
                i <= self.items@.len(),
                dv == self.items.deep_view(),
                forall|j: int| 0 <= j < i ==> dv[j] != x@,
            decreases self.items@.len() - i,
        {
            if str_eq(self.items[i].as_str(), x) {
                proof {
                    assert(dv[i as int] == x@);
                    assert(dv.to_set().contains(x@));
                }
                return true;
            }
            i = i + 1;
        }
        proof {
            if dv.to_set().contains(x@) {
                assert(dv.contains(x@));
                let j = choose|j: int| 0 <= j < dv.len() && dv[j] == x@;
                assert(false);
            }
        }
        false
    }

    /// Number of elements.
    pub fn len(&self) -> (r: usize)
        ensures
            r == self@.len(),
    {
        proof {
            use_type_invariant(self);
            self.items.deep_view().unique_seq_to_set();
        }
        self.items.len()
    }

    /// Emptiness test.
    pub fn is_empty(&self) -> (r: bool)
        ensures
            r == (self@.len() == 0),
            r == (self@ =~= Set::<Seq<char>>::empty()),
    {
        proof {
            use_type_invariant(self);
            self.items.deep_view().unique_seq_to_set();
            if self.items@.len() > 0 {
                assert(self@.contains(self.items.deep_view()[0]));
            }
            assert(self.items@.len() == 0 ==> self@ =~= Set::<Seq<char>>::empty());
        }
        self.items.len() == 0
    }

    /// Adds one element.
    pub fn insert(&mut self, s: String)
        ensures
            final(self)@ == old(self)@.insert(s@),
    {
        proof {
            use_type_invariant(&*self);
        }
        let present = self.contains(s.as_str());
        if !present {
            let ghost olddv = self.items.deep_view();
            let mut items: Vec<String> = Vec::new();
            core::mem::swap(&mut items, &mut self.items);
            items.push(s);
            proof {
                assert(items.deep_view() =~= olddv.push(s@));
                assert(items.deep_view().no_duplicates());
            }
            self.items = items;
            proof {
                assert forall|y: Seq<char>|
                    final(self)@.contains(y) implies old(self)@.insert(s@).contains(y) by {
                    let j = choose|j: int|
                        0 <= j < olddv.push(s@).len() && olddv.push(s@)[j] == y;
                    if j < olddv.len() {
                        assert(olddv[j] == y);
                    }
                }
                assert forall|y: Seq<char>|
                    old(self)@.insert(s@).contains(y) implies final(self)@.contains(y) by {
                    if y == s@ {
                        assert(olddv.push(s@)[olddv.len() as int] == y);
                    } else {
                        let j = choose|j: int| 0 <= j < olddv.len() && olddv[j] == y;
                        assert(olddv.push(s@)[j] == y);
                    }
                }
                assert(final(self)@ =~= old(self)@.insert(s@));
            }
        } else {
            proof {
                assert(final(self)@ =~= old(self)@.insert(s@));
            }
        }
    }

    /// The union of two sets.
    pub fn union(&self, other: &StrSet) -> (r: StrSet)
        ensures
            r@ == self@.union(other@),
    {
        let mut r = StrSet { items: Vec::new() };
        proof {
            assert(r@ =~= Set::<Seq<char>>::empty());
        }
        let ghost sdv = self.items.deep_view();
        let ghost odv = other.items.deep_view();
        let mut i: usize = 0;
        while i < self.items.len()
            invariant
                i <= self.items@.len(),
                sdv == self.items.deep_view(),
                forall|y: Seq<char>| r@.contains(y) ==> self@.contains(y) || other@.contains(y),
                forall|j: int| 0 <= j < i ==> r@.contains(#[trigger] sdv[j]),
            decreases self.items@.len() - i,
        {
            proof {
                assert(sdv.to_set().contains(sdv[i as int]));
            }
            r.insert(self.items[i].clone());
            i = i + 1;
        }
        let mut k: usize = 0;
        while k < other.items.len()
            invariant
                k <= other.items@.len(),
                sdv == self.items.deep_view(),
                odv == other.items.deep_view(),
                forall|y: Seq<char>| r@.contains(y) ==> self@.contains(y) || other@.contains(y),
                forall|j: int| 0 <= j < sdv.len() ==> r@.contains(#[trigger] sdv[j]),
                forall|j: int| 0 <= j < k ==> r@.contains(#[trigger] odv[j]),
            decreases other.items@.len() - k,
        {
            proof {
                assert(odv.to_set().contains(odv[k as int]));
            }
            r.insert(other.items[k].clone());
            k = k + 1;
        }
        proof {
            assert forall|y: Seq<char>| self@.union(other@).contains(y) implies r@.contains(
                y,
            ) by {
                if self@.contains(y) {
                    let j = choose|j: int| 0 <= j < sdv.len() && sdv[j] == y;
                    assert(r@.contains(sdv[j]));
                } else {
                    let j = choose|j: int| 0 <= j < odv.len() && odv[j] == y;
                    assert(r@.contains(odv[j]));
                }
            }
            assert(r@ =~= self@.union(other@));
        }
        r
    }

    /// The elements of `self` that are not in `other`.
    pub fn difference(&self, other: &StrSet) -> (r: StrSet)
        ensures
            r@ == self@.difference(other@),
    {
        let mut r = StrSet { items: Vec::new() };
        proof {
            assert(r@ =~= Set::<Seq<char>>::empty());
        }
        let ghost sdv = self.items.deep_view();
        let mut i: usize = 0;
        while i < self.items.len()
            invariant
                i <= self.items@.len(),
                sdv == self.items.deep_view(),
                forall|y: Seq<char>|
                    r@.contains(y) ==> self@.contains(y) && !other@.contains(y),
                forall|j: int|
                    0 <= j < i && !other@.contains(#[trigger] sdv[j]) ==> r@.contains(sdv[j]),
            decreases self.items@.len() - i,
        {
            if !other.contains(self.items[i].as_str()) {
                proof {
                    assert(sdv.to_set().contains(sdv[i as int]));
                }
                r.insert(self.items[i].clone());
            }
            i = i + 1;
        }
        proof {
            assert forall|y: Seq<char>| self@.difference(other@).contains(y) implies r@.contains(
                y,
            ) by {
                let j = choose|j: int| 0 <= j < sdv.len() && sdv[j] == y;
                assert(r@.contains(sdv[j]));
            }
            assert(r@ =~= self@.difference(other@));
        }
        r
    }

    /// Whether every element of `self` is in `other`.
    pub fn is_subset_of(&self, other: &StrSet) -> (r: bool)
        ensures
            r == self@.subset_of(other@),
    {
        let ghost sdv = self.items.deep_view();
        let mut i: usize = 0;
        while i < self.items.len()
            invariant
                i <= self.items@.len(),
                sdv == self.items.deep_view(),
                forall|j: int| 0 <= j < i ==> other@.contains(#[trigger] sdv[j]),
            decreases self.items@.len() - i,
        {
            if !other.contains(self.items[i].as_str()) {
                proof {
                    assert(sdv.to_set().contains(sdv[i as int]));
                }
                return false;
            }
            i = i + 1;
        }
        proof {
            assert forall|y: Seq<char>| self@.contains(y) implies other@.contains(y) by {
                let j = choose|j: int| 0 <= j < sdv.len() && sdv[j] == y;
                assert(other@.contains(sdv[j]));
            }
        }
        true
    }

    /// Whether the two sets hold the same elements.
    pub fn set_eq(&self, other: &StrSet) -> (r: bool)
        ensures
            r == (self@ =~= other@),
    {
        let sub = self.is_subset_of(other);
        let sup = other.is_subset_of(self);
        sub && sup
    }

    /// A copy of the set.
    pub fn duplicate(&self) -> (r: StrSet)
        ensures
            r@ == self@,
    {
        StrSet::from_vec(&self.items)
    }

    /// Builds a set from a vector, dropping duplicates.
    pub fn from_vec(v: &Vec<String>) -> (r: StrSet)
        ensures
            r@ == v.deep_view().to_set(),
    {
        let ghost dv = v.deep_view();
        let mut r = StrSet { items: Vec::new() };
        proof {
            assert(r@ =~= Set::<Seq<char>>::empty());
        }
        let mut i: usize = 0;
        while i < v.len()
            invariant
                i <= v@.len(),
                dv == v.deep_view(),
                forall|y: Seq<char>| r@.contains(y) ==> dv.to_set().contains(y),
                forall|j: int| 0 <= j < i ==> r@.contains(#[trigger] dv[j]),
            decreases v@.len() - i,
        {
            proof {
                assert(dv.to_set().contains(dv[i as int]));
            }
            r.insert(v[i].clone());
            i = i + 1;
        }
        proof {
            assert forall|y: Seq<char>| dv.to_set().contains(y) implies r@.contains(y) by {
                let j = choose|j: int| 0 <= j < dv.len() && dv[j] == y;
                assert(r@.contains(dv[j]));
            }
            assert(r@ =~= dv.to_set());
        }
        r
    }

    /// The elements, duplicate-free, in their insertion order.
    pub fn elems(&self) -> (r: &Vec<String>)
        ensures
            r.deep_view().to_set() == self@,
            r.deep_view().no_duplicates(),
    {
        proof {
            use_type_invariant(self);
        }
        &self.items
    }
}

} // verus!
