//! Equality and order of deques: element by element, front to back.

use crate::linked_list::LinkedList;
use core::cmp::Ordering;
use vstd::prelude::*;
use vstd::std_specs::cmp::{
    OrdSpec, PartialEqSpec, PartialEqSpecImpl, PartialOrdSpec, PartialOrdSpecImpl,
};

verus! {

/// Two sequences are equal when they are as long as each other and their elements are
/// pairwise equal.
pub open spec fn seq_eq<T: PartialEq>(a: Seq<T>, b: Seq<T>) -> bool {
    &&& a.len() == b.len()
    &&& forall|i: int| 0 <= i < a.len() ==> #[trigger] a[i].eq_spec(&b[i])
}

/// Lexicographic order of two sequences under the partial order of their elements: the
/// first pair of elements that is not equal decides, an incomparable pair makes the
/// sequences incomparable, and a proper prefix comes first.
pub open spec fn lex_partial_cmp<T: PartialOrd>(a: Seq<T>, b: Seq<T>) -> Option<Ordering>
    decreases a.len(),
{
    if a.len() == 0 {
        if b.len() == 0 {
            Some(Ordering::Equal)
        } else {
            Some(Ordering::Less)
        }
    } else if b.len() == 0 {
        Some(Ordering::Greater)
    } else {
        match a[0].partial_cmp_spec(&b[0]) {
            Some(Ordering::Equal) => lex_partial_cmp(a.drop_first(), b.drop_first()),
            decided => decided,
        }
    }
}

/// Lexicographic order of two sequences under the total order of their elements.
pub open spec fn lex_cmp<T: Ord>(a: Seq<T>, b: Seq<T>) -> Ordering
    decreases a.len(),
{
    if a.len() == 0 {
        if b.len() == 0 {
            Ordering::Equal
        } else {
            Ordering::Less
        }
    } else if b.len() == 0 {
        Ordering::Greater
    } else {
        match a[0].cmp_spec(&b[0]) {
            Ordering::Equal => lex_cmp(a.drop_first(), b.drop_first()),
            decided => decided,
        }
    }
}

impl<T: PartialEq> PartialEq for LinkedList<T> {
    /// Same length and pairwise equal elements.
    fn eq(&self, other: &Self) -> (r: bool) {
        if self.len() != other.len() {
            return false;
        }
        let mut left = self.iter();
        let mut right = other.iter();
        let ghost mut k: int = 0;
        loop
            invariant
                0 <= k <= self@.len(),
                self@.len() == other@.len(),
                left.remaining() == self@.skip(k),
                right.remaining() == other@.skip(k),
                T::obeys_eq_spec() ==> forall|i: int|
                    0 <= i < k ==> #[trigger] self@[i].eq_spec(&other@[i]),
            decreases self@.len() - k,
        {
            match (left.next(), right.next()) {
                (Some(x), Some(y)) => {
                    if !x.eq(y) {
                        return false;
                    }
                    proof {
                        k = k + 1;
                    }
                },
                _ => {
                    return true;
                },
            }
        }
    }
}

impl<T: PartialEq> PartialEqSpecImpl for LinkedList<T> {
    open spec fn obeys_eq_spec() -> bool {
        T::obeys_eq_spec()
    }

    open spec fn eq_spec(&self, other: &Self) -> bool {
        seq_eq(self@, other@)
    }
}

impl<T: Eq> Eq for LinkedList<T> {

}

impl<T: PartialOrd> PartialOrd for LinkedList<T> {
    /// Lexicographic order; `None` as soon as two elements cannot be compared.
    fn partial_cmp(&self, other: &Self) -> (r: Option<Ordering>) {
        let mut left = self.iter();
        let mut right = other.iter();
        loop
            invariant
                T::obeys_partial_cmp_spec() ==> lex_partial_cmp(self@, other@) == lex_partial_cmp(
                    left.remaining(),
                    right.remaining(),
                ),
            decreases left.remaining().len(),
        {
            match left.next() {
                None => {
                    return if right.next().is_none() {
                        Some(Ordering::Equal)
                    } else {
                        Some(Ordering::Less)
                    };
                },
                Some(x) => match right.next() {
                    None => {
                        return Some(Ordering::Greater);
                    },
                    Some(y) => match x.partial_cmp(y) {
                        Some(Ordering::Equal) => {},
                        decided => {
                            return decided;
                        },
                    },
                },
            }
        }
    }
}

impl<T: PartialOrd> PartialOrdSpecImpl for LinkedList<T> {
    open spec fn obeys_partial_cmp_spec() -> bool {
        T::obeys_partial_cmp_spec()
    }

    open spec fn partial_cmp_spec(&self, other: &Self) -> Option<Ordering> {
        lex_partial_cmp(self@, other@)
    }
}

impl<T: Ord> LinkedList<T> {
    /// Lexicographic order of two deques whose elements are totally ordered.
    pub fn cmp(&self, other: &Self) -> (r: Ordering)
        ensures
            T::obeys_cmp_spec() ==> r == lex_cmp(self@, other@),
    {
        let mut left = self.iter();
        let mut right = other.iter();
        loop
            invariant
                T::obeys_cmp_spec() ==> lex_cmp(self@, other@) == lex_cmp(
                    left.remaining(),
                    right.remaining(),
                ),
            decreases left.remaining().len(),
        {
            match left.next() {
                None => {
                    return if right.next().is_none() {
                        Ordering::Equal
                    } else {
                        Ordering::Less
                    };
                },
                Some(x) => match right.next() {
                    None => {
                        return Ordering::Greater;
                    },
                    Some(y) => match x.cmp(y) {
                        Ordering::Equal => {},
                        decided => {
                            return decided;
                        },
                    },
                },
            }
        }
    }
}

} // verus!
