//! A value together with the position it came from.

use core::cmp::Ordering;
use vstd::prelude::*;
use vstd::std_specs::cmp::PartialEqSpecImpl;
use vstd::std_specs::cmp::PartialOrdSpecImpl;

use crate::utils::order::Ranked;

verus! {

/// A value paired with its original position in a sequence.
///
/// The view is the pair `(index, value)`. Comparison with `==` and `<` looks
/// at the value alone: two entries with equal values and different indices
/// compare equal.
#[derive(Clone, Copy, Debug)]
pub struct IndexedTuple<T> {
    index: usize,
    value: T,
}

impl<T> View for IndexedTuple<T> {
    type V = (usize, T);

    closed spec fn view(&self) -> (usize, T) {
        (self.index, self.value)
    }
}

impl<T> IndexedTuple<T> {
    /// Pairs `value` with `index`.
    pub fn new(index: usize, value: T) -> (tuple: Self)
        ensures
            tuple@ == (index, value),
    {
        IndexedTuple { index, value }
    }

    /// The position the value came from.
    pub fn index(&self) -> (index: usize)
        ensures
            index == self@.0,
    {
        self.index
    }

    /// The value.
    pub fn value(&self) -> (value: &T)
        ensures
            *value == self@.1,
    {
        &self.value
    }
}

impl<T: Ranked> PartialEq for IndexedTuple<T> {
    fn eq(&self, other: &Self) -> (equal: bool) {
        !self.value.ranks_below(&other.value) && !other.value.ranks_below(&self.value)
    }
}

impl<T: Ranked> PartialEqSpecImpl for IndexedTuple<T> {
    open spec fn obeys_eq_spec() -> bool {
        true
    }

    open spec fn eq_spec(&self, other: &Self) -> bool {
        self@.1.rank() == other@.1.rank()
    }
}

impl<T: Ranked> Eq for IndexedTuple<T> {

}

impl<T: Ranked> PartialOrd for IndexedTuple<T> {
    fn partial_cmp(&self, other: &Self) -> (order: Option<Ordering>) {
        if self.value.ranks_below(&other.value) {
            Some(Ordering::Less)
        } else if other.value.ranks_below(&self.value) {
            Some(Ordering::Greater)
        } else {
            Some(Ordering::Equal)
        }
    }
}

impl<T: Ranked> PartialOrdSpecImpl for IndexedTuple<T> {
    open spec fn obeys_partial_cmp_spec() -> bool {
        true
    }

    open spec fn partial_cmp_spec(&self, other: &Self) -> Option<Ordering> {
        if self@.1.rank() < other@.1.rank() {
            Some(Ordering::Less)
        } else if self@.1.rank() > other@.1.rank() {
            Some(Ordering::Greater)
        } else {
            Some(Ordering::Equal)
        }
    }
}

} // verus!
