//! Values with a place in a total order.

use vstd::prelude::*;

verus! {

/// A type whose values are totally ordered by an integer rank.
///
/// Two values with the same rank are equal as far as any ordering in this
/// crate is concerned. The integer types rank by their own value; a float
/// enters through [`NoNaN`](crate::utils::nonan::NoNaN), which leaves out the
/// one value that has no place in the order.
pub trait Ranked {
    /// The place of the value in the order.
    spec fn rank(&self) -> int;

    /// Whether `self` comes strictly before `other`.
    fn ranks_below(&self, other: &Self) -> (below: bool)
        ensures
            below == (self.rank() < other.rank()),
    ;
}

impl Ranked for u8 {
    open spec fn rank(&self) -> int {
        *self as int
    }

    fn ranks_below(&self, other: &Self) -> (below: bool) {
        *self < *other
    }
}

impl Ranked for i8 {
    open spec fn rank(&self) -> int {
        *self as int
    }

    fn ranks_below(&self, other: &Self) -> (below: bool) {
        *self < *other
    }
}

impl Ranked for u16 {
    open spec fn rank(&self) -> int {
        *self as int
    }

    fn ranks_below(&self, other: &Self) -> (below: bool) {
        *self < *other
    }
}

impl Ranked for i16 {
    open spec fn rank(&self) -> int {
        *self as int
    }

    fn ranks_below(&self, other: &Self) -> (below: bool) {
        *self < *other
    }
}

impl Ranked for u32 {
    open spec fn rank(&self) -> int {
        *self as int
    }

    fn ranks_below(&self, other: &Self) -> (below: bool) {
        *self < *other
    }
}

impl Ranked for i32 {
    open spec fn rank(&self) -> int {
        *self as int
    }

    fn ranks_below(&self, other: &Self) -> (below: bool) {
        *self < *other
    }
}

impl Ranked for u64 {
    open spec fn rank(&self) -> int {
        *self as int
    }

    fn ranks_below(&self, other: &Self) -> (below: bool) {
        *self < *other
    }
}

impl Ranked for i64 {
    open spec fn rank(&self) -> int {
        *self as int
    }

    fn ranks_below(&self, other: &Self) -> (below: bool) {
        *self < *other
    }
}

impl Ranked for u128 {
    open spec fn rank(&self) -> int {
        *self as int
    }

    fn ranks_below(&self, other: &Self) -> (below: bool) {
        *self < *other
    }
}

impl Ranked for i128 {
    open spec fn rank(&self) -> int {
        *self as int
    }

    fn ranks_below(&self, other: &Self) -> (below: bool) {
        *self < *other
    }
}

impl Ranked for usize {
    open spec fn rank(&self) -> int {
        *self as int
    }

    fn ranks_below(&self, other: &Self) -> (below: bool) {
        *self < *other
    }
}

} // verus!
