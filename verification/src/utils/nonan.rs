//! Floating-point numbers without NaN, which have a total order.
//!
//! A number is held as its IEEE 754 bit pattern: a `u32` for single
//! precision, a `u64` for double precision. In both formats the highest bit
//! is the sign and the remaining bits, read as an integer, grow with the
//! magnitude of the number; the patterns whose magnitude bits exceed those of
//! infinity are the NaNs. So the order of the numbers is the order of their
//! signed magnitudes, in which the two zeros are equal.

use core::cmp::Ordering;
use vstd::prelude::*;
use vstd::std_specs::cmp::PartialEqSpecImpl;
use vstd::std_specs::cmp::PartialOrdSpecImpl;

use crate::utils::order::Ranked;

verus! {

/// The sign bit of a single-precision pattern.
pub const SIGN_32: u32 = 0x8000_0000;

/// The pattern of positive infinity in single precision.
pub const INFINITY_32: u32 = 0x7f80_0000;

/// The sign bit of a double-precision pattern.
pub const SIGN_64: u64 = 0x8000_0000_0000_0000;

/// The pattern of positive infinity in double precision.
pub const INFINITY_64: u64 = 0x7ff0_0000_0000_0000;

/// An integer type that holds the bit pattern of a floating-point number.
pub trait FloatBits: Copy {
    /// Whether the pattern is one of NaN.
    spec fn is_nan(&self) -> bool;

    /// The signed magnitude of the pattern: for patterns that are not NaN,
    /// `a.signed_magnitude() < b.signed_magnitude()` exactly when the number
    /// of `a` is less than the number of `b`.
    spec fn signed_magnitude(&self) -> int;

    /// Decides [`is_nan`](FloatBits::is_nan).
    fn encodes_nan(&self) -> (nan: bool)
        ensures
            nan == self.is_nan(),
    ;

    /// Whether the signed magnitude of `self` is less than that of `other`.
    fn magnitude_below(&self, other: &Self) -> (below: bool)
        ensures
            below == (self.signed_magnitude() < other.signed_magnitude()),
    ;
}

impl FloatBits for u32 {
    open spec fn is_nan(&self) -> bool {
        if *self >= SIGN_32 {
            *self - SIGN_32 > INFINITY_32
        } else {
            *self > INFINITY_32
        }
    }

    open spec fn signed_magnitude(&self) -> int {
        if *self >= SIGN_32 {
            SIGN_32 - *self
        } else {
            *self as int
        }
    }

    fn encodes_nan(&self) -> (nan: bool) {
        if *self >= SIGN_32 {
            *self - SIGN_32 > INFINITY_32
        } else {
            *self > INFINITY_32
        }
    }

    fn magnitude_below(&self, other: &Self) -> (below: bool) {
        if *self >= SIGN_32 {
            if *other >= SIGN_32 {
                *self > *other
            } else {
                *self > SIGN_32 || *other > 0
            }
        } else {
            *other < SIGN_32 && *self < *other
        }
    }
}

impl FloatBits for u64 {
    open spec fn is_nan(&self) -> bool {
        if *self >= SIGN_64 {
            *self - SIGN_64 > INFINITY_64
        } else {
            *self > INFINITY_64
        }
    }

    open spec fn signed_magnitude(&self) -> int {
        if *self >= SIGN_64 {
            SIGN_64 - *self
        } else {
            *self as int
        }
    }

    fn encodes_nan(&self) -> (nan: bool) {
        if *self >= SIGN_64 {
            *self - SIGN_64 > INFINITY_64
        } else {
            *self > INFINITY_64
        }
    }

    fn magnitude_below(&self, other: &Self) -> (below: bool) {
        if *self >= SIGN_64 {
            if *other >= SIGN_64 {
                *self > *other
            } else {
                *self > SIGN_64 || *other > 0
            }
        } else {
            *other < SIGN_64 && *self < *other
        }
    }
}

/// A floating-point number that is not NaN, held as its bit pattern.
///
/// The view is the bit pattern. Such numbers are totally ordered, by the
/// usual comparison of floating-point numbers: `==` and `<` compare the
/// numbers, not the patterns, so the two zeros are equal.
#[derive(Debug)]
pub struct NoNaN<T: FloatBits> {
    bits: T,
}

impl<T: FloatBits> Clone for NoNaN<T> {
    fn clone(&self) -> (copy: Self)
        ensures
            copy == *self,
    {
        *self
    }
}

impl<T: FloatBits> Copy for NoNaN<T> {

}

impl<T: FloatBits> View for NoNaN<T> {
    type V = T;

    closed spec fn view(&self) -> T {
        self.bits
    }
}

impl<T: FloatBits> NoNaN<T> {
    #[verifier::type_invariant]
    spec fn not_nan(self) -> bool {
        !self.bits.is_nan()
    }

    /// Wraps the number with the bit pattern `value`, unless it is NaN.
    pub fn new(value: T) -> (wrapped: Option<Self>)
        ensures
            match wrapped {
                Some(number) => !value.is_nan() && number@ == value,
                None => value.is_nan(),
            },
    {
        if value.encodes_nan() {
            None
        } else {
            Some(NoNaN { bits: value })
        }
    }

    /// The bit pattern of the number, which is not one of NaN.
    pub fn value(&self) -> (value: T)
        ensures
            value == self@,
            !value.is_nan(),
    {
        proof {
            use_type_invariant(self);
        }
        self.bits
    }
}

impl<T: FloatBits> Ranked for NoNaN<T> {
    open spec fn rank(&self) -> int {
        self@.signed_magnitude()
    }

    fn ranks_below(&self, other: &Self) -> (below: bool) {
        self.bits.magnitude_below(&other.bits)
    }
}

impl<T: FloatBits> PartialEq for NoNaN<T> {
    fn eq(&self, other: &Self) -> (equal: bool) {
        !self.bits.magnitude_below(&other.bits) && !other.bits.magnitude_below(&self.bits)
    }
}

impl<T: FloatBits> PartialEqSpecImpl for NoNaN<T> {
    open spec fn obeys_eq_spec() -> bool {
        true
    }

    open spec fn eq_spec(&self, other: &Self) -> bool {
        self.rank() == other.rank()
    }
}

impl<T: FloatBits> Eq for NoNaN<T> {

}

impl<T: FloatBits> PartialOrd for NoNaN<T> {
    fn partial_cmp(&self, other: &Self) -> (order: Option<Ordering>) {
        if self.bits.magnitude_below(&other.bits) {
            Some(Ordering::Less)
        } else if other.bits.magnitude_below(&self.bits) {
            Some(Ordering::Greater)
        } else {
            Some(Ordering::Equal)
        }
    }
}

impl<T: FloatBits> PartialOrdSpecImpl for NoNaN<T> {
    open spec fn obeys_partial_cmp_spec() -> bool {
        true
    }

    open spec fn partial_cmp_spec(&self, other: &Self) -> Option<Ordering> {
        if self.rank() < other.rank() {
            Some(Ordering::Less)
        } else if self.rank() > other.rank() {
            Some(Ordering::Greater)
        } else {
            Some(Ordering::Equal)
        }
    }
}

} // verus!
