//! One-hot encoding of class indices.

use vstd::prelude::*;

use crate::errors::Error;
use crate::errors::ErrorView;

verus! {

/// `to_usize` of `num_traits::ToPrimitive` for `u8`: the same number as a
/// `usize` where it is at most `usize::MAX`, and `None` where it is more.
pub assume_specification[ <u8 as num_traits::ToPrimitive>::to_usize ](value: &u8) -> (index: Option<
    usize,
>)
    ensures
        index == (if *value <= usize::MAX {
            Some(*value as usize)
        } else {
            None
        }),
;

/// `to_usize` of `num_traits::ToPrimitive` for `u16`: the same number as a
/// `usize` where it is at most `usize::MAX`, and `None` where it is more.
pub assume_specification[ <u16 as num_traits::ToPrimitive>::to_usize ](value: &u16) -> (index: Option<
    usize,
>)
    ensures
        index == (if *value <= usize::MAX {
            Some(*value as usize)
        } else {
            None
        }),
;

/// `to_usize` of `num_traits::ToPrimitive` for `u32`: the same number as a
/// `usize` where it is at most `usize::MAX`, and `None` where it is more.
pub assume_specification[ <u32 as num_traits::ToPrimitive>::to_usize ](value: &u32) -> (index: Option<
    usize,
>)
    ensures
        index == (if *value <= usize::MAX {
            Some(*value as usize)
        } else {
            None
        }),
;

/// `to_usize` of `num_traits::ToPrimitive` for `u64`: the same number as a
/// `usize` where it is at most `usize::MAX`, and `None` where it is more.
pub assume_specification[ <u64 as num_traits::ToPrimitive>::to_usize ](value: &u64) -> (index: Option<
    usize,
>)
    ensures
        index == (if *value <= usize::MAX {
            Some(*value as usize)
        } else {
            None
        }),
;

/// `to_usize` of `num_traits::ToPrimitive` for `u128`: the same number as a
/// `usize` where it is at most `usize::MAX`, and `None` where it is more.
pub assume_specification[ <u128 as num_traits::ToPrimitive>::to_usize ](value: &u128) -> (index: Option<
    usize,
>)
    ensures
        index == (if *value <= usize::MAX {
            Some(*value as usize)
        } else {
            None
        }),
;

/// `to_usize` of `num_traits::ToPrimitive` for `usize`: the same number as a
/// `usize` where it is at most `usize::MAX`, and `None` where it is more.
pub assume_specification[ <usize as num_traits::ToPrimitive>::to_usize ](value: &usize) -> (index: Option<
    usize,
>)
    ensures
        index == (if *value <= usize::MAX {
            Some(*value as usize)
        } else {
            None
        }),
;

/// An unsigned integer type that numbers classes.
///
/// The integer types `u8`, `u16`, `u32`, `u64`, `u128` and `usize` are such
/// types. Each converts to a `usize` by the `to_usize` that `num_traits`
/// has for it, of which this module states above what it returns.
pub trait ClassIndex: Copy {
    /// The number that the value stands for.
    spec fn class(&self) -> nat;

    /// The number as a `usize`, where it fits in one.
    fn to_index(&self) -> (index: Option<usize>)
        ensures
            index == (if self.class() <= usize::MAX {
                Some(self.class() as usize)
            } else {
                None
            }),
    ;
}

impl ClassIndex for u8 {
    open spec fn class(&self) -> nat {
        *self as nat
    }

    fn to_index(&self) -> (index: Option<usize>) {
        num_traits::ToPrimitive::to_usize(self)
    }
}

impl ClassIndex for u16 {
    open spec fn class(&self) -> nat {
        *self as nat
    }

    fn to_index(&self) -> (index: Option<usize>) {
        num_traits::ToPrimitive::to_usize(self)
    }
}

impl ClassIndex for u32 {
    open spec fn class(&self) -> nat {
        *self as nat
    }

    fn to_index(&self) -> (index: Option<usize>) {
        num_traits::ToPrimitive::to_usize(self)
    }
}

impl ClassIndex for u64 {
    open spec fn class(&self) -> nat {
        *self as nat
    }

    fn to_index(&self) -> (index: Option<usize>) {
        num_traits::ToPrimitive::to_usize(self)
    }
}

impl ClassIndex for u128 {
    open spec fn class(&self) -> nat {
        *self as nat
    }

    fn to_index(&self) -> (index: Option<usize>) {
        num_traits::ToPrimitive::to_usize(self)
    }
}

impl ClassIndex for usize {
    open spec fn class(&self) -> nat {
        *self as nat
    }

    fn to_index(&self) -> (index: Option<usize>) {
        num_traits::ToPrimitive::to_usize(self)
    }
}

/// Whether `one_hot` has one flag for each of `num_classes` classes, set
/// exactly for the classes that occur in `classes`.
pub open spec fn is_one_hot(classes: Seq<nat>, num_classes: nat, one_hot: Seq<bool>) -> bool {
    &&& one_hot.len() == num_classes
    &&& forall|c: int| 0 <= c < one_hot.len() ==> (#[trigger] one_hot[c]) == classes.contains(c as nat)
}

/// Whether every class in `classes` is below `num_classes`.
pub open spec fn all_in_range(classes: Seq<nat>, num_classes: nat) -> bool {
    forall|p: int| 0 <= p < classes.len() ==> (#[trigger] classes[p]) < num_classes
}

/// Whether `position` is the first place in `classes` of a class that is
/// not below `num_classes`.
pub open spec fn first_out_of_range(classes: Seq<nat>, num_classes: nat, position: int) -> bool {
    &&& 0 <= position < classes.len()
    &&& classes[position] >= num_classes
    &&& forall|p: int| 0 <= p < position ==> (#[trigger] classes[p]) < num_classes
}

/// What the checked encoding of `classes` returns: the one-hot vector
/// where every class is in range, else the error `OutOfRange` with the
/// first position of a class that is not.
pub open spec fn one_hot_outcome(
    classes: Seq<nat>,
    num_classes: nat,
    result: Result<Vec<bool>, Error>,
) -> bool {
    match result {
        Ok(one_hot) => all_in_range(classes, num_classes) && is_one_hot(
            classes,
            num_classes,
            one_hot@,
        ),
        Err(e) => exists|position: usize|
            first_out_of_range(classes, num_classes, position as int) && e@ == (
            ErrorView::OutOfRange { position }),
    }
}

/// Conversion of class indices into a one-hot vector.
pub trait ToOneHot<T1: ClassIndex> {
    /// The classes that the value names, in its own order.
    spec fn classes(&self) -> Seq<nat>;

    /// The vector of `num_classes` flags in which exactly the flags of the
    /// named classes are set. Naming a class twice is the same as naming it
    /// once.
    ///
    /// Every named class must be below `num_classes`;
    /// [`try_convert`](ToOneHot::try_convert) is for callers that cannot
    /// promise it.
    fn convert(&self, num_classes: T1) -> (one_hot: Vec<bool>)
        requires
            num_classes.class() <= usize::MAX,
            all_in_range(self.classes(), num_classes.class()),
        ensures
            is_one_hot(self.classes(), num_classes.class(), one_hot@),
    ;

    /// As [`convert`](ToOneHot::convert), but a class that is not below
    /// `num_classes` is reported as the error `OutOfRange`.
    fn try_convert(&self, num_classes: T1) -> (result: Result<Vec<bool>, Error>)
        requires
            num_classes.class() <= usize::MAX,
        ensures
            one_hot_outcome(self.classes(), num_classes.class(), result),
    ;
}

/// A vector of `len` flags, none of them set.
fn cleared(len: usize) -> (flags: Vec<bool>)
    ensures
        flags@.len() == len,
        forall|c: int| 0 <= c < len ==> !(#[trigger] flags@[c]),
{
    let mut flags: Vec<bool> = Vec::with_capacity(len);
    while flags.len() < len
        invariant
            flags@.len() <= len,
            forall|c: int| 0 <= c < flags@.len() ==> !(#[trigger] flags@[c]),
        decreases len - flags@.len(),
    {
        flags.push(false);
    }
    flags
}

impl<T1: ClassIndex> ToOneHot<T1> for T1 {
    open spec fn classes(&self) -> Seq<nat> {
        seq![self.class()]
    }

    fn convert(&self, num_classes: T1) -> (one_hot: Vec<bool>) {
        assert(self.classes()[0] < num_classes.class());
        self.try_convert(num_classes).unwrap()
    }

    fn try_convert(&self, num_classes: T1) -> (result: Result<Vec<bool>, Error>) {
        let len: usize = num_classes.to_index().unwrap();
        let ghost classes = self.classes();
        match self.to_index() {
            Some(class) if class < len => {
                let mut one_hot = cleared(len);
                one_hot.set(class, true);
                proof {
                    assert forall|c: int| 0 <= c < one_hot@.len() implies (#[trigger] one_hot@[c])
                        == classes.contains(c as nat) by {
                        if c == class {
                            assert(classes[0] == c as nat);
                        }
                    }
                }
                Ok(one_hot)
            },
            _ => {
                assert(first_out_of_range(classes, num_classes.class(), 0));
                Err(Error::OutOfRange { position: 0 })
            },
        }
    }
}

impl<T1: ClassIndex> ToOneHot<T1> for Vec<T1> {
    open spec fn classes(&self) -> Seq<nat> {
        self@.map_values(|class: T1| class.class())
    }

    fn convert(&self, num_classes: T1) -> (one_hot: Vec<bool>) {
        let result = self.try_convert(num_classes);
        proof {
            if result is Err {
                let position = choose|position: usize|
                    first_out_of_range(self.classes(), num_classes.class(), position as int);
                assert(self.classes()[position as int] < num_classes.class());
            }
        }
        result.unwrap()
    }

    fn try_convert(&self, num_classes: T1) -> (result: Result<Vec<bool>, Error>) {
        let len: usize = num_classes.to_index().unwrap();
        let ghost classes = self.classes();
        let mut one_hot = cleared(len);
        let mut position: usize = 0;
        while position < self.len()
            invariant
                position <= self.len(),
                classes == self.classes(),
                len == num_classes.class(),
                one_hot@.len() == len,
                forall|p: int| 0 <= p < position ==> (#[trigger] classes[p]) < len,
                forall|c: int|
                    0 <= c < len ==> (#[trigger] one_hot@[c]) == classes.take(position as int).contains(
                        c as nat,
                    ),
            decreases self.len() - position,
        {
            let ghost seen = classes.take(position as int);
            let ghost seen_next = classes.take(position + 1);
            assert(seen_next =~= seen.push(classes[position as int]));
            match self[position].to_index() {
                Some(class) if class < len => {
                    one_hot.set(class, true);
                    proof {
                        assert forall|c: int| 0 <= c < len implies (#[trigger] one_hot@[c])
                            == seen_next.contains(c as nat) by {
                            if c == class {
                                assert(seen_next[position as int] == c as nat);
                            } else if seen.contains(c as nat) {
                                let p = choose|p: int| 0 <= p < seen.len() && seen[p] == c as nat;
                                assert(seen_next[p] == c as nat);
                            } else if seen_next.contains(c as nat) {
                                let p = choose|p: int|
                                    0 <= p < seen_next.len() && seen_next[p] == c as nat;
                                assert(seen[p] == c as nat);
                            }
                        }
                    }
                },
                _ => {
                    assert(first_out_of_range(classes, num_classes.class(), position as int));
                    return Err(Error::OutOfRange { position });
                },
            }
            position += 1;
        }
        assert(classes.take(position as int) =~= classes);
        Ok(one_hot)
    }
}

} // verus!
