//! Integer types that can label the classes of a sample set.
use vstd::prelude::*;

verus! {

/// A primitive integer used as a class label.
pub trait Integer: Sized + Copy {
    /// The label as a mathematical integer.
    spec fn value(self) -> int;

    /// Whether the label is zero.
    fn is_zero(self) -> (r: bool)
        ensures
            r == (self.value() == 0),
    ;

    /// Whether the label is one.
    fn is_one(self) -> (r: bool)
        ensures
            r == (self.value() == 1),
    ;
}

impl Integer for i8 {
    open spec fn value(self) -> int {
        self as int
    }

    fn is_zero(self) -> (r: bool) {
        self == 0
    }

    fn is_one(self) -> (r: bool) {
        self == 1
    }
}

impl Integer for i16 {
    open spec fn value(self) -> int {
        self as int
    }

    fn is_zero(self) -> (r: bool) {
        self == 0
    }

    fn is_one(self) -> (r: bool) {
        self == 1
    }
}

impl Integer for i32 {
    open spec fn value(self) -> int {
        self as int
    }

    fn is_zero(self) -> (r: bool) {
        self == 0
    }

    fn is_one(self) -> (r: bool) {
        self == 1
    }
}

impl Integer for i64 {
    open spec fn value(self) -> int {
        self as int
    }

    fn is_zero(self) -> (r: bool) {
        self == 0
    }

    fn is_one(self) -> (r: bool) {
        self == 1
    }
}

impl Integer for i128 {
    open spec fn value(self) -> int {
        self as int
    }

    fn is_zero(self) -> (r: bool) {
        self == 0
    }

    fn is_one(self) -> (r: bool) {
        self == 1
    }
}

impl Integer for isize {
    open spec fn value(self) -> int {
        self as int
    }

    fn is_zero(self) -> (r: bool) {
        self == 0
    }

    fn is_one(self) -> (r: bool) {
        self == 1
    }
}

impl Integer for u8 {
    open spec fn value(self) -> int {
        self as int
    }

    fn is_zero(self) -> (r: bool) {
        self == 0
    }

    fn is_one(self) -> (r: bool) {
        self == 1
    }
}

impl Integer for u16 {
    open spec fn value(self) -> int {
        self as int
    }

    fn is_zero(self) -> (r: bool) {
        self == 0
    }

    fn is_one(self) -> (r: bool) {
        self == 1
    }
}

impl Integer for u32 {
    open spec fn value(self) -> int {
        self as int
    }

    fn is_zero(self) -> (r: bool) {
        self == 0
    }

    fn is_one(self) -> (r: bool) {
        self == 1
    }
}

impl Integer for u64 {
    open spec fn value(self) -> int {
        self as int
    }

    fn is_zero(self) -> (r: bool) {
        self == 0
    }

    fn is_one(self) -> (r: bool) {
        self == 1
    }
}

impl Integer for u128 {
    open spec fn value(self) -> int {
        self as int
    }

    fn is_zero(self) -> (r: bool) {
        self == 0
    }

    fn is_one(self) -> (r: bool) {
        self == 1
    }
}

impl Integer for usize {
    open spec fn value(self) -> int {
        self as int
    }

    fn is_zero(self) -> (r: bool) {
        self == 0
    }

    fn is_one(self) -> (r: bool) {
        self == 1
    }
}

} // verus!
