//! Abstractions over number types.
//!
//! Matrix contracts are stated relative to these traits: every executable
//! operation is pinned to a specification-level counterpart, so the library's
//! theorems hold exactly, whatever arithmetic the element type defines.

use vstd::prelude::*;

verus! {

/// Defines the additive identity element for a type.
pub trait Zero: Sized {
    /// The additive identity, at the specification level.
    spec fn zero_spec() -> Self;

    /// Returns the additive identity element of this type.
    fn zero() -> (r: Self)
        ensures
            r == Self::zero_spec(),
    ;
}

/// Defines the multiplicative identity element for a type.
pub trait One: Sized {
    /// The multiplicative identity, at the specification level.
    spec fn one_spec() -> Self;

    /// Returns the multiplicative identity element of this type.
    fn one() -> (r: Self)
        ensures
            r == Self::one_spec(),
    ;
}

/// Defines the absolute value for a type.
pub trait Abs: Sized {
    /// The absolute value, at the specification level.
    spec fn abs_spec(self) -> Self;

    /// Returns the absolute value of this type.
    fn abs(self) -> (r: Self)
        ensures
            r == self.abs_spec(),
    ;
}

/// Defines the square-root value for a type.
pub trait Sqrt: Sized {
    /// The square root, at the specification level.
    spec fn sqrt_spec(self) -> Self;

    /// Returns the square-root value of this type.
    fn sqrt(self) -> (r: Self)
        ensures
            r == self.sqrt_spec(),
    ;
}

/// The arithmetic a matrix element must provide.
///
/// Each operation is total: an element type chooses what its operations mean
/// on every input (including division by its own zero), and every matrix
/// contract in this crate speaks of the results through the `*_spec`
/// counterparts, never assuming laws the type does not state.
pub trait Num: Zero + One + Copy {
    /// Addition, at the specification level.
    spec fn add_spec(self, other: Self) -> Self;

    /// Adds two elements.
    fn add(self, other: Self) -> (r: Self)
        ensures
            r == self.add_spec(other),
    ;

    /// Subtraction, at the specification level.
    spec fn sub_spec(self, other: Self) -> Self;

    /// Subtracts `other` from `self`.
    fn sub(self, other: Self) -> (r: Self)
        ensures
            r == self.sub_spec(other),
    ;

    /// Multiplication, at the specification level.
    spec fn mul_spec(self, other: Self) -> Self;

    /// Multiplies two elements.
    fn mul(self, other: Self) -> (r: Self)
        ensures
            r == self.mul_spec(other),
    ;

    /// Division, at the specification level.
    spec fn div_spec(self, other: Self) -> Self;

    /// Divides `self` by `other`.
    fn div(self, other: Self) -> (r: Self)
        ensures
            r == self.div_spec(other),
    ;

    /// Remainder, at the specification level.
    spec fn rem_spec(self, other: Self) -> Self;

    /// Remainder of `self` divided by `other`.
    fn rem(self, other: Self) -> (r: Self)
        ensures
            r == self.rem_spec(other),
    ;

    /// Negation, at the specification level.
    spec fn neg_spec(self) -> Self;

    /// Negates an element.
    fn neg(self) -> (r: Self)
        ensures
            r == self.neg_spec(),
    ;

    /// The strict order used by pivot selection, at the specification level.
    spec fn lt_spec(self, other: Self) -> bool;

    /// Tests whether `self` is strictly less than `other`.
    fn lt(self, other: Self) -> (r: bool)
        ensures
            r == self.lt_spec(other),
    ;

    /// Tests exact equality of two elements.
    fn eq_elem(self, other: Self) -> (r: bool)
        ensures
            r == (self == other),
    ;
}

impl Zero for i64 {
    open spec fn zero_spec() -> i64 {
        0
    }

    fn zero() -> i64 {
        0
    }
}

impl One for i64 {
    open spec fn one_spec() -> i64 {
        1
    }

    fn one() -> i64 {
        1
    }
}

impl Abs for i64 {
    /// The magnitude of `i64::MIN` wraps to itself, as two's-complement
    /// negation does.
    open spec fn abs_spec(self) -> i64 {
        if self < 0 {
            (0i64).wrapping_sub(self)
        } else {
            self
        }
    }

    fn abs(self) -> i64 {
        if self < 0 {
            (0i64).wrapping_sub(self)
        } else {
            self
        }
    }
}

/// Defines the logical or bitwise complement for a type.
pub trait Not: Sized {
    /// The complement, at the specification level.
    spec fn not_spec(self) -> Self;

    /// Returns the complement of this value.
    fn not(self) -> (r: Self)
        ensures
            r == self.not_spec(),
    ;
}

impl Zero for bool {
    open spec fn zero_spec() -> bool {
        false
    }

    fn zero() -> bool {
        false
    }
}

impl One for bool {
    open spec fn one_spec() -> bool {
        true
    }

    fn one() -> bool {
        true
    }
}

impl Not for bool {
    open spec fn not_spec(self) -> bool {
        !self
    }

    fn not(self) -> bool {
        !self
    }
}

impl Not for i64 {
    /// The bitwise complement.
    open spec fn not_spec(self) -> i64 {
        !self
    }

    fn not(self) -> i64 {
        !self
    }
}

/// `r` is the floor of the square root of `n`.
pub open spec fn is_floor_sqrt(n: int, r: int) -> bool {
    0 <= r && r * r <= n < (r + 1) * (r + 1)
}

/// The floor of a square root is unique.
proof fn lemma_floor_sqrt_unique(n: int, r1: int, r2: int)
    requires
        is_floor_sqrt(n, r1),
        is_floor_sqrt(n, r2),
    ensures
        r1 == r2,
{
    assert(r1 == r2) by (nonlinear_arith)
        requires
            0 <= r1,
            0 <= r2,
            r1 * r1 <= n,
            n < (r1 + 1) * (r1 + 1),
            r2 * r2 <= n,
            n < (r2 + 1) * (r2 + 1),
    ;
}

impl Sqrt for i64 {
    /// The floor of the square root; non-positive inputs yield zero.
    open spec fn sqrt_spec(self) -> i64 {
        if self <= 0 {
            0
        } else {
            choose|r: i64| is_floor_sqrt(self as int, r as int)
        }
    }

    fn sqrt(self) -> (r: i64) {
        if self <= 0 {
            return 0;
        }
        let mut lo: i64 = 0;
        let mut hi: i64 = 3037000500;
        proof {
            assert((3037000500 as int) * (3037000500 as int) > i64::MAX as int)
                by (nonlinear_arith);
        }
        while lo + 1 < hi
            invariant
                0 < self,
                0 <= lo < hi <= 3037000500,
                (lo as int) * (lo as int) <= self as int,
                (self as int) < (hi as int) * (hi as int),
            decreases hi - lo,
        {
            let half = (((hi - lo) as u64) / 2) as i64;
            let mid = lo + half;
            proof {
                assert((mid as int) * (mid as int) < i128::MAX as int) by (nonlinear_arith)
                    requires
                        0 <= mid <= 3037000500,
                ;
            }
            let prod = (mid as i128) * (mid as i128);
            if prod <= self as i128 {
                lo = mid;
            } else {
                hi = mid;
            }
        }
        proof {
            assert(is_floor_sqrt(self as int, lo as int));
            assert(exists|r: i64| is_floor_sqrt(self as int, r as int));
            let ch = choose|r: i64| is_floor_sqrt(self as int, r as int);
            lemma_floor_sqrt_unique(self as int, ch as int, lo as int);
        }
        lo
    }
}

impl Num for i64 {
    /// Two's-complement wrapping addition.
    open spec fn add_spec(self, other: i64) -> i64 {
        self.wrapping_add(other)
    }

    fn add(self, other: i64) -> i64 {
        self.wrapping_add(other)
    }

    /// Two's-complement wrapping subtraction.
    open spec fn sub_spec(self, other: i64) -> i64 {
        self.wrapping_sub(other)
    }

    fn sub(self, other: i64) -> i64 {
        self.wrapping_sub(other)
    }

    /// Two's-complement wrapping multiplication.
    open spec fn mul_spec(self, other: i64) -> i64 {
        self.wrapping_mul(other)
    }

    fn mul(self, other: i64) -> i64 {
        self.wrapping_mul(other)
    }

    /// Truncating division, total: division by zero yields zero, and the one
    /// overflowing quotient wraps to `i64::MIN`.
    open spec fn div_spec(self, other: i64) -> i64 {
        match self.checked_div(other) {
            Some(q) => q,
            None => if other == 0 {
                0
            } else {
                i64::MIN
            },
        }
    }

    fn div(self, other: i64) -> i64 {
        match self.checked_div(other) {
            Some(q) => q,
            None => if other == 0 {
                0
            } else {
                i64::MIN
            },
        }
    }

    /// Truncating remainder, total: a zero divisor yields zero, and the
    /// overflowing case `i64::MIN % -1` yields its exact value, zero.
    open spec fn rem_spec(self, other: i64) -> i64 {
        match self.checked_rem(other) {
            Some(q) => q,
            None => 0,
        }
    }

    fn rem(self, other: i64) -> i64 {
        match self.checked_rem(other) {
            Some(q) => q,
            None => 0,
        }
    }

    /// Two's-complement wrapping negation.
    open spec fn neg_spec(self) -> i64 {
        (0i64).wrapping_sub(self)
    }

    fn neg(self) -> i64 {
        (0i64).wrapping_sub(self)
    }

    open spec fn lt_spec(self, other: i64) -> bool {
        self < other
    }

    fn lt(self, other: i64) -> bool {
        self < other
    }

    fn eq_elem(self, other: i64) -> bool {
        self == other
    }
}

} // verus!
