//! The scalar abstraction under every matrix and network operation.
//!
//! Each implementation carries spec-level models of its arithmetic
//! (`add_spec`, `mul_spec`, ...) and proves that the executable operations
//! agree with those models.  Everything the matrix and network layers promise
//! is stated over these models, so the results are pinned down for any scalar:
//! two runs over equal inputs yield equal outputs.
//!
//! The crate ships a verified integer instance (`i64`, with wrapping
//! arithmetic); callers may supply their own instance, for example a
//! floating-point newtype, whose operations are then trusted rather than
//! verified.

use vstd::prelude::*;

verus! {

/// A scalar that supports the arithmetic the matrix and network layers need.
///
/// The `*_spec` members are the mathematical models of the executable
/// operations; every executable operation must return exactly what its model
/// says.  The operations are total: they may not panic for any argument.
pub trait Scalar: Sized + Copy {
    /// Model of `add`.  The models' default bodies are arbitrary
    /// placeholders, there so that an implementation written outside the
    /// verifier need not state models; an implementation verified here
    /// overrides every one of them.
    closed spec fn add_spec(self, rhs: Self) -> Self {
        vstd::pervasive::arbitrary()
    }

    /// Model of `sub`.
    closed spec fn sub_spec(self, rhs: Self) -> Self {
        vstd::pervasive::arbitrary()
    }

    /// Model of `mul`.
    closed spec fn mul_spec(self, rhs: Self) -> Self {
        vstd::pervasive::arbitrary()
    }

    /// Model of `div`.
    closed spec fn div_spec(self, rhs: Self) -> Self {
        vstd::pervasive::arbitrary()
    }

    /// Model of `sigmoid`.
    closed spec fn sigmoid_spec(self) -> Self {
        vstd::pervasive::arbitrary()
    }

    /// Model of `relu`.
    closed spec fn relu_spec(self) -> Self {
        vstd::pervasive::arbitrary()
    }

    /// Model of `zero`.
    closed spec fn zero_spec() -> Self {
        vstd::pervasive::arbitrary()
    }

    /// Model of `from_count`.
    closed spec fn from_count_spec(n: int) -> Self {
        vstd::pervasive::arbitrary()
    }

    fn add(self, rhs: Self) -> (r: Self)
        ensures
            r == self.add_spec(rhs),
    ;

    fn sub(self, rhs: Self) -> (r: Self)
        ensures
            r == self.sub_spec(rhs),
    ;

    fn mul(self, rhs: Self) -> (r: Self)
        ensures
            r == self.mul_spec(rhs),
    ;

    fn div(self, rhs: Self) -> (r: Self)
        ensures
            r == self.div_spec(rhs),
    ;

    /// The logistic activation, `1 / (1 + e^-x)` for numeric instances.
    fn sigmoid(self) -> (r: Self)
        ensures
            r == self.sigmoid_spec(),
    ;

    /// The rectifier activation, `max(x, 0)` for numeric instances.
    fn relu(self) -> (r: Self)
        ensures
            r == self.relu_spec(),
    ;

    /// The additive identity used to seed accumulations.
    fn zero() -> (r: Self)
        ensures
            r == Self::zero_spec(),
    ;

    /// The scalar standing for a row count, used to take a mean.
    fn from_count(n: usize) -> (r: Self)
        ensures
            r == Self::from_count_spec(n as int),
    ;
}

/// The verified integer instance: wrapping two's-complement arithmetic,
/// division clamped to the non-negative quadrant, and a step function in
/// place of the logistic curve.
impl Scalar for i64 {
    open spec fn add_spec(self, rhs: i64) -> i64 {
        vstd::wrapping::i64_specs::wrapping_add(self, rhs)
    }

    open spec fn sub_spec(self, rhs: i64) -> i64 {
        vstd::wrapping::i64_specs::wrapping_sub(self, rhs)
    }

    open spec fn mul_spec(self, rhs: i64) -> i64 {
        vstd::wrapping::i64_specs::wrapping_mul(self, rhs)
    }

    open spec fn div_spec(self, rhs: i64) -> i64 {
        if rhs <= 0 || self < 0 {
            0
        } else {
            ((self as int) / (rhs as int)) as i64
        }
    }

    open spec fn sigmoid_spec(self) -> i64 {
        if self <= 0 {
            0
        } else {
            1
        }
    }

    open spec fn relu_spec(self) -> i64 {
        if self < 0 {
            0
        } else {
            self
        }
    }

    open spec fn zero_spec() -> i64 {
        0
    }

    open spec fn from_count_spec(n: int) -> i64 {
        if n < 0 {
            0
        } else if n > i64::MAX {
            i64::MAX
        } else {
            n as i64
        }
    }

    fn add(self, rhs: i64) -> (r: i64) {
        self.wrapping_add(rhs)
    }

    fn sub(self, rhs: i64) -> (r: i64) {
        self.wrapping_sub(rhs)
    }

    fn mul(self, rhs: i64) -> (r: i64) {
        self.wrapping_mul(rhs)
    }

    fn div(self, rhs: i64) -> (r: i64) {
        if rhs <= 0 || self < 0 {
            0
        } else {
            let q: u64 = (self as u64) / (rhs as u64);
            q as i64
        }
    }

    fn sigmoid(self) -> (r: i64) {
        if self <= 0 {
            0
        } else {
            1
        }
    }

    fn relu(self) -> (r: i64) {
        if self < 0 {
            0
        } else {
            self
        }
    }

    fn zero() -> (r: i64) {
        0
    }

    fn from_count(n: usize) -> (r: i64) {
        if (n as u64) > (i64::MAX as u64) {
            i64::MAX
        } else {
            n as i64
        }
    }
}

/// The integer scalar's subtraction cancels its addition exactly:
/// `(x + y) - y == x`, because wrapping arithmetic is addition modulo `2^64`.
pub proof fn lemma_i64_sub_cancels_add(x: i64, y: i64)
    ensures
        x.add_spec(y).sub_spec(y) == x,
{
}

} // verus!
