//! The arithmetic that the kernels are written in.
//!
//! A kernel never looks inside a number. It combines numbers by the operations of
//! [`Scalar`], and every contract says which operations, on which operands, in
//! which order. In production the numbers are IEEE-754 `binary32`; the order of
//! operations is then what makes two runs agree.

use vstd::prelude::*;

verus! {

/// `binary32` encoding of `0.0`.
pub const ZERO: u32 = 0x0000_0000;

/// `binary32` encoding of `1.0`.
pub const ONE: u32 = 0x3f80_0000;

/// `binary32` encoding of `-1.0`.
pub const MINUS_ONE: u32 = 0xbf80_0000;

/// `binary32` encoding of `2.0`.
pub const TWO: u32 = 0x4000_0000;

/// `binary32` encoding of `-2.0`.
pub const MINUS_TWO: u32 = 0xc000_0000;

/// `binary32` encoding of `0.5`.
pub const HALF: u32 = 0x3f00_0000;

/// `binary32` encoding of `-0.5`.
pub const MINUS_HALF: u32 = 0xbf00_0000;

/// `binary32` encoding of `5.0`.
pub const FIVE: u32 = 0x40a0_0000;

/// `binary32` encoding of `-5.0`.
pub const MINUS_FIVE: u32 = 0xc0a0_0000;

/// `binary32` encoding of `1e-7`.
pub const TINY: u32 = 0x33d6_bf95;

/// `binary32` encoding of `2π` (`6.283_185_5`).
pub const TWO_PI: u32 = 0x40c9_0fdb;

/// `binary32` encoding of `0.5·ln(2π)` (`0.918_938_5`).
pub const HALF_LN_2PI: u32 = 0x3f6b_3f8e;

/// `binary32` encoding of `1 / 16_777_216`, the weight of the lowest of 24 bits.
pub const TWO_POW_MINUS_24: u32 = 0x3380_0000;

/// A number type that kernels compute with.
///
/// Each executable operation comes with a specification function of the same
/// operands, and promises nothing but to return that function's value. No algebraic law
/// is assumed, not even that addition commutes, so everything that is proved of a kernel
/// holds for rounding arithmetic too.
///
/// A `binary32` implementation meets this only as far as its operations are functions of
/// their operands. The sign of a zero that comes from a minimum or a maximum, and the bits
/// of a NaN, may vary from one evaluation to the next; equality of numbers is then to be
/// read as equality up to those.
pub trait Scalar: Copy + Sized {
    /// The number with the given `binary32` encoding.
    spec fn literal(bits: u32) -> Self;

    /// The number nearest to an unsigned integer.
    spec fn counted(n: u32) -> Self;

    /// Negation.
    spec fn opposite(self) -> Self;

    /// Sum.
    spec fn plus(self, rhs: Self) -> Self;

    /// Difference.
    spec fn minus(self, rhs: Self) -> Self;

    /// Product.
    spec fn times(self, rhs: Self) -> Self;

    /// Quotient.
    spec fn over(self, rhs: Self) -> Self;

    /// Absolute value.
    spec fn magnitude(self) -> Self;

    /// The smaller of two numbers.
    spec fn lesser(self, rhs: Self) -> Self;

    /// The larger of two numbers.
    spec fn greater(self, rhs: Self) -> Self;

    /// Natural exponential.
    spec fn exponential(self) -> Self;

    /// Natural logarithm.
    spec fn logarithm(self) -> Self;

    /// Square root.
    spec fn root(self) -> Self;

    /// Sine of an angle in radians.
    spec fn sine(self) -> Self;

    /// Cosine of an angle in radians.
    spec fn cosine(self) -> Self;

    /// Arc cosine, in radians.
    spec fn arc_cosine(self) -> Self;

    /// The angle of the point with ordinate `self` and abscissa `x`, in radians.
    spec fn angle(self, x: Self) -> Self;

    /// Whether `self` is strictly less than `rhs`.
    spec fn below(self, rhs: Self) -> bool;

    /// Whether `self` is less than or equal to `rhs`.
    spec fn at_most(self, rhs: Self) -> bool;

    /// Whether the two compare equal.
    spec fn same(self, rhs: Self) -> bool;

    /// Builds the number with the given `binary32` encoding.
    fn from_bits(bits: u32) -> (r: Self)
        ensures
            r == Self::literal(bits),
    ;

    /// Converts an unsigned integer.
    fn from_u32(n: u32) -> (r: Self)
        ensures
            r == Self::counted(n),
    ;

    /// `-self`
    fn neg(self) -> (r: Self)
        ensures
            r == self.opposite(),
    ;

    /// `self + rhs`
    fn add(self, rhs: Self) -> (r: Self)
        ensures
            r == self.plus(rhs),
    ;

    /// `self - rhs`
    fn sub(self, rhs: Self) -> (r: Self)
        ensures
            r == self.minus(rhs),
    ;

    /// `self * rhs`
    fn mul(self, rhs: Self) -> (r: Self)
        ensures
            r == self.times(rhs),
    ;

    /// `self / rhs`
    fn div(self, rhs: Self) -> (r: Self)
        ensures
            r == self.over(rhs),
    ;

    /// `|self|`
    fn abs(self) -> (r: Self)
        ensures
            r == self.magnitude(),
    ;

    /// `min(self, rhs)`
    fn min(self, rhs: Self) -> (r: Self)
        ensures
            r == self.lesser(rhs),
    ;

    /// `max(self, rhs)`
    fn max(self, rhs: Self) -> (r: Self)
        ensures
            r == self.greater(rhs),
    ;

    /// `e^self`
    fn exp(self) -> (r: Self)
        ensures
            r == self.exponential(),
    ;

    /// `ln(self)`
    fn ln(self) -> (r: Self)
        ensures
            r == self.logarithm(),
    ;

    /// `√self`
    fn sqrt(self) -> (r: Self)
        ensures
            r == self.root(),
    ;

    /// `sin(self)`
    fn sin(self) -> (r: Self)
        ensures
            r == self.sine(),
    ;

    /// `cos(self)`
    fn cos(self) -> (r: Self)
        ensures
            r == self.cosine(),
    ;

    /// `acos(self)`
    fn acos(self) -> (r: Self)
        ensures
            r == self.arc_cosine(),
    ;

    /// `atan2(self, x)`
    fn atan2(self, x: Self) -> (r: Self)
        ensures
            r == self.angle(x),
    ;

    /// `self < rhs`
    fn lt(self, rhs: Self) -> (r: bool)
        ensures
            r == self.below(rhs),
    ;

    /// `self <= rhs`
    fn le(self, rhs: Self) -> (r: bool)
        ensures
            r == self.at_most(rhs),
    ;

    /// `self == rhs`
    fn eq(self, rhs: Self) -> (r: bool)
        ensures
            r == self.same(rhs),
    ;
}

/// `0.0`
pub open spec fn zero<R: Scalar>() -> R {
    R::literal(ZERO)
}

/// `1.0`
pub open spec fn one<R: Scalar>() -> R {
    R::literal(ONE)
}

/// `2.0`
pub open spec fn two<R: Scalar>() -> R {
    R::literal(TWO)
}

/// `x · x`
pub open spec fn square<R: Scalar>(x: R) -> R {
    x.times(x)
}

/// Reading numbers by `num` forgets the sign of a zero and the bits of a NaN, and nothing
/// that sums, differences, products, quotients by the same divisor and comparisons with
/// zero depend on. In that reading negation is symmetric, adding zero and multiplying by
/// one change nothing, and zeros add up to zero.
///
/// `binary32` has such a reading, for all numbers: take every zero for the positive one and
/// every NaN for the same one. Two numbers that it reads alike compare equal, or are both
/// NaN. In exact arithmetic the reading may be the identity.
pub open spec fn numeric<R: Scalar>(num: spec_fn(R) -> R) -> bool {
    &&& forall|a: R| num(#[trigger] num(a)) == num(a)
    &&& forall|a: R, b: R| num(#[trigger] a.plus(b)) == num(num(a).plus(num(b)))
    &&& forall|a: R, b: R| num(#[trigger] a.minus(b)) == num(num(a).minus(num(b)))
    &&& forall|a: R, b: R| num(#[trigger] a.times(b)) == num(num(a).times(num(b)))
    &&& forall|a: R, b: R| num(#[trigger] a.over(b)) == num(num(a).over(b))
    &&& forall|a: R| num(#[trigger] a.opposite()) == num(num(a).opposite())
    &&& forall|a: R| (#[trigger] zero::<R>().at_most(a)) == zero::<R>().at_most(num(a))
    &&& negates_symmetrically(num)
    &&& forall|a: R| num(#[trigger] a.plus(zero())) == num(a)
    &&& forall|a: R| num(#[trigger] zero::<R>().plus(a)) == num(a)
    &&& forall|a: R| num(#[trigger] one::<R>().times(a)) == num(a)
    &&& num(zero::<R>().minus(zero())) == num(zero())
    &&& num(two::<R>().times(zero())) == num(zero())
    &&& num(zero::<R>().opposite()) == num(zero())
}

/// In the reading `num`, negation undoes itself and goes through sums, differences and
/// products, and `-1.0` is the negation of `1.0`.
pub open spec fn negates_symmetrically<R: Scalar>(num: spec_fn(R) -> R) -> bool {
    &&& forall|a: R| num(#[trigger] a.opposite().opposite()) == num(a)
    &&& forall|a: R, b: R|
        num(#[trigger] a.opposite().plus(b.opposite())) == num(a.plus(b).opposite())
    &&& forall|a: R, b: R|
        num(#[trigger] a.opposite().minus(b.opposite())) == num(a.minus(b).opposite())
    &&& forall|a: R, b: R|
        num(#[trigger] a.opposite().times(b)) == num(a.times(b).opposite())
    &&& forall|a: R, b: R|
        num(#[trigger] a.times(b.opposite())) == num(a.times(b).opposite())
    &&& num(R::literal(MINUS_ONE)) == num(R::literal(ONE).opposite())
}

/// In the reading `num`, the product of zero and `a`, in either order, is zero. Of
/// `binary32` numbers exactly the finite ones have this.
pub open spec fn zero_absorbs<R: Scalar>(num: spec_fn(R) -> R, a: R) -> bool {
    &&& num(zero::<R>().times(a)) == num(zero())
    &&& num(a.times(zero())) == num(zero())
}

} // verus!
