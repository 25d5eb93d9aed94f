//! A number type that remembers how a value was computed.
//!
//! A [`Digest`] is a 32-bit hash of an expression: a literal stands for itself, and an
//! operation hashes its code with the hashes of its operands. Two computations that combine
//! the same inputs by the same operations in the same order end in the same digest.
//! Exchanging one operation, or one operand of it by one with another digest, changes the
//! digest of that operation. More than one change can cancel out, and a literal can have
//! the digest of an operation, so equal digests are evidence of equal data flow and no
//! proof.

use crate::rng::{counter_u32, counter_word, law_dims_differ, law_envs_differ, law_seeds_differ};
use crate::scalar::Scalar;
use vstd::prelude::*;

verus! {

/// Code of the conversion of an integer.
pub const COUNT: u32 = 1;

/// Code of the negation.
pub const NEG: u32 = 2;

/// Code of the addition.
pub const ADD: u32 = 3;

/// Code of the subtraction.
pub const SUB: u32 = 4;

/// Code of the multiplication.
pub const MUL: u32 = 5;

/// Code of the division.
pub const DIV: u32 = 6;

/// Code of the absolute value.
pub const ABS: u32 = 7;

/// Code of the minimum.
pub const MIN: u32 = 8;

/// Code of the maximum.
pub const MAX: u32 = 9;

/// Code of the exponential.
pub const EXP: u32 = 10;

/// Code of the logarithm.
pub const LN: u32 = 11;

/// Code of the square root.
pub const SQRT: u32 = 12;

/// Code of the sine.
pub const SIN: u32 = 13;

/// Code of the cosine.
pub const COS: u32 = 14;

/// Code of the arc cosine.
pub const ACOS: u32 = 15;

/// Code of the two-argument arc tangent.
pub const ATAN2: u32 = 16;

/// The hash of an expression.
#[derive(Clone, Copy, Debug, PartialEq, Eq, Structural)]
pub struct Digest(pub u32);

/// The digest of an operation on two operands.
pub open spec fn joined(op: u32, a: u32, b: u32) -> Digest {
    Digest(counter_word(op, a, b, 0, 0))
}

/// Computes [`joined`].
fn join(op: u32, a: u32, b: u32) -> (r: Digest)
    ensures
        r == joined(op, a, b),
{
    Digest(counter_u32(op, a, b, 0, 0))
}

/// Comparisons are those of the hashes.
impl Scalar for Digest {
    open spec fn literal(bits: u32) -> Digest {
        Digest(bits)
    }

    open spec fn counted(n: u32) -> Digest {
        joined(COUNT, n, 0)
    }

    open spec fn opposite(self) -> Digest {
        joined(NEG, self.0, 0)
    }

    open spec fn magnitude(self) -> Digest {
        joined(ABS, self.0, 0)
    }

    open spec fn exponential(self) -> Digest {
        joined(EXP, self.0, 0)
    }

    open spec fn logarithm(self) -> Digest {
        joined(LN, self.0, 0)
    }

    open spec fn root(self) -> Digest {
        joined(SQRT, self.0, 0)
    }

    open spec fn sine(self) -> Digest {
        joined(SIN, self.0, 0)
    }

    open spec fn cosine(self) -> Digest {
        joined(COS, self.0, 0)
    }

    open spec fn arc_cosine(self) -> Digest {
        joined(ACOS, self.0, 0)
    }

    open spec fn plus(self, rhs: Digest) -> Digest {
        joined(ADD, self.0, rhs.0)
    }

    open spec fn minus(self, rhs: Digest) -> Digest {
        joined(SUB, self.0, rhs.0)
    }

    open spec fn times(self, rhs: Digest) -> Digest {
        joined(MUL, self.0, rhs.0)
    }

    open spec fn over(self, rhs: Digest) -> Digest {
        joined(DIV, self.0, rhs.0)
    }

    open spec fn lesser(self, rhs: Digest) -> Digest {
        joined(MIN, self.0, rhs.0)
    }

    open spec fn greater(self, rhs: Digest) -> Digest {
        joined(MAX, self.0, rhs.0)
    }

    open spec fn angle(self, x: Digest) -> Digest {
        joined(ATAN2, self.0, x.0)
    }

    open spec fn below(self, rhs: Digest) -> bool {
        self.0 < rhs.0
    }

    open spec fn at_most(self, rhs: Digest) -> bool {
        self.0 <= rhs.0
    }

    open spec fn same(self, rhs: Digest) -> bool {
        self.0 == rhs.0
    }

    fn from_bits(bits: u32) -> Digest {
        Digest(bits)
    }

    fn from_u32(n: u32) -> Digest {
        join(COUNT, n, 0)
    }

    fn neg(self) -> Digest {
        join(NEG, self.0, 0)
    }

    fn abs(self) -> Digest {
        join(ABS, self.0, 0)
    }

    fn exp(self) -> Digest {
        join(EXP, self.0, 0)
    }

    fn ln(self) -> Digest {
        join(LN, self.0, 0)
    }

    fn sqrt(self) -> Digest {
        join(SQRT, self.0, 0)
    }

    fn sin(self) -> Digest {
        join(SIN, self.0, 0)
    }

    fn cos(self) -> Digest {
        join(COS, self.0, 0)
    }

    fn acos(self) -> Digest {
        join(ACOS, self.0, 0)
    }

    fn add(self, rhs: Digest) -> Digest {
        join(ADD, self.0, rhs.0)
    }

    fn sub(self, rhs: Digest) -> Digest {
        join(SUB, self.0, rhs.0)
    }

    fn mul(self, rhs: Digest) -> Digest {
        join(MUL, self.0, rhs.0)
    }

    fn div(self, rhs: Digest) -> Digest {
        join(DIV, self.0, rhs.0)
    }

    fn min(self, rhs: Digest) -> Digest {
        join(MIN, self.0, rhs.0)
    }

    fn max(self, rhs: Digest) -> Digest {
        join(MAX, self.0, rhs.0)
    }

    fn atan2(self, x: Digest) -> Digest {
        join(ATAN2, self.0, x.0)
    }

    fn lt(self, rhs: Digest) -> bool {
        self.0 < rhs.0
    }

    fn le(self, rhs: Digest) -> bool {
        self.0 <= rhs.0
    }

    fn eq(self, rhs: Digest) -> bool {
        self.0 == rhs.0
    }
}

/// Another operation on the same operands has another digest.
pub proof fn law_digest_tells_operations(p: u32, q: u32, a: Digest, b: Digest)
    requires
        p != q,
    ensures
        joined(p, a.0, b.0) != joined(q, a.0, b.0),
{
    law_seeds_differ(p, q, a.0, b.0, 0, 0);
}

/// The same operation on another operand has another digest.
pub proof fn law_digest_tells_operands(op: u32, a: Digest, b: Digest, c: Digest)
    requires
        a != b,
    ensures
        joined(op, a.0, c.0) != joined(op, b.0, c.0),
        joined(op, c.0, a.0) != joined(op, c.0, b.0),
{
    law_envs_differ(op, a.0, b.0, c.0, 0, 0);
    law_dims_differ(op, c.0, a.0, b.0, 0, 0);
}

/// The operations on one operand all have different digests.
pub proof fn law_digest_unary_differ(a: Digest)
    ensures
        a.opposite() != a.magnitude(),
        a.opposite() != a.exponential(),
        a.opposite() != a.logarithm(),
        a.opposite() != a.root(),
        a.opposite() != a.sine(),
        a.opposite() != a.cosine(),
        a.opposite() != a.arc_cosine(),
        a.magnitude() != a.exponential(),
        a.magnitude() != a.logarithm(),
        a.magnitude() != a.root(),
        a.magnitude() != a.sine(),
        a.magnitude() != a.cosine(),
        a.magnitude() != a.arc_cosine(),
        a.exponential() != a.logarithm(),
        a.exponential() != a.root(),
        a.exponential() != a.sine(),
        a.exponential() != a.cosine(),
        a.exponential() != a.arc_cosine(),
        a.logarithm() != a.root(),
        a.logarithm() != a.sine(),
        a.logarithm() != a.cosine(),
        a.logarithm() != a.arc_cosine(),
        a.root() != a.sine(),
        a.root() != a.cosine(),
        a.root() != a.arc_cosine(),
        a.sine() != a.cosine(),
        a.sine() != a.arc_cosine(),
        a.cosine() != a.arc_cosine(),
{
    law_digest_tells_operations(NEG, ABS, a, Digest(0));
    law_digest_tells_operations(NEG, EXP, a, Digest(0));
    law_digest_tells_operations(NEG, LN, a, Digest(0));
    law_digest_tells_operations(NEG, SQRT, a, Digest(0));
    law_digest_tells_operations(NEG, SIN, a, Digest(0));
    law_digest_tells_operations(NEG, COS, a, Digest(0));
    law_digest_tells_operations(NEG, ACOS, a, Digest(0));
    law_digest_tells_operations(ABS, EXP, a, Digest(0));
    law_digest_tells_operations(ABS, LN, a, Digest(0));
    law_digest_tells_operations(ABS, SQRT, a, Digest(0));
    law_digest_tells_operations(ABS, SIN, a, Digest(0));
    law_digest_tells_operations(ABS, COS, a, Digest(0));
    law_digest_tells_operations(ABS, ACOS, a, Digest(0));
    law_digest_tells_operations(EXP, LN, a, Digest(0));
    law_digest_tells_operations(EXP, SQRT, a, Digest(0));
    law_digest_tells_operations(EXP, SIN, a, Digest(0));
    law_digest_tells_operations(EXP, COS, a, Digest(0));
    law_digest_tells_operations(EXP, ACOS, a, Digest(0));
    law_digest_tells_operations(LN, SQRT, a, Digest(0));
    law_digest_tells_operations(LN, SIN, a, Digest(0));
    law_digest_tells_operations(LN, COS, a, Digest(0));
    law_digest_tells_operations(LN, ACOS, a, Digest(0));
    law_digest_tells_operations(SQRT, SIN, a, Digest(0));
    law_digest_tells_operations(SQRT, COS, a, Digest(0));
    law_digest_tells_operations(SQRT, ACOS, a, Digest(0));
    law_digest_tells_operations(SIN, COS, a, Digest(0));
    law_digest_tells_operations(SIN, ACOS, a, Digest(0));
    law_digest_tells_operations(COS, ACOS, a, Digest(0));
}

/// The operations on two operands all have different digests.
pub proof fn law_digest_binary_differ(a: Digest, b: Digest)
    ensures
        a.plus(b) != a.minus(b),
        a.plus(b) != a.times(b),
        a.plus(b) != a.over(b),
        a.plus(b) != a.lesser(b),
        a.plus(b) != a.greater(b),
        a.plus(b) != a.angle(b),
        a.minus(b) != a.times(b),
        a.minus(b) != a.over(b),
        a.minus(b) != a.lesser(b),
        a.minus(b) != a.greater(b),
        a.minus(b) != a.angle(b),
        a.times(b) != a.over(b),
        a.times(b) != a.lesser(b),
        a.times(b) != a.greater(b),
        a.times(b) != a.angle(b),
        a.over(b) != a.lesser(b),
        a.over(b) != a.greater(b),
        a.over(b) != a.angle(b),
        a.lesser(b) != a.greater(b),
        a.lesser(b) != a.angle(b),
        a.greater(b) != a.angle(b),
{
    law_digest_tells_operations(ADD, SUB, a, b);
    law_digest_tells_operations(ADD, MUL, a, b);
    law_digest_tells_operations(ADD, DIV, a, b);
    law_digest_tells_operations(ADD, MIN, a, b);
    law_digest_tells_operations(ADD, MAX, a, b);
    law_digest_tells_operations(ADD, ATAN2, a, b);
    law_digest_tells_operations(SUB, MUL, a, b);
    law_digest_tells_operations(SUB, DIV, a, b);
    law_digest_tells_operations(SUB, MIN, a, b);
    law_digest_tells_operations(SUB, MAX, a, b);
    law_digest_tells_operations(SUB, ATAN2, a, b);
    law_digest_tells_operations(MUL, DIV, a, b);
    law_digest_tells_operations(MUL, MIN, a, b);
    law_digest_tells_operations(MUL, MAX, a, b);
    law_digest_tells_operations(MUL, ATAN2, a, b);
    law_digest_tells_operations(DIV, MIN, a, b);
    law_digest_tells_operations(DIV, MAX, a, b);
    law_digest_tells_operations(DIV, ATAN2, a, b);
    law_digest_tells_operations(MIN, MAX, a, b);
    law_digest_tells_operations(MIN, ATAN2, a, b);
    law_digest_tells_operations(MAX, ATAN2, a, b);
}

/// An operation tells both of its operands: with either exchanged for another, the digest of
/// the operation is another.
pub proof fn law_digest_operations_tell_operands(a: Digest, b: Digest, c: Digest)
    requires
        a != b,
    ensures
        a.opposite() != b.opposite(),
        a.magnitude() != b.magnitude(),
        a.exponential() != b.exponential(),
        a.logarithm() != b.logarithm(),
        a.root() != b.root(),
        a.sine() != b.sine(),
        a.cosine() != b.cosine(),
        a.arc_cosine() != b.arc_cosine(),
        a.plus(c) != b.plus(c) && c.plus(a) != c.plus(b),
        a.minus(c) != b.minus(c) && c.minus(a) != c.minus(b),
        a.times(c) != b.times(c) && c.times(a) != c.times(b),
        a.over(c) != b.over(c) && c.over(a) != c.over(b),
        a.lesser(c) != b.lesser(c) && c.lesser(a) != c.lesser(b),
        a.greater(c) != b.greater(c) && c.greater(a) != c.greater(b),
        a.angle(c) != b.angle(c) && c.angle(a) != c.angle(b),
        Digest::literal(a.0) != Digest::literal(b.0),
        Digest::counted(a.0) != Digest::counted(b.0),
{
    law_digest_tells_operands(COUNT, a, b, Digest(0));
    law_digest_tells_operands(NEG, a, b, Digest(0));
    law_digest_tells_operands(ABS, a, b, Digest(0));
    law_digest_tells_operands(EXP, a, b, Digest(0));
    law_digest_tells_operands(LN, a, b, Digest(0));
    law_digest_tells_operands(SQRT, a, b, Digest(0));
    law_digest_tells_operands(SIN, a, b, Digest(0));
    law_digest_tells_operands(COS, a, b, Digest(0));
    law_digest_tells_operands(ACOS, a, b, Digest(0));
    law_digest_tells_operands(ADD, a, b, c);
    law_digest_tells_operands(SUB, a, b, c);
    law_digest_tells_operands(MUL, a, b, c);
    law_digest_tells_operands(DIV, a, b, c);
    law_digest_tells_operands(MIN, a, b, c);
    law_digest_tells_operands(MAX, a, b, c);
    law_digest_tells_operands(ATAN2, a, b, c);
}

/// Digests are totally ordered, and two that compare equal are the same.
pub proof fn law_digest_order(a: Digest, b: Digest, c: Digest)
    ensures
        a.same(b) <==> a == b,
        a.at_most(b) <==> a.below(b) || a == b,
        !(a.below(b) && b.below(a)),
        a.below(b) || b.below(a) || a == b,
        a.below(b) && b.below(c) ==> a.below(c),
{
}

} // verus!
