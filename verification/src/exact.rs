//! The kernels in exact arithmetic.
//!
//! Rounding arithmetic keeps the laws of real numbers only up to rounding. They hold exactly
//! wherever the numbers can be read as real numbers in such a way that sums, differences
//! and products are those of the real numbers. This module states and proves the laws of
//! rotations there, [`motion`] what poses, velocities and observations mean, [`reward`] what
//! is paid for, and [`policy`] what sampling, staging and the gradients come to.

pub mod motion;
pub mod policy;
pub mod reward;

use crate::geometry::{hinge_angle, rot_at, Quat, Vec3};
use crate::scalar::{
    numeric, one, square, zero, Scalar, MINUS_ONE, ONE, TWO, ZERO,
};
use vstd::prelude::*;

verus! {

/// Numbers can be read as real numbers by `val`: different numbers are different real
/// numbers, and the operations and literals are those of the real numbers.
pub open spec fn reads_exactly<R: Scalar>(val: spec_fn(R) -> real) -> bool {
    &&& forall|a: R, b: R| #[trigger] val(a) == #[trigger] val(b) ==> a == b
    &&& forall|a: R, b: R| val(#[trigger] a.plus(b)) == val(a) + val(b)
    &&& forall|a: R, b: R| val(#[trigger] a.minus(b)) == val(a) - val(b)
    &&& forall|a: R, b: R| val(#[trigger] a.times(b)) == val(a) * val(b)
    &&& forall|a: R| val(#[trigger] a.opposite()) == 0real - val(a)
    &&& val(R::literal(ZERO)) == 0real
    &&& val(R::literal(ONE)) == 1real
    &&& val(R::literal(TWO)) == 2real
}

/// Quotients are exact too: a quotient times a divisor that is not zero is the dividend.
pub open spec fn divides_exactly<R: Scalar>(val: spec_fn(R) -> real) -> bool {
    forall|a: R, b: R| val(b) != 0real ==> val(#[trigger] a.over(b)) * val(b) == val(a)
}

/// Comparisons, minima and maxima are those of the real numbers.
pub open spec fn orders_exactly<R: Scalar>(val: spec_fn(R) -> real) -> bool {
    &&& forall|a: R, b: R| #[trigger] a.below(b) == (val(a) < val(b))
    &&& forall|a: R, b: R| #[trigger] a.at_most(b) == (val(a) <= val(b))
    &&& forall|a: R, b: R|
        val(#[trigger] a.lesser(b)) == (if val(a) <= val(b) {
            val(a)
        } else {
            val(b)
        })
    &&& forall|a: R, b: R|
        val(#[trigger] a.greater(b)) == (if val(a) <= val(b) {
            val(b)
        } else {
            val(a)
        })
}

impl<R: Scalar> Vec3<R> {
    /// The squared length.
    pub open spec fn length_sq(self) -> R {
        square(self.x).plus(square(self.y)).plus(square(self.z))
    }
}

impl<R: Scalar> Quat<R> {
    /// The squared norm.
    pub open spec fn norm_sq(self) -> R {
        square(self.x).plus(square(self.y)).plus(square(self.z)).plus(square(self.w))
    }

    /// Whether the quaternion has norm one, and so stands for a rotation.
    pub open spec fn is_unit(self) -> bool {
        self.norm_sq() == one::<R>()
    }
}

/// Products may be reordered.
pub proof fn lemma_turn(a: real, b: real, c: real)
    ensures
        a * b == b * a,
        a * (b * c) == b * (c * a),
        (a * b) * c == a * (b * c),
{
    assert(a * b == b * a) by (nonlinear_arith);
    assert(a * (b * c) == b * (c * a)) by (nonlinear_arith);
    assert((a * b) * c == a * (b * c)) by (nonlinear_arith);
}

/// Products spread over sums and differences.
pub proof fn lemma_spread(a: real, b: real, c: real)
    ensures
        a * (b + c) == a * b + a * c,
        a * (b - c) == a * b - a * c,
{
    assert(a * (b + c) == a * b + a * c) by (nonlinear_arith);
    assert(a * (b - c) == a * b - a * c) by (nonlinear_arith);
}

/// Hamilton product of real quaternions.
pub open spec fn hamilton(a: Quat<real>, b: Quat<real>) -> Quat<real> {
    Quat {
        x: a.w * b.x + a.x * b.w + a.y * b.z - a.z * b.y,
        y: a.w * b.y - a.x * b.z + a.y * b.w + a.z * b.x,
        z: a.w * b.z + a.x * b.y - a.y * b.x + a.z * b.w,
        w: a.w * b.w - a.x * b.x - a.y * b.y - a.z * b.z,
    }
}

/// A number times a product of quaternions, multiplied out.
proof fn lemma_times_product(p: real, b: Quat<real>, c: Quat<real>)
    ensures
        ({
            let r = hamilton(b, c);
            &&& p * r.x == p * (b.w * c.x) + p * (b.x * c.w) + p * (b.y * c.z) - p * (b.z * c.y)
            &&& p * r.y == p * (b.w * c.y) - p * (b.x * c.z) + p * (b.y * c.w) + p * (b.z * c.x)
            &&& p * r.z == p * (b.w * c.z) + p * (b.x * c.y) - p * (b.y * c.x) + p * (b.z * c.w)
            &&& p * r.w == p * (b.w * c.w) - p * (b.x * c.x) - p * (b.y * c.y) - p * (b.z * c.z)
        }),
{
    lemma_spread(p, b.w * c.x + b.x * c.w + b.y * c.z, b.z * c.y);
    lemma_spread(p, b.w * c.x + b.x * c.w, b.y * c.z);
    lemma_spread(p, b.w * c.x, b.x * c.w);
    lemma_spread(p, b.w * c.y - b.x * c.z + b.y * c.w, b.z * c.x);
    lemma_spread(p, b.w * c.y - b.x * c.z, b.y * c.w);
    lemma_spread(p, b.w * c.y, b.x * c.z);
    lemma_spread(p, b.w * c.z + b.x * c.y - b.y * c.x, b.z * c.w);
    lemma_spread(p, b.w * c.z + b.x * c.y, b.y * c.x);
    lemma_spread(p, b.w * c.z, b.x * c.y);
    lemma_spread(p, b.w * c.w - b.x * c.x - b.y * c.y, b.z * c.z);
    lemma_spread(p, b.w * c.w - b.x * c.x, b.y * c.y);
    lemma_spread(p, b.w * c.w, b.x * c.x);
}

/// A product of quaternions times a number, multiplied out.
proof fn lemma_product_times(a: Quat<real>, b: Quat<real>, p: real)
    ensures
        ({
            let r = hamilton(a, b);
            &&& r.x * p == a.w * (b.x * p) + a.x * (b.w * p) + a.y * (b.z * p) - a.z * (b.y * p)
            &&& r.y * p == a.w * (b.y * p) - a.x * (b.z * p) + a.y * (b.w * p) + a.z * (b.x * p)
            &&& r.z * p == a.w * (b.z * p) + a.x * (b.y * p) - a.y * (b.x * p) + a.z * (b.w * p)
            &&& r.w * p == a.w * (b.w * p) - a.x * (b.x * p) - a.y * (b.y * p) - a.z * (b.z * p)
        }),
{
    let r = hamilton(a, b);
    lemma_times_product(p, a, b);
    lemma_turn(p, r.x, r.y);
    lemma_turn(p, r.y, r.x);
    lemma_turn(p, r.z, r.x);
    lemma_turn(p, r.w, r.x);
    lemma_turn(p, a.w, b.x);
    lemma_turn(p, a.w, b.y);
    lemma_turn(p, a.w, b.z);
    lemma_turn(p, a.w, b.w);
    lemma_turn(p, a.x, b.x);
    lemma_turn(p, a.x, b.y);
    lemma_turn(p, a.x, b.z);
    lemma_turn(p, a.x, b.w);
    lemma_turn(p, a.y, b.x);
    lemma_turn(p, a.y, b.y);
    lemma_turn(p, a.y, b.z);
    lemma_turn(p, a.y, b.w);
    lemma_turn(p, a.z, b.x);
    lemma_turn(p, a.z, b.y);
    lemma_turn(p, a.z, b.z);
    lemma_turn(p, a.z, b.w);
}

/// The product of quaternions is associative.
pub proof fn lemma_associative(a: Quat<real>, b: Quat<real>, c: Quat<real>)
    ensures
        hamilton(hamilton(a, b), c) == hamilton(a, hamilton(b, c)),
{
    lemma_times_product(a.x, b, c);
    lemma_times_product(a.y, b, c);
    lemma_times_product(a.z, b, c);
    lemma_times_product(a.w, b, c);
    lemma_product_times(a, b, c.x);
    lemma_product_times(a, b, c.y);
    lemma_product_times(a, b, c.z);
    lemma_product_times(a, b, c.w);
}

/// A product changes its sign with either factor.
pub proof fn lemma_minus(a: real, b: real)
    ensures
        a * (0real - b) == 0real - a * b,
        (0real - a) * b == 0real - a * b,
        (0real - a) * (0real - b) == a * b,
        a * b == b * a,
{
    assert(a * (0real - b) == 0real - a * b) by (nonlinear_arith);
    assert((0real - a) * b == 0real - a * b) by (nonlinear_arith);
    assert((0real - a) * (0real - b) == a * b) by (nonlinear_arith);
    assert(a * b == b * a) by (nonlinear_arith);
}

/// Products with zero and one.
pub proof fn lemma_constant(a: real)
    ensures
        a * 0real == 0real,
        0real * a == 0real,
        a * 1real == a,
        1real * a == a,
{
    assert(a * 0real == 0real) by (nonlinear_arith);
    assert(0real * a == 0real) by (nonlinear_arith);
}

/// Conjugate of a real quaternion.
pub open spec fn conj(q: Quat<real>) -> Quat<real> {
    Quat { x: 0real - q.x, y: 0real - q.y, z: 0real - q.z, w: q.w }
}

/// Squared norm of a real quaternion.
pub open spec fn norm(q: Quat<real>) -> real {
    q.x * q.x + q.y * q.y + q.z * q.z + q.w * q.w
}

/// A real number as a quaternion.
pub open spec fn number(s: real) -> Quat<real> {
    Quat { x: 0real, y: 0real, z: 0real, w: s }
}

/// A vector as a quaternion.
spec fn pure(v: Vec3<real>) -> Quat<real> {
    Quat { x: v.x, y: v.y, z: v.z, w: 0real }
}

/// The conjugate of a product is the product of the conjugates in reverse.
proof fn lemma_conj_product(a: Quat<real>, b: Quat<real>)
    ensures
        conj(hamilton(a, b)) == hamilton(conj(b), conj(a)),
{
    lemma_minus(b.x, a.x);
    lemma_minus(b.y, a.x);
    lemma_minus(b.z, a.x);
    lemma_minus(b.w, a.x);
    lemma_minus(b.x, a.y);
    lemma_minus(b.y, a.y);
    lemma_minus(b.z, a.y);
    lemma_minus(b.w, a.y);
    lemma_minus(b.x, a.z);
    lemma_minus(b.y, a.z);
    lemma_minus(b.z, a.z);
    lemma_minus(b.w, a.z);
    lemma_minus(b.x, a.w);
    lemma_minus(b.y, a.w);
    lemma_minus(b.z, a.w);
    lemma_minus(b.w, a.w);
}

/// A quaternion times its conjugate is its squared norm, in either order.
pub proof fn lemma_norm(q: Quat<real>)
    ensures
        hamilton(q, conj(q)) == number(norm(q)),
        hamilton(conj(q), q) == number(norm(q)),
        conj(conj(q)) == q,
        norm(conj(q)) == norm(q),
{
    lemma_minus(q.x, q.x);
    lemma_minus(q.x, q.y);
    lemma_minus(q.x, q.z);
    lemma_minus(q.x, q.w);
    lemma_minus(q.y, q.x);
    lemma_minus(q.y, q.y);
    lemma_minus(q.y, q.z);
    lemma_minus(q.y, q.w);
    lemma_minus(q.z, q.x);
    lemma_minus(q.z, q.y);
    lemma_minus(q.z, q.z);
    lemma_minus(q.z, q.w);
    lemma_minus(q.w, q.x);
    lemma_minus(q.w, q.y);
    lemma_minus(q.w, q.z);
    lemma_minus(q.w, q.w);
}

/// One is neutral.
pub proof fn lemma_one(q: Quat<real>)
    ensures
        hamilton(q, number(1real)) == q,
        hamilton(number(1real), q) == q,
{
    lemma_constant(q.x);
    lemma_constant(q.y);
    lemma_constant(q.z);
    lemma_constant(q.w);
}

/// A number between a quaternion and its conjugate comes out in front of the squared norm.
proof fn lemma_number_between(q: Quat<real>, s: real)
    ensures
        hamilton(hamilton(q, number(s)), conj(q)) == number(s * norm(q)),
{
    let c = conj(q);
    let sc = Quat { x: s * c.x, y: s * c.y, z: s * c.z, w: s * c.w };
    lemma_associative(q, number(s), c);
    lemma_constant(c.x);
    lemma_constant(c.y);
    lemma_constant(c.z);
    lemma_constant(c.w);
    assert(hamilton(number(s), c) == sc);
    lemma_pull(q, c, s);
    lemma_times_product(s, q, c);
    lemma_norm(q);
    lemma_constant(s);
}

/// A factor of the second quaternion is a factor of every product of components.
proof fn lemma_pull(a: Quat<real>, b: Quat<real>, s: real)
    ensures
        ({
            let sb = Quat { x: s * b.x, y: s * b.y, z: s * b.z, w: s * b.w };
            let r = hamilton(a, b);
            hamilton(a, sb) == (Quat { x: s * r.x, y: s * r.y, z: s * r.z, w: s * r.w })
        }),
{
    lemma_times_product(s, a, b);
    lemma_pull_row(a.x, b, s);
    lemma_pull_row(a.y, b, s);
    lemma_pull_row(a.z, b, s);
    lemma_pull_row(a.w, b, s);
}

/// A factor in the middle moves to the front.
proof fn lemma_pull_row(p: real, b: Quat<real>, s: real)
    ensures
        p * (s * b.x) == s * (p * b.x),
        p * (s * b.y) == s * (p * b.y),
        p * (s * b.z) == s * (p * b.z),
        p * (s * b.w) == s * (p * b.w),
{
    lemma_reorder(p, s, b.x);
    lemma_reorder(p, s, b.y);
    lemma_reorder(p, s, b.z);
    lemma_reorder(p, s, b.w);
}

/// The six ways to write a product of three numbers.
pub proof fn lemma_reorder(a: real, b: real, c: real)
    ensures
        a * (b * c) == b * (a * c),
        a * (b * c) == a * (c * b),
        a * (b * c) == b * (c * a),
        a * (b * c) == c * (a * b),
        a * (b * c) == c * (b * a),
{
    lemma_turn(a, b, c);
    lemma_turn(b, c, a);
    lemma_turn(c, b, a);
    lemma_turn(c, a, b);
}

/// `v` rotated by `q`, in real numbers.
pub open spec fn turned(q: Quat<real>, v: Vec3<real>) -> Vec3<real> {
    let tx = q.y * v.z - q.z * v.y + q.w * v.x;
    let ty = q.z * v.x - q.x * v.z + q.w * v.y;
    let tz = q.x * v.y - q.y * v.x + q.w * v.z;
    Vec3 {
        x: v.x + 2real * (q.y * tz - q.z * ty),
        y: v.y + 2real * (q.z * tx - q.x * tz),
        z: v.z + 2real * (q.x * ty - q.y * tx),
    }
}

/// The ways to write the products of `p` and two components of `q`.
pub proof fn lemma_reorder_all(q: Quat<real>, p: real)
    ensures
        q.x * (q.y * p) == q.y * (q.x * p),
        q.x * (q.z * p) == q.z * (q.x * p),
        q.x * (q.w * p) == q.w * (q.x * p),
        q.y * (q.z * p) == q.z * (q.y * p),
        q.y * (q.w * p) == q.w * (q.y * p),
        q.z * (q.w * p) == q.w * (q.z * p),
        p * q.x == q.x * p,
        p * q.y == q.y * p,
        p * q.z == q.z * p,
        p * q.w == q.w * p,
        p * norm(q) == q.x * (q.x * p) + q.y * (q.y * p) + q.z * (q.z * p) + q.w * (q.w * p),
{
    lemma_reorder(q.x, q.y, p);
    lemma_reorder(q.x, q.z, p);
    lemma_reorder(q.x, q.w, p);
    lemma_reorder(q.y, q.z, p);
    lemma_reorder(q.y, q.w, p);
    lemma_reorder(q.z, q.w, p);
    lemma_turn(p, q.x, p);
    lemma_turn(p, q.y, p);
    lemma_turn(p, q.z, p);
    lemma_turn(p, q.w, p);
    lemma_turn(p, q.x, q.x);
    lemma_turn(p, q.y, q.y);
    lemma_turn(p, q.z, q.z);
    lemma_turn(p, q.w, q.w);
    lemma_spread(p, q.x * q.x + q.y * q.y + q.z * q.z, q.w * q.w);
    lemma_spread(p, q.x * q.x + q.y * q.y, q.z * q.z);
    lemma_spread(p, q.x * q.x, q.y * q.y);
}

/// A factor times one component of the inner sum of a rotation, multiplied out.
pub proof fn lemma_spread3(p: real, a: real, b: real, c: real)
    ensures
        p * (a - b + c) == p * a - p * b + p * c,
{
    lemma_spread(p, a - b, c);
    lemma_spread(p, a, b);
}

/// For a unit quaternion the rotation of `v` is the product `q·v·q*`.
proof fn lemma_turned_is_product(q: Quat<real>, v: Vec3<real>)
    requires
        norm(q) == 1real,
    ensures
        hamilton(hamilton(q, pure(v)), conj(q)) == pure(turned(q, v)),
{
    let r = hamilton(q, pure(v));
    lemma_reorder_all(q, v.x);
    lemma_reorder_all(q, v.y);
    lemma_reorder_all(q, v.z);
    lemma_constant(v.x);
    lemma_constant(v.y);
    lemma_constant(v.z);
    lemma_constant(q.x);
    lemma_constant(q.y);
    lemma_constant(q.z);
    lemma_constant(q.w);
    lemma_product_times(q, pure(v), q.x);
    lemma_product_times(q, pure(v), q.y);
    lemma_product_times(q, pure(v), q.z);
    lemma_product_times(q, pure(v), q.w);
    lemma_minus(r.x, q.x);
    lemma_minus(r.x, q.y);
    lemma_minus(r.x, q.z);
    lemma_minus(r.y, q.x);
    lemma_minus(r.y, q.y);
    lemma_minus(r.y, q.z);
    lemma_minus(r.z, q.x);
    lemma_minus(r.z, q.y);
    lemma_minus(r.z, q.z);
    lemma_minus(r.w, q.x);
    lemma_minus(r.w, q.y);
    lemma_minus(r.w, q.z);
    lemma_spread3(q.x, q.x * v.y, q.y * v.x, q.w * v.z);
    lemma_spread3(q.y, q.x * v.y, q.y * v.x, q.w * v.z);
    lemma_spread3(q.y, q.y * v.z, q.z * v.y, q.w * v.x);
    lemma_spread3(q.z, q.y * v.z, q.z * v.y, q.w * v.x);
    lemma_spread3(q.x, q.z * v.x, q.x * v.z, q.w * v.y);
    lemma_spread3(q.z, q.z * v.x, q.x * v.z, q.w * v.y);
}

/// The vector that `v` is read as.
pub open spec fn read_vec<R: Scalar>(val: spec_fn(R) -> real, v: Vec3<R>) -> Vec3<real> {
    Vec3 { x: val(v.x), y: val(v.y), z: val(v.z) }
}

/// The quaternion that `q` is read as.
pub open spec fn read_quat<R: Scalar>(val: spec_fn(R) -> real, q: Quat<R>) -> Quat<real> {
    Quat { x: val(q.x), y: val(q.y), z: val(q.z), w: val(q.w) }
}

/// Rotation is read as rotation.
pub proof fn lemma_read_rotated<R: Scalar>(val: spec_fn(R) -> real, q: Quat<R>, v: Vec3<R>)
    requires
        reads_exactly(val),
    ensures
        read_vec(val, q.rotated(v)) == turned(read_quat(val, q), read_vec(val, v)),
{
    let two = R::literal(TWO);
    let c = q.vector().crossed(q.vector().crossed(v).plus_scaled(q.w, v));
    assert(val(two.times(c.x)) == 2real * val(c.x));
    assert(val(two.times(c.y)) == 2real * val(c.y));
    assert(val(two.times(c.z)) == 2real * val(c.z));
}

/// Vectors that are read as the same vector are the same.
proof fn lemma_read_injective<R: Scalar>(val: spec_fn(R) -> real, a: Vec3<R>, b: Vec3<R>)
    requires
        reads_exactly(val),
        read_vec(val, a) == read_vec(val, b),
    ensures
        a == b,
{
    assert(val(a.x) == val(b.x) && val(a.y) == val(b.y) && val(a.z) == val(b.z));
}

/// A unit quaternion is read as one.
pub proof fn lemma_read_unit<R: Scalar>(val: spec_fn(R) -> real, q: Quat<R>)
    requires
        reads_exactly(val),
    ensures
        val(q.norm_sq()) == norm(read_quat(val, q)),
        q.is_unit() == (norm(read_quat(val, q)) == 1real),
{
    assert(val(q.norm_sq()) == val(one::<R>()) ==> q.norm_sq() == one::<R>());
}

/// Rotation by a unit quaternion keeps lengths.
proof fn lemma_turned_length(q: Quat<real>, v: Vec3<real>)
    requires
        norm(q) == 1real,
    ensures
        norm(pure(turned(q, v))) == norm(pure(v)),
{
    let (c, p) = (conj(q), pure(v));
    let pc = conj(p);
    let qp = hamilton(q, p);
    let r = hamilton(qp, c);
    lemma_turned_is_product(q, v);
    lemma_norm(r);
    lemma_norm(q);
    lemma_norm(p);
    // The conjugate of the rotated vector is the rotated conjugate.
    lemma_conj_product(qp, c);
    lemma_conj_product(q, p);
    let back = hamilton(pc, c);
    assert(conj(r) == hamilton(q, back));
    // Multiply the two: the inner factors cancel.
    lemma_associative(qp, c, hamilton(q, back));
    lemma_associative(c, q, back);
    lemma_one(back);
    lemma_associative(q, p, back);
    lemma_associative(p, pc, c);
    lemma_associative(q, number(norm(p)), c);
    lemma_number_between(q, norm(p));
    lemma_constant(norm(p));
}

/// Rotation by a unit quaternion keeps the length of a vector, in exact arithmetic.
pub proof fn law_rotation_keeps_length<R: Scalar>(
    val: spec_fn(R) -> real,
    q: Quat<R>,
    v: Vec3<R>,
)
    requires
        reads_exactly(val),
        q.is_unit(),
    ensures
        q.rotated(v).length_sq() == v.length_sq(),
        q.rotated(v).length_sq().root() == v.length_sq().root(),
{
    lemma_read_unit(val, q);
    lemma_read_rotated(val, q, v);
    lemma_turned_length(read_quat(val, q), read_vec(val, v));
    lemma_constant(0real);
    assert(val(q.rotated(v).length_sq()) == val(v.length_sq()));
}

/// Rotation by the identity does nothing, in exact arithmetic.
pub proof fn law_identity_rotates_nothing<R: Scalar>(val: spec_fn(R) -> real, v: Vec3<R>)
    requires
        reads_exactly(val),
    ensures
        Quat::identity().rotated(v) == v,
        Quat::<R>::identity().is_unit(),
{
    let q = Quat::<R>::identity();
    let r = read_vec(val, v);
    lemma_read_rotated(val, q, v);
    lemma_read_unit(val, q);
    lemma_constant(0real);
    lemma_constant(1real);
    lemma_constant(r.x);
    lemma_constant(r.y);
    lemma_constant(r.z);
    lemma_read_injective(val, q.rotated(v), v);
}

/// Rotating back undoes a rotation by a unit quaternion.
proof fn lemma_turned_back(q: Quat<real>, v: Vec3<real>)
    requires
        norm(q) == 1real,
    ensures
        turned(conj(q), turned(q, v)) == v,
{
    let (c, p) = (conj(q), pure(v));
    let qp = hamilton(q, p);
    let r = turned(q, v);
    lemma_norm(q);
    lemma_turned_is_product(q, v);
    lemma_turned_is_product(c, r);
    lemma_associative(c, qp, c);
    lemma_associative(c, q, p);
    lemma_one(p);
    lemma_associative(p, c, q);
    assert(pure(turned(c, r)) == p);
}

/// Rotation by the inverse of a unit quaternion undoes the rotation, and the other way
/// round, in exact arithmetic.
pub proof fn law_inverse_rotation_undoes<R: Scalar>(
    val: spec_fn(R) -> real,
    q: Quat<R>,
    v: Vec3<R>,
)
    requires
        reads_exactly(val),
        q.is_unit(),
    ensures
        q.rotated_back(q.rotated(v)) == v,
        q.rotated(q.rotated_back(v)) == v,
{
    let (rq, rv) = (read_quat(val, q), read_vec(val, v));
    let c = q.conjugate();
    lemma_read_unit(val, q);
    lemma_norm(rq);
    assert(read_quat(val, c) == conj(rq));
    lemma_read_rotated(val, q, v);
    lemma_read_rotated(val, c, q.rotated(v));
    lemma_turned_back(rq, rv);
    lemma_read_injective(val, q.rotated_back(q.rotated(v)), v);
    lemma_read_rotated(val, c, v);
    lemma_read_rotated(val, q, c.rotated(v));
    lemma_turned_back(conj(rq), rv);
    lemma_read_injective(val, q.rotated(q.rotated_back(v)), v);
}

/// The product of unit quaternions is a unit quaternion.
proof fn lemma_unit_product(a: Quat<real>, b: Quat<real>)
    requires
        norm(a) == 1real,
        norm(b) == 1real,
    ensures
        norm(hamilton(a, b)) == 1real,
{
    let (ac, bc) = (conj(a), conj(b));
    lemma_norm(a);
    lemma_norm(b);
    lemma_norm(hamilton(a, b));
    lemma_conj_product(a, b);
    lemma_associative(a, b, hamilton(bc, ac));
    lemma_associative(b, bc, ac);
    lemma_one(ac);
}

/// Rotation by a product is rotation by the second factor, then by the first.
proof fn lemma_turned_twice(a: Quat<real>, b: Quat<real>, v: Vec3<real>)
    requires
        norm(a) == 1real,
        norm(b) == 1real,
    ensures
        turned(hamilton(a, b), v) == turned(a, turned(b, v)),
{
    let (ac, bc, p) = (conj(a), conj(b), pure(v));
    let bp = hamilton(b, p);
    lemma_unit_product(a, b);
    lemma_turned_is_product(hamilton(a, b), v);
    lemma_turned_is_product(b, v);
    lemma_turned_is_product(a, turned(b, v));
    lemma_conj_product(a, b);
    lemma_associative(a, b, p);
    lemma_associative(a, bp, hamilton(bc, ac));
    lemma_associative(bp, bc, ac);
    lemma_associative(a, hamilton(bp, bc), ac);
    assert(pure(turned(hamilton(a, b), v)) == pure(turned(a, turned(b, v))));
}

/// Rotation by a product of unit quaternions is rotation by the second factor, then by the
/// first; the product is a unit quaternion, and a unit quaternion times its conjugate is
/// the identity. All in exact arithmetic.
pub proof fn law_product_rotates_twice<R: Scalar>(
    val: spec_fn(R) -> real,
    a: Quat<R>,
    b: Quat<R>,
    v: Vec3<R>,
)
    requires
        reads_exactly(val),
        a.is_unit(),
        b.is_unit(),
    ensures
        a.product(b).rotated(v) == a.rotated(b.rotated(v)),
        a.product(b).is_unit(),
        a.product(a.conjugate()) == Quat::<R>::identity(),
{
    let (ra, rb, rv) = (read_quat(val, a), read_quat(val, b), read_vec(val, v));
    lemma_read_unit(val, a);
    lemma_read_unit(val, b);
    lemma_read_product(val, a, b);
    lemma_unit_product(ra, rb);
    lemma_read_unit(val, a.product(b));
    lemma_read_rotated(val, a.product(b), v);
    lemma_read_rotated(val, b, v);
    lemma_read_rotated(val, a, b.rotated(v));
    lemma_turned_twice(ra, rb, rv);
    lemma_read_injective(val, a.product(b).rotated(v), a.rotated(b.rotated(v)));
    let (i, id) = (a.product(a.conjugate()), Quat::<R>::identity());
    lemma_read_product(val, a, a.conjugate());
    lemma_norm(ra);
    assert(read_quat(val, a.conjugate()) == conj(ra));
    assert(read_quat(val, i) == number(1real));
    assert(val(i.x) == val(id.x) && val(i.y) == val(id.y) && val(i.z) == val(id.z) && val(i.w)
        == val(id.w));
}

/// The product is read as the product.
pub proof fn lemma_read_product<R: Scalar>(val: spec_fn(R) -> real, a: Quat<R>, b: Quat<R>)
    requires
        reads_exactly(val),
    ensures
        read_quat(val, a.product(b)) == hamilton(read_quat(val, a), read_quat(val, b)),
{
}

/// In exact arithmetic the reading that other laws ask for may be the identity, and zero
/// absorbs every number: what those laws say up to the sign of a zero holds exactly.
pub proof fn law_exact_arithmetic<R: Scalar>(val: spec_fn(R) -> real)
    requires
        reads_exactly(val),
        R::literal(MINUS_ONE) == R::literal(ONE).opposite(),
    ensures
        numeric::<R>(|a: R| a),
        forall|a: R| #[trigger] zero::<R>().times(a) == zero::<R>(),
        forall|a: R| #[trigger] a.times(zero()) == zero::<R>(),
{
    let num = |a: R| a;
    let (z, o) = (zero::<R>(), one::<R>());
    assert forall|a: R| num(#[trigger] a.opposite().opposite()) == num(a) by {
        assert(val(a.opposite().opposite()) == val(a));
    }
    assert forall|a: R, b: R|
        num(#[trigger] a.opposite().plus(b.opposite())) == num(a.plus(b).opposite()) by {
        assert(val(a.opposite().plus(b.opposite())) == val(a.plus(b).opposite()));
    }
    assert forall|a: R, b: R|
        num(#[trigger] a.opposite().minus(b.opposite())) == num(a.minus(b).opposite()) by {
        assert(val(a.opposite().minus(b.opposite())) == val(a.minus(b).opposite()));
    }
    assert forall|a: R, b: R|
        num(#[trigger] a.opposite().times(b)) == num(a.times(b).opposite()) by {
        lemma_minus(val(a), val(b));
        assert(val(a.opposite().times(b)) == val(a.times(b).opposite()));
    }
    assert forall|a: R, b: R|
        num(#[trigger] a.times(b.opposite())) == num(a.times(b).opposite()) by {
        lemma_minus(val(a), val(b));
        assert(val(a.times(b.opposite())) == val(a.times(b).opposite()));
    }
    assert forall|a: R| num(#[trigger] a.plus(z)) == num(a) by {
        assert(val(a.plus(z)) == val(a));
    }
    assert forall|a: R| num(#[trigger] z.plus(a)) == num(a) by {
        assert(val(z.plus(a)) == val(a));
    }
    assert forall|a: R| num(#[trigger] o.times(a)) == num(a) by {
        lemma_constant(val(a));
        assert(val(o.times(a)) == val(a));
    }
    assert(val(z.minus(z)) == val(z));
    assert(val(z.opposite()) == val(z));
    lemma_constant(2real);
    assert(val(R::literal(TWO).times(z)) == val(z));
    assert forall|a: R| #[trigger] z.times(a) == z by {
        lemma_constant(val(a));
        assert(val(z.times(a)) == val(z));
    }
    assert forall|a: R| #[trigger] a.times(z) == z by {
        lemma_constant(val(a));
        assert(val(a.times(z)) == val(z));
    }
}

/// A joint whose child is turned from the rest pose by the quaternion `(0, 0, s, c)`, that
/// is whose rotation is `parent · rest · (0, 0, s, c)` with unit quaternions, is seen at
/// the angle `2·atan2(s, c)`, in exact arithmetic.
pub proof fn law_hinge_angle_of_turned_child<R: Scalar>(
    val: spec_fn(R) -> real,
    poses: Seq<R>,
    e: int,
    cpb: int,
    parent: int,
    child: int,
    rest: Quat<R>,
    s: R,
    c: R,
)
    requires
        reads_exactly(val),
        rest.is_unit(),
        rot_at(poses, e, parent, cpb).is_unit(),
        rot_at(poses, e, child, cpb) == rot_at(poses, e, parent, cpb).product(rest).product(
            Quat { x: zero(), y: zero(), z: s, w: c },
        ),
    ensures
        hinge_angle(poses, e, cpb, parent, child, rest) == R::literal(TWO).times(s.angle(c)),
{
    let p = rot_at(poses, e, parent, cpb);
    let turn = Quat { x: zero(), y: zero(), z: s, w: c };
    let (rp, rr, rt) = (read_quat(val, p), read_quat(val, rest), read_quat(val, turn));
    let (pc, rc) = (conj(rp), conj(rr));
    let child_rot = rot_at(poses, e, child, cpb);
    let rel = rest.conjugate().product(p.conjugate()).product(child_rot);
    lemma_read_unit(val, p);
    lemma_read_unit(val, rest);
    lemma_read_product(val, p, rest);
    lemma_read_product(val, p.product(rest), turn);
    lemma_read_product(val, rest.conjugate(), p.conjugate());
    lemma_read_product(val, rest.conjugate().product(p.conjugate()), child_rot);
    assert(read_quat(val, p.conjugate()) == pc && read_quat(val, rest.conjugate()) == rc);
    let pr = hamilton(rp, rr);
    let inv = hamilton(rc, pc);
    // inv · (pr · turn) = (inv · pr) · turn, and inv · pr = 1.
    lemma_norm(rp);
    lemma_norm(rr);
    lemma_associative(inv, pr, rt);
    lemma_associative(rc, pc, pr);
    lemma_associative(pc, rp, rr);
    lemma_one(rr);
    lemma_one(rt);
    assert(read_quat(val, rel) == rt);
    assert(val(rel.z) == val(s) && val(rel.w) == val(c));
}

} // verus!
