//! Vectors, unit quaternions and rigid-body poses.
//!
//! A pose occupies eight numbers of a pose buffer: the rotation quaternion
//! `(x, y, z, w)`, the translation `(x, y, z)` and one number of padding. The poses
//! of one environment lie next to each other, environment after environment.

use crate::buffer::load;
use crate::scalar::{numeric, one, zero, zero_absorbs, Scalar, MINUS_ONE, ONE, TWO, ZERO};
use vstd::prelude::*;

verus! {

/// A vector in space.
pub struct Vec3<R> {
    pub x: R,
    pub y: R,
    pub z: R,
}

impl<R: Copy> Copy for Vec3<R> {

}

impl<R: Copy> Clone for Vec3<R> {
    fn clone(&self) -> (r: Self)
        ensures
            r == *self,
    {
        *self
    }
}

/// A quaternion `x·i + y·j + z·k + w`; a rotation where its norm is one.
pub struct Quat<R> {
    pub x: R,
    pub y: R,
    pub z: R,
    pub w: R,
}

impl<R: Copy> Copy for Quat<R> {

}

impl<R: Copy> Clone for Quat<R> {
    fn clone(&self) -> (r: Self)
        ensures
            r == *self,
    {
        *self
    }
}

impl<R: Scalar> Vec3<R> {
    /// The component along coordinate axis `i`.
    pub open spec fn along(self, i: int) -> R {
        if i == 0 {
            self.x
        } else if i == 1 {
            self.y
        } else {
            self.z
        }
    }

    /// The components in order.
    pub open spec fn components(self) -> Seq<R> {
        seq![self.x, self.y, self.z]
    }

    /// Cross product.
    pub open spec fn crossed(self, b: Vec3<R>) -> Vec3<R> {
        Vec3 {
            x: self.y.times(b.z).minus(self.z.times(b.y)),
            y: self.z.times(b.x).minus(self.x.times(b.z)),
            z: self.x.times(b.y).minus(self.y.times(b.x)),
        }
    }

    /// `self + s·b`, component by component.
    pub open spec fn plus_scaled(self, s: R, b: Vec3<R>) -> Vec3<R> {
        Vec3 {
            x: self.x.plus(s.times(b.x)),
            y: self.y.plus(s.times(b.y)),
            z: self.z.plus(s.times(b.z)),
        }
    }

    /// The finite difference `(self - before) / dt`.
    pub open spec fn rate_since(self, before: Vec3<R>, dt: R) -> Vec3<R> {
        Vec3 {
            x: self.x.minus(before.x).over(dt),
            y: self.y.minus(before.y).over(dt),
            z: self.z.minus(before.z).over(dt),
        }
    }

    /// The null vector.
    pub open spec fn null() -> Vec3<R> {
        Vec3 { x: R::literal(ZERO), y: R::literal(ZERO), z: R::literal(ZERO) }
    }

    /// The vector with component `value` along axis `i` and zero elsewhere.
    pub open spec fn only(i: int, value: R) -> Vec3<R> {
        Vec3 {
            x: if i == 0 {
                value
            } else {
                R::literal(ZERO)
            },
            y: if i == 1 {
                value
            } else {
                R::literal(ZERO)
            },
            z: if i == 2 {
                value
            } else {
                R::literal(ZERO)
            },
        }
    }
}

impl<R: Scalar> Quat<R> {
    /// The quaternion with the given components in `(x, y, z, w)` order.
    pub open spec fn of(c: Seq<R>) -> Quat<R> {
        Quat { x: c[0], y: c[1], z: c[2], w: c[3] }
    }

    /// The vector part.
    pub open spec fn vector(self) -> Vec3<R> {
        Vec3 { x: self.x, y: self.y, z: self.z }
    }

    /// Conjugate.
    pub open spec fn conjugate(self) -> Quat<R> {
        Quat {
            x: self.x.opposite(),
            y: self.y.opposite(),
            z: self.z.opposite(),
            w: self.w,
        }
    }

    /// The quaternion with all four components negated; it stands for the same rotation.
    pub open spec fn negated(self) -> Quat<R> {
        Quat {
            x: self.x.opposite(),
            y: self.y.opposite(),
            z: self.z.opposite(),
            w: self.w.opposite(),
        }
    }

    /// The quaternion of the rotation that moves nothing.
    pub open spec fn identity() -> Quat<R> {
        Quat { x: zero(), y: zero(), z: zero(), w: one() }
    }

    /// Hamilton product `self·b`.
    pub open spec fn product(self, b: Quat<R>) -> Quat<R> {
        let a = self;
        Quat {
            x: a.w.times(b.x).plus(a.x.times(b.w)).plus(a.y.times(b.z)).minus(a.z.times(b.y)),
            y: a.w.times(b.y).minus(a.x.times(b.z)).plus(a.y.times(b.w)).plus(a.z.times(b.x)),
            z: a.w.times(b.z).plus(a.x.times(b.y)).minus(a.y.times(b.x)).plus(a.z.times(b.w)),
            w: a.w.times(b.w).minus(a.x.times(b.x)).minus(a.y.times(b.y)).minus(a.z.times(b.z)),
        }
    }

    /// `v` rotated by `self`: `v + 2·u×(u×v + w·v)` with `u` the vector part.
    pub open spec fn rotated(self, v: Vec3<R>) -> Vec3<R> {
        let u = self.vector();
        v.plus_scaled(R::literal(TWO), u.crossed(u.crossed(v).plus_scaled(self.w, v)))
    }

    /// `v` rotated by the inverse of `self`.
    pub open spec fn rotated_back(self, v: Vec3<R>) -> Vec3<R> {
        self.conjugate().rotated(v)
    }
}

/// Cross product `a × b`.
pub fn cross<R: Scalar>(a: Vec3<R>, b: Vec3<R>) -> (r: Vec3<R>)
    ensures
        r == a.crossed(b),
{
    Vec3 {
        x: a.y.mul(b.z).sub(a.z.mul(b.y)),
        y: a.z.mul(b.x).sub(a.x.mul(b.z)),
        z: a.x.mul(b.y).sub(a.y.mul(b.x)),
    }
}

/// Rotates `v` by the unit quaternion `q`.
pub fn quat_rotate<R: Scalar>(q: Quat<R>, v: Vec3<R>) -> (r: Vec3<R>)
    ensures
        r == q.rotated(v),
{
    let u = Vec3 { x: q.x, y: q.y, z: q.z };
    let c = cross(u, v);
    let t = Vec3 {
        x: c.x.add(q.w.mul(v.x)),
        y: c.y.add(q.w.mul(v.y)),
        z: c.z.add(q.w.mul(v.z)),
    };
    let tt = cross(u, t);
    let k = R::from_bits(TWO);
    Vec3 { x: v.x.add(k.mul(tt.x)), y: v.y.add(k.mul(tt.y)), z: v.z.add(k.mul(tt.z)) }
}

/// Rotates `v` by the inverse of the unit quaternion `q` (world to body).
pub fn quat_rotate_inv<R: Scalar>(q: Quat<R>, v: Vec3<R>) -> (r: Vec3<R>)
    ensures
        r == q.rotated_back(v),
{
    quat_rotate(Quat { x: q.x.neg(), y: q.y.neg(), z: q.z.neg(), w: q.w }, v)
}

/// Hamilton product `a·b`.
pub fn quat_mul<R: Scalar>(a: Quat<R>, b: Quat<R>) -> (r: Quat<R>)
    ensures
        r == a.product(b),
{
    Quat {
        x: a.w.mul(b.x).add(a.x.mul(b.w)).add(a.y.mul(b.z)).sub(a.z.mul(b.y)),
        y: a.w.mul(b.y).sub(a.x.mul(b.z)).add(a.y.mul(b.w)).add(a.z.mul(b.x)),
        z: a.w.mul(b.z).add(a.x.mul(b.y)).sub(a.y.mul(b.x)).add(a.z.mul(b.w)),
        w: a.w.mul(b.w).sub(a.x.mul(b.x)).sub(a.y.mul(b.y)).sub(a.z.mul(b.z)),
    }
}

/// Conjugate of `q`.
pub fn quat_conj<R: Scalar>(q: Quat<R>) -> (r: Quat<R>)
    ensures
        r == q.conjugate(),
{
    Quat { x: q.x.neg(), y: q.y.neg(), z: q.z.neg(), w: q.w }
}

/// The component of `v` along axis `i`.
pub fn component<R: Scalar>(v: Vec3<R>, i: usize) -> (r: R)
    requires
        i < 3,
    ensures
        r == v.along(i as int),
{
    if i == 0 {
        v.x
    } else if i == 1 {
        v.y
    } else {
        v.z
    }
}

/// The vector with `value` along axis `i` and zero elsewhere.
fn axis_vector<R: Scalar>(i: usize, value: R) -> (r: Vec3<R>)
    requires
        i < 3,
    ensures
        r == Vec3::only(i as int, value),
{
    let z = R::from_bits(ZERO);
    let mut r = Vec3 { x: z, y: z, z };
    if i == 0 {
        r.x = value;
    } else if i == 1 {
        r.y = value;
    } else {
        r.z = value;
    }
    r
}

/// World up basis vector, `[0, 0, 1]` for `up == 2`.
pub fn up_basis<R: Scalar>(up: usize) -> (r: Vec3<R>)
    requires
        up < 3,
    ensures
        r == Vec3::only(up as int, R::literal(ONE)),
{
    axis_vector(up, R::from_bits(ONE))
}

/// World down basis vector, `[0, 0, -1]` for `up == 2`.
pub fn down_basis<R: Scalar>(up: usize) -> (r: Vec3<R>)
    requires
        up < 3,
    ensures
        r == Vec3::only(up as int, R::literal(MINUS_ONE)),
{
    axis_vector(up, R::from_bits(MINUS_ONE))
}

/// Index of the first number of pose `link` of environment `e`, with `cpb` poses
/// per environment.
pub open spec fn pose_base(e: int, link: int, cpb: int) -> int {
    (e * cpb + link) * 8
}

/// Whether a pose buffer of `len` numbers holds the rotation of that pose.
pub open spec fn has_rot(len: int, e: int, link: int, cpb: int) -> bool {
    pose_base(e, link, cpb) + 4 <= len
}

/// Whether a pose buffer of `len` numbers holds the translation of that pose.
pub open spec fn has_trans(len: int, e: int, link: int, cpb: int) -> bool {
    pose_base(e, link, cpb) + 7 <= len
}

/// The rotation of pose `link` of environment `e`.
pub open spec fn rot_at<R: Scalar>(poses: Seq<R>, e: int, link: int, cpb: int) -> Quat<R> {
    let b = pose_base(e, link, cpb);
    Quat { x: poses[b], y: poses[b + 1], z: poses[b + 2], w: poses[b + 3] }
}

/// The translation of pose `link` of environment `e`.
pub open spec fn trans_at<R: Scalar>(poses: Seq<R>, e: int, link: int, cpb: int) -> Vec3<R> {
    let b = pose_base(e, link, cpb);
    Vec3 { x: poses[b + 4], y: poses[b + 5], z: poses[b + 6] }
}

/// Computes [`pose_base`].
fn pose_start(e: u32, link: u32, cpb: u32) -> (b: u128)
    ensures
        b == pose_base(e as int, link as int, cpb as int),
        b <= 0x10_0000_0000_0000_0000,
{
    assert(0 <= e * cpb <= 0xffff_ffff * 0xffff_ffff) by (nonlinear_arith)
        requires
            0 <= e <= 0xffff_ffff,
            0 <= cpb <= 0xffff_ffff,
    ;
    (e as u128 * cpb as u128 + link as u128) * 8
}

/// Whether a pose buffer of `len` numbers holds the rotation of pose `link` of
/// environment `e`.
pub fn holds_rot(len: usize, e: u32, link: u32, cpb: u32) -> (r: bool)
    ensures
        r == has_rot(len as int, e as int, link as int, cpb as int),
{
    pose_start(e, link, cpb) + 4 <= len as u128
}

/// Whether a pose buffer of `len` numbers holds the translation of pose `link` of
/// environment `e`.
pub fn holds_trans(len: usize, e: u32, link: u32, cpb: u32) -> (r: bool)
    ensures
        r == has_trans(len as int, e as int, link as int, cpb as int),
{
    pose_start(e, link, cpb) + 7 <= len as u128
}

/// Computes [`pose_base`] for a pose that lies within `len` numbers.
fn pose_offset(len: usize, e: usize, link: usize, cpb: usize) -> (b: usize)
    requires
        pose_base(e as int, link as int, cpb as int) + 4 <= len,
    ensures
        b == pose_base(e as int, link as int, cpb as int),
{
    assert(0 <= e * cpb) by (nonlinear_arith);
    (e * cpb + link) * 8
}

/// Reads the rotation quaternion of pose `link` in environment `e`.
pub fn pose_rot<R: Scalar>(poses: &[R], e: usize, link: usize, cpb: usize) -> (r: Quat<R>)
    requires
        has_rot(poses@.len() as int, e as int, link as int, cpb as int),
    ensures
        r == rot_at(poses@, e as int, link as int, cpb as int),
{
    let b: usize = pose_offset(poses.len(), e, link, cpb);
    proof {
        assert(0 <= e * cpb) by (nonlinear_arith);
    }
    Quat {
        x: load(poses, b),
        y: load(poses, b + 1),
        z: load(poses, b + 2),
        w: load(poses, b + 3),
    }
}

/// Reads the translation of pose `link` in environment `e`.
pub fn pose_trans<R: Scalar>(poses: &[R], e: usize, link: usize, cpb: usize) -> (r: Vec3<R>)
    requires
        has_trans(poses@.len() as int, e as int, link as int, cpb as int),
    ensures
        r == trans_at(poses@, e as int, link as int, cpb as int),
{
    let b: usize = pose_offset(poses.len(), e, link, cpb);
    proof {
        assert(0 <= e * cpb) by (nonlinear_arith);
    }
    Vec3 { x: load(poses, b + 4), y: load(poses, b + 5), z: load(poses, b + 6) }
}

/// The angle of the joint between two links: `2·atan2(rel.z, rel.w)` with
/// `rel = rest⁻¹ · parent⁻¹ · child`.
pub open spec fn hinge_angle<R: Scalar>(
    poses: Seq<R>,
    e: int,
    cpb: int,
    parent: int,
    child: int,
    rest: Quat<R>,
) -> R {
    let rel = rest.conjugate().product(rot_at(poses, e, parent, cpb).conjugate()).product(
        rot_at(poses, e, child, cpb),
    );
    R::literal(TWO).times(rel.z.angle(rel.w))
}

/// Computes the angle of the joint between two links of environment `e`.
pub fn joint_angle<R: Scalar>(
    poses: &[R],
    e: usize,
    cpb: usize,
    parent: usize,
    child: usize,
    rest: Quat<R>,
) -> (theta: R)
    requires
        has_rot(poses@.len() as int, e as int, parent as int, cpb as int),
        has_rot(poses@.len() as int, e as int, child as int, cpb as int),
    ensures
        theta == hinge_angle(
            poses@,
            e as int,
            cpb as int,
            parent as int,
            child as int,
            rest,
        ),
{
    let qp = pose_rot(poses, e, parent, cpb);
    let qc = pose_rot(poses, e, child, cpb);
    let rel = quat_mul(quat_mul(quat_conj(rest), quat_conj(qp)), qc);
    R::from_bits(TWO).mul(rel.z.atan2(rel.w))
}

/// Where the base link is and how it moves, in world coordinates.
pub struct BaseMotion<R> {
    /// Orientation.
    pub rot: Quat<R>,
    /// Position.
    pub pos: Vec3<R>,
    /// Linear velocity.
    pub lin: Vec3<R>,
    /// Angular velocity.
    pub ang: Vec3<R>,
}

impl<R: Scalar> BaseMotion<R> {
    /// The motion of link `torso` of environment `e`.
    ///
    /// The velocities are finite differences over `dt` against the previous poses,
    /// and null where there is no previous pose. The angular velocity is
    /// `2·Δq.xyz / dt`, with the sign of `Δq` chosen so that `Δq.w` is not negative.
    pub open spec fn observed(
        poses: Seq<R>,
        prev_poses: Seq<R>,
        e: int,
        torso: int,
        cpb: int,
        has_prev: bool,
        dt: R,
    ) -> BaseMotion<R> {
        let rot = rot_at(poses, e, torso, cpb);
        let pos = trans_at(poses, e, torso, cpb);
        if has_prev {
            let dq = rot.product(rot_at(prev_poses, e, torso, cpb).conjugate());
            let sign = if R::literal(ZERO).at_most(dq.w) {
                R::literal(ONE)
            } else {
                R::literal(MINUS_ONE)
            };
            let k = R::literal(TWO).times(sign);
            BaseMotion {
                rot,
                pos,
                lin: pos.rate_since(trans_at(prev_poses, e, torso, cpb), dt),
                ang: Vec3 {
                    x: k.times(dq.x).over(dt),
                    y: k.times(dq.y).over(dt),
                    z: k.times(dq.z).over(dt),
                },
            }
        } else {
            BaseMotion { rot, pos, lin: Vec3::null(), ang: Vec3::null() }
        }
    }

    /// Linear velocity in the body frame.
    pub open spec fn body_lin(self) -> Vec3<R> {
        self.rot.rotated_back(self.lin)
    }

    /// Angular velocity in the body frame.
    pub open spec fn body_ang(self) -> Vec3<R> {
        self.rot.rotated_back(self.ang)
    }

    /// Gravity direction in the body frame, where `up` is the world's up axis.
    pub open spec fn body_gravity(self, up: int) -> Vec3<R> {
        self.rot.rotated_back(Vec3::only(up, R::literal(MINUS_ONE)))
    }
}

/// Derives the motion of link `torso` of environment `e` from two pose buffers.
pub fn base_motion<R: Scalar>(
    poses: &[R],
    prev_poses: &[R],
    e: usize,
    torso: usize,
    cpb: usize,
    has_prev: bool,
    dt: R,
) -> (m: BaseMotion<R>)
    requires
        has_trans(poses@.len() as int, e as int, torso as int, cpb as int),
        has_prev ==> has_trans(prev_poses@.len() as int, e as int, torso as int, cpb as int),
    ensures
        m == BaseMotion::observed(
            poses@,
            prev_poses@,
            e as int,
            torso as int,
            cpb as int,
            has_prev,
            dt,
        ),
{
    let r = pose_rot(poses, e, torso, cpb);
    let t = pose_trans(poses, e, torso, cpb);
    if has_prev {
        let pr = pose_rot(prev_poses, e, torso, cpb);
        let pt = pose_trans(prev_poses, e, torso, cpb);
        let lin = Vec3 {
            x: t.x.sub(pt.x).div(dt),
            y: t.y.sub(pt.y).div(dt),
            z: t.z.sub(pt.z).div(dt),
        };
        let dq = quat_mul(r, quat_conj(pr));
        let s = if R::from_bits(ZERO).le(dq.w) {
            R::from_bits(ONE)
        } else {
            R::from_bits(MINUS_ONE)
        };
        let k = R::from_bits(TWO).mul(s);
        let ang = Vec3 { x: k.mul(dq.x).div(dt), y: k.mul(dq.y).div(dt), z: k.mul(dq.z).div(dt) };
        BaseMotion { rot: r, pos: t, lin, ang }
    } else {
        let z = R::from_bits(ZERO);
        let null = Vec3 { x: z, y: z, z };
        BaseMotion { rot: r, pos: t, lin: null, ang: null }
    }
}

/// Two pose buffers agree on the poses of environment `e`.
pub open spec fn same_poses<R: Scalar>(a: Seq<R>, b: Seq<R>, e: int, cpb: int) -> bool {
    forall|i: int|
        pose_base(e, 0, cpb) <= i < pose_base(e, cpb, cpb) ==> #[trigger] a[i] == b[i]
}

/// Pose buffers that agree on an environment agree on each of its links.
pub proof fn lemma_same_pose<R: Scalar>(a: Seq<R>, b: Seq<R>, e: int, link: int, cpb: int)
    requires
        same_poses(a, b, e, cpb),
        0 <= link < cpb,
    ensures
        rot_at(a, e, link, cpb) == rot_at(b, e, link, cpb),
        trans_at(a, e, link, cpb) == trans_at(b, e, link, cpb),
{
}

/// Two vectors are the same in the reading `num`.
pub open spec fn same_vec<R: Scalar>(num: spec_fn(R) -> R, a: Vec3<R>, b: Vec3<R>) -> bool {
    &&& num(a.x) == num(b.x)
    &&& num(a.y) == num(b.y)
    &&& num(a.z) == num(b.z)
}

/// Two quaternions are the same in the reading `num`.
pub open spec fn same_quat<R: Scalar>(num: spec_fn(R) -> R, a: Quat<R>, b: Quat<R>) -> bool {
    &&& num(a.x) == num(b.x)
    &&& num(a.y) == num(b.y)
    &&& num(a.z) == num(b.z)
    &&& num(a.w) == num(b.w)
}

/// In the reading `num`, zero absorbs every component of `v`: of `binary32` vectors exactly
/// the finite ones have this.
pub open spec fn finite_vec<R: Scalar>(num: spec_fn(R) -> R, v: Vec3<R>) -> bool {
    zero_absorbs(num, v.x) && zero_absorbs(num, v.y) && zero_absorbs(num, v.z)
}

/// In the reading `num`, zero absorbs every component of `q`.
pub open spec fn finite_quat<R: Scalar>(num: spec_fn(R) -> R, q: Quat<R>) -> bool {
    finite_vec(num, q.vector()) && zero_absorbs(num, q.w)
}

/// A quaternion and its negation rotate alike.
pub proof fn law_negated_quaternion_rotates_alike<R: Scalar>(
    num: spec_fn(R) -> R,
    q: Quat<R>,
    v: Vec3<R>,
)
    requires
        numeric(num),
    ensures
        same_vec(num, q.negated().rotated(v), q.rotated(v)),
        same_vec(num, q.negated().rotated_back(v), q.rotated_back(v)),
{
    lemma_negated_rotation(num, q, v);
    lemma_negated_rotation(num, q.conjugate(), v);
    assert(q.negated().conjugate() == q.conjugate().negated());
}

/// The opposite of a vector.
spec fn opposed<R: Scalar>(v: Vec3<R>) -> Vec3<R> {
    Vec3 { x: v.x.opposite(), y: v.y.opposite(), z: v.z.opposite() }
}

/// A quaternion and its negation rotate alike.
proof fn lemma_negated_rotation<R: Scalar>(num: spec_fn(R) -> R, q: Quat<R>, v: Vec3<R>)
    requires
        numeric(num),
    ensures
        same_vec(num, q.negated().rotated(v), q.rotated(v)),
{
    let (u, w) = (q.vector(), q.w);
    let c = u.crossed(v);
    let t = c.plus_scaled(w, v);
    let cn = opposed(u).crossed(v);
    let tn = cn.plus_scaled(w.opposite(), v);
    assert(q.negated().vector() == opposed(u));
    lemma_cross_opposed(num, u, v);
    lemma_scaled_opposed(num, cn, c, w, v);
    lemma_cross_alike(num, opposed(u), tn, opposed(t));
    lemma_cross_both_opposed(num, u, t);
    lemma_scaled_alike(num, v, R::literal(TWO), opposed(u).crossed(tn), u.crossed(t));
}

/// The difference of two products, in which the first factor of each is negated, is the
/// negated difference.
proof fn lemma_difference_opposed<R: Scalar>(num: spec_fn(R) -> R, a: R, b: R, c: R, d: R)
    requires
        numeric(num),
    ensures
        num(a.opposite().times(b).minus(c.opposite().times(d))) == num(
            a.times(b).minus(c.times(d)).opposite(),
        ),
{
    let (x, y) = (a.times(b), c.times(d));
    assert(num(a.opposite().times(b)) == num(x.opposite()));
    assert(num(c.opposite().times(d)) == num(y.opposite()));
    assert(num(x.opposite().minus(y.opposite())) == num(x.minus(y).opposite()));
}

/// Negating the first factor negates a cross product.
proof fn lemma_cross_opposed<R: Scalar>(num: spec_fn(R) -> R, u: Vec3<R>, v: Vec3<R>)
    requires
        numeric(num),
    ensures
        same_vec(num, opposed(u).crossed(v), opposed(u.crossed(v))),
{
    lemma_difference_opposed(num, u.y, v.z, u.z, v.y);
    lemma_difference_opposed(num, u.z, v.x, u.x, v.z);
    lemma_difference_opposed(num, u.x, v.y, u.y, v.x);
}

/// Negating both factors keeps a cross product.
proof fn lemma_cross_both_opposed<R: Scalar>(num: spec_fn(R) -> R, u: Vec3<R>, v: Vec3<R>)
    requires
        numeric(num),
    ensures
        same_vec(num, opposed(u).crossed(opposed(v)), u.crossed(v)),
{
    lemma_times_both_opposed(num, u.y, v.z);
    lemma_times_both_opposed(num, u.z, v.y);
    lemma_times_both_opposed(num, u.z, v.x);
    lemma_times_both_opposed(num, u.x, v.z);
    lemma_times_both_opposed(num, u.x, v.y);
    lemma_times_both_opposed(num, u.y, v.x);
}

/// Negating both factors keeps a product.
proof fn lemma_times_both_opposed<R: Scalar>(num: spec_fn(R) -> R, a: R, b: R)
    requires
        numeric(num),
    ensures
        num(a.opposite().times(b.opposite())) == num(a.times(b)),
{
    let x = a.times(b);
    assert(num(a.times(b.opposite())) == num(x.opposite()));
    assert(num(a.opposite().times(b.opposite())) == num(a.times(b.opposite()).opposite()));
    assert(num(a.times(b.opposite()).opposite()) == num(x.opposite().opposite()));
}

/// Cross products with vectors that are read alike are read alike.
proof fn lemma_cross_alike<R: Scalar>(num: spec_fn(R) -> R, u: Vec3<R>, a: Vec3<R>, b: Vec3<R>)
    requires
        numeric(num),
        same_vec(num, a, b),
    ensures
        same_vec(num, u.crossed(a), u.crossed(b)),
{
}

/// Adding multiples of vectors that are read alike.
proof fn lemma_scaled_alike<R: Scalar>(
    num: spec_fn(R) -> R,
    v: Vec3<R>,
    s: R,
    a: Vec3<R>,
    b: Vec3<R>,
)
    requires
        numeric(num),
        same_vec(num, a, b),
    ensures
        same_vec(num, v.plus_scaled(s, a), v.plus_scaled(s, b)),
{
}

/// Adding a negated multiple to a negated vector gives the negated sum.
proof fn lemma_scaled_opposed<R: Scalar>(
    num: spec_fn(R) -> R,
    cn: Vec3<R>,
    c: Vec3<R>,
    w: R,
    v: Vec3<R>,
)
    requires
        numeric(num),
        same_vec(num, cn, opposed(c)),
    ensures
        same_vec(num, cn.plus_scaled(w.opposite(), v), opposed(c.plus_scaled(w, v))),
{
    assert(num(w.opposite().times(v.x)) == num(w.times(v.x).opposite()));
    assert(num(w.opposite().times(v.y)) == num(w.times(v.y).opposite()));
    assert(num(w.opposite().times(v.z)) == num(w.times(v.z).opposite()));
    assert(num(c.x.opposite().plus(w.times(v.x).opposite())) == num(
        c.x.plus(w.times(v.x)).opposite(),
    ));
    assert(num(c.y.opposite().plus(w.times(v.y).opposite())) == num(
        c.y.plus(w.times(v.y)).opposite(),
    ));
    assert(num(c.z.opposite().plus(w.times(v.z).opposite())) == num(
        c.z.plus(w.times(v.z)).opposite(),
    ));
}

/// Rotation by the identity quaternion leaves a finite vector as it is.
pub proof fn law_identity_leaves_vector<R: Scalar>(num: spec_fn(R) -> R, v: Vec3<R>)
    requires
        numeric(num),
        finite_vec(num, v),
    ensures
        same_vec(num, Quat::identity().rotated(v), v),
{
    let q = Quat::<R>::identity();
    let u = q.vector();
    let null = Vec3::<R>::null();
    let c = u.crossed(v);
    assert(same_vec(num, c, null));
    let t = c.plus_scaled(q.w, v);
    assert(num(q.w.times(v.x)) == num(v.x) && num(q.w.times(v.y)) == num(v.y) && num(
        q.w.times(v.z),
    ) == num(v.z));
    assert(num(zero::<R>().plus(v.x)) == num(v.x) && num(zero::<R>().plus(v.y)) == num(v.y) && num(
        zero::<R>().plus(v.z),
    ) == num(v.z));
    assert(same_vec(num, t, v));
    lemma_cross_alike(num, u, t, v);
    assert(same_vec(num, u.crossed(t), null));
    lemma_scaled_alike(num, v, R::literal(TWO), u.crossed(t), null);
    assert(num(v.x.plus(zero())) == num(v.x) && num(v.y.plus(zero())) == num(v.y) && num(
        v.z.plus(zero()),
    ) == num(v.z));
}

/// A finite quaternion rotates the null vector to the null vector.
pub proof fn law_null_vector_stays_null<R: Scalar>(num: spec_fn(R) -> R, q: Quat<R>)
    requires
        numeric(num),
        finite_quat(num, q),
    ensures
        same_vec(num, q.rotated(Vec3::null()), Vec3::null()),
        same_vec(num, q.rotated_back(Vec3::null()), Vec3::null()),
{
    lemma_null_rotated(num, q);
    let c = q.conjugate();
    lemma_zero_absorbs_opposite(num, q.x);
    lemma_zero_absorbs_opposite(num, q.y);
    lemma_zero_absorbs_opposite(num, q.z);
    lemma_null_rotated(num, c);
}

/// What zero absorbs, it absorbs negated.
proof fn lemma_zero_absorbs_opposite<R: Scalar>(num: spec_fn(R) -> R, a: R)
    requires
        numeric(num),
        zero_absorbs(num, a),
    ensures
        zero_absorbs(num, a.opposite()),
{
    let z = zero::<R>();
    assert(num(a.opposite().times(z)) == num(a.times(z).opposite()));
    assert(num(z.times(a.opposite())) == num(z.times(a).opposite()));
    assert(num(z.opposite()) == num(num(z).opposite()));
}

/// A finite quaternion rotates the null vector to the null vector.
proof fn lemma_null_rotated<R: Scalar>(num: spec_fn(R) -> R, q: Quat<R>)
    requires
        numeric(num),
        finite_quat(num, q),
    ensures
        same_vec(num, q.rotated(Vec3::null()), Vec3::null()),
{
    let u = q.vector();
    let null = Vec3::<R>::null();
    let z = zero::<R>();
    let c = u.crossed(null);
    assert(same_vec(num, c, null));
    let t = c.plus_scaled(q.w, null);
    assert(num(z.plus(z)) == num(z));
    assert(same_vec(num, t, null));
    lemma_cross_alike(num, u, t, null);
    lemma_scaled_alike(num, null, R::literal(TWO), u.crossed(t), null);
}

/// Negating the second factor negates a product.
proof fn lemma_product_negated<R: Scalar>(num: spec_fn(R) -> R, a: Quat<R>, b: Quat<R>)
    requires
        numeric(num),
    ensures
        same_quat(num, a.product(b.negated()), a.product(b).negated()),
{
    let n = b.negated();
    lemma_sum_negated(num, a.w.times(b.x), a.x.times(b.w), a.y.times(b.z), a.z.times(b.y));
    lemma_sum_negated(num, a.w.times(b.y), a.x.times(b.z), a.y.times(b.w), a.z.times(b.x));
    lemma_sum_negated(num, a.w.times(b.z), a.x.times(b.y), a.y.times(b.x), a.z.times(b.w));
    lemma_sum_negated(num, a.w.times(b.w), a.x.times(b.x), a.y.times(b.y), a.z.times(b.z));
    lemma_row_negated(num, a.w, b);
    lemma_row_negated(num, a.x, b);
    lemma_row_negated(num, a.y, b);
    lemma_row_negated(num, a.z, b);
    assert(num(a.product(n).x) == num(a.product(b).x.opposite()));
    assert(num(a.product(n).y) == num(a.product(b).y.opposite()));
    assert(num(a.product(n).z) == num(a.product(b).z.opposite()));
    assert(num(a.product(n).w) == num(a.product(b).w.opposite()));
}

/// The products of a number with a negated quaternion are the negated products.
proof fn lemma_row_negated<R: Scalar>(num: spec_fn(R) -> R, p: R, b: Quat<R>)
    requires
        numeric(num),
    ensures
        num(p.times(b.x.opposite())) == num(p.times(b.x).opposite()),
        num(p.times(b.y.opposite())) == num(p.times(b.y).opposite()),
        num(p.times(b.z.opposite())) == num(p.times(b.z).opposite()),
        num(p.times(b.w.opposite())) == num(p.times(b.w).opposite()),
{
}

/// The sums of four negated numbers, in the sign patterns of a product of quaternions, are
/// the negated sums.
proof fn lemma_sum_negated<R: Scalar>(num: spec_fn(R) -> R, a: R, b: R, c: R, d: R)
    requires
        numeric(num),
    ensures
        ({
            let (p, q, r, s) = (a.opposite(), b.opposite(), c.opposite(), d.opposite());
            &&& num(p.plus(q).plus(r).minus(s)) == num(a.plus(b).plus(c).minus(d).opposite())
            &&& num(p.minus(q).plus(r).plus(s)) == num(a.minus(b).plus(c).plus(d).opposite())
            &&& num(p.plus(q).minus(r).plus(s)) == num(a.plus(b).minus(c).plus(d).opposite())
            &&& num(p.minus(q).minus(r).minus(s)) == num(
                a.minus(b).minus(c).minus(d).opposite(),
            )
        }),
{
    let (p, q, r, s) = (a.opposite(), b.opposite(), c.opposite(), d.opposite());
    let (ab, ba) = (a.plus(b), a.minus(b));
    assert(num(p.plus(q)) == num(ab.opposite()));
    assert(num(p.minus(q)) == num(ba.opposite()));
    assert(num(ab.opposite().plus(r)) == num(ab.plus(c).opposite()));
    assert(num(ab.opposite().minus(r)) == num(ab.minus(c).opposite()));
    assert(num(ba.opposite().plus(r)) == num(ba.plus(c).opposite()));
    assert(num(ba.opposite().minus(r)) == num(ba.minus(c).opposite()));
    assert(num(p.plus(q).plus(r)) == num(ab.plus(c).opposite()));
    assert(num(p.plus(q).minus(r)) == num(ab.minus(c).opposite()));
    assert(num(p.minus(q).plus(r)) == num(ba.plus(c).opposite()));
    assert(num(p.minus(q).minus(r)) == num(ba.minus(c).opposite()));
    assert(num(ab.plus(c).opposite().minus(s)) == num(ab.plus(c).minus(d).opposite()));
    assert(num(ba.plus(c).opposite().plus(s)) == num(ba.plus(c).plus(d).opposite()));
    assert(num(ab.minus(c).opposite().plus(s)) == num(ab.minus(c).plus(d).opposite()));
    assert(num(ba.minus(c).opposite().minus(s)) == num(ba.minus(c).minus(d).opposite()));
}

/// The motion of the base does not change when the previous rotation of the base is given
/// by the negated quaternion: the sign of the relative rotation is chosen so that the
/// angular velocity takes the short way round. The scalar part of the relative rotation
/// must not be zero, so that exactly one of it and its negation is at least zero.
pub proof fn law_negated_previous_rotation<R: Scalar>(
    num: spec_fn(R) -> R,
    poses: Seq<R>,
    prev: Seq<R>,
    prev2: Seq<R>,
    e: int,
    torso: int,
    cpb: int,
    has_prev: bool,
    dt: R,
)
    requires
        numeric(num),
        rot_at(prev2, e, torso, cpb) == rot_at(prev, e, torso, cpb).negated(),
        trans_at(prev2, e, torso, cpb) == trans_at(prev, e, torso, cpb),
        ({
            let dq = rot_at(poses, e, torso, cpb).product(
                rot_at(prev, e, torso, cpb).conjugate(),
            );
            R::literal(ZERO).at_most(dq.w) != R::literal(ZERO).at_most(dq.w.opposite())
        }),
    ensures
        ({
            let a = BaseMotion::observed(poses, prev, e, torso, cpb, has_prev, dt);
            let b = BaseMotion::observed(poses, prev2, e, torso, cpb, has_prev, dt);
            &&& b.rot == a.rot
            &&& b.pos == a.pos
            &&& b.lin == a.lin
            &&& same_vec(num, b.ang, a.ang)
            &&& same_vec(num, b.body_ang(), a.body_ang())
        }),
{
    let r = rot_at(poses, e, torso, cpb);
    let p = rot_at(prev, e, torso, cpb);
    let a = BaseMotion::observed(poses, prev, e, torso, cpb, has_prev, dt);
    let b = BaseMotion::observed(poses, prev2, e, torso, cpb, has_prev, dt);
    assert(p.negated().conjugate() == p.conjugate().negated());
    let dq = r.product(p.conjugate());
    let dn = r.product(p.negated().conjugate());
    lemma_product_negated(num, r, p.conjugate());
    let z = R::literal(ZERO);
    assert(z.at_most(dn.w) == z.at_most(num(dn.w)));
    assert(z.at_most(dq.w.opposite()) == z.at_most(num(dq.w.opposite())));
    let (two, one, minus) = (R::literal(TWO), R::literal(ONE), R::literal(MINUS_ONE));
    let (k, m) = (two.times(one), two.times(minus));
    assert(num(two.times(one.opposite())) == num(k.opposite()));
    assert(num(m) == num(k.opposite()));
    assert(num(k) == num(m.opposite())) by {
        assert(num(k.opposite().opposite()) == num(k));
        assert(num(k.opposite().opposite()) == num(num(k.opposite()).opposite()));
        assert(num(m.opposite()) == num(num(m).opposite()));
    }
    lemma_rate_opposed(num, k, m, dq.x, dn.x, dt);
    lemma_rate_opposed(num, k, m, dq.y, dn.y, dt);
    lemma_rate_opposed(num, k, m, dq.z, dn.z, dt);
    assert(same_vec(num, b.ang, a.ang));
    let c = r.conjugate();
    lemma_rotated_alike(num, c, b.ang, a.ang);
}

/// Negating both the factor and the number keeps a scaled rate.
proof fn lemma_rate_opposed<R: Scalar>(num: spec_fn(R) -> R, k: R, m: R, x: R, y: R, dt: R)
    requires
        numeric(num),
        num(m) == num(k.opposite()),
        num(k) == num(m.opposite()),
        num(y) == num(x.opposite()),
    ensures
        num(m.times(y).over(dt)) == num(k.times(x).over(dt)),
        num(k.times(y).over(dt)) == num(m.times(x).over(dt)),
{
    lemma_times_both_opposed(num, k, x);
    lemma_times_both_opposed(num, m, x);
    assert(num(m.times(y)) == num(k.opposite().times(x.opposite())));
    assert(num(k.times(y)) == num(m.opposite().times(x.opposite())));
}

/// Rotations of vectors that are read alike are read alike.
proof fn lemma_rotated_alike<R: Scalar>(
    num: spec_fn(R) -> R,
    q: Quat<R>,
    a: Vec3<R>,
    b: Vec3<R>,
)
    requires
        numeric(num),
        same_vec(num, a, b),
    ensures
        same_vec(num, q.rotated(a), q.rotated(b)),
{
    let u = q.vector();
    lemma_cross_alike(num, u, a, b);
    let (s, t) = (u.crossed(a).plus_scaled(q.w, a), u.crossed(b).plus_scaled(q.w, b));
    assert(same_vec(num, s, t));
    lemma_cross_alike(num, u, s, t);
}

} // verus!
