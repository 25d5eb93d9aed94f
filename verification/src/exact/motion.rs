//! What poses mean: rotations, base motion, joint angles and observations in real numbers.

use crate::exact::{
    conj, divides_exactly, hamilton, lemma_associative, lemma_constant, lemma_minus, lemma_norm,
    lemma_one, lemma_read_product, lemma_read_rotated, lemma_read_unit, lemma_spread, lemma_spread3,
    lemma_turn, read_quat, read_vec, reads_exactly, turned,
};
use crate::geometry::{hinge_angle, rot_at, trans_at, BaseMotion, Quat, Vec3};
use crate::obs::ObsInputs;
use crate::reward::RewardInputs;
use crate::scalar::{zero, Scalar, MINUS_ONE, ONE, TWO};
use vstd::prelude::*;

verus! {

/// Entry `(i, j)` of the rotation matrix of a quaternion `x·i + y·j + z·k + w`.
pub open spec fn matrix(q: Quat<real>, i: int, j: int) -> real {
    if i == 0 && j == 0 {
        1real - 2real * (q.y * q.y + q.z * q.z)
    } else if i == 0 && j == 1 {
        2real * (q.x * q.y - q.z * q.w)
    } else if i == 0 {
        2real * (q.x * q.z + q.y * q.w)
    } else if i == 1 && j == 0 {
        2real * (q.x * q.y + q.z * q.w)
    } else if i == 1 && j == 1 {
        1real - 2real * (q.x * q.x + q.z * q.z)
    } else if i == 1 {
        2real * (q.y * q.z - q.x * q.w)
    } else if j == 0 {
        2real * (q.x * q.z - q.y * q.w)
    } else if j == 1 {
        2real * (q.y * q.z + q.x * q.w)
    } else {
        1real - 2real * (q.x * q.x + q.y * q.y)
    }
}

/// Twice a sum of two products, times a number.
proof fn lemma_twice_sum(a: real, b: real, c: real, d: real, v: real)
    ensures
        (2real * (a * b + c * d)) * v == 2real * (a * (b * v)) + 2real * (c * (d * v)),
        (2real * (a * b - c * d)) * v == 2real * (a * (b * v)) - 2real * (c * (d * v)),
        (1real - 2real * (a * b + c * d)) * v == v - 2real * (a * (b * v)) - 2real * (c * (d
            * v)),
{
    let (s, t) = (a * b + c * d, a * b - c * d);
    lemma_spread(v, a * b, c * d);
    lemma_turn(v, a, b);
    lemma_turn(v, c, d);
    lemma_spread(v, s, s);
    lemma_spread(v, t, t);
    lemma_spread(v, 1real, s + s);
    lemma_constant(v);
    lemma_turn(v, s + s, v);
    lemma_turn(v, t + t, v);
    lemma_turn(v, 1real - (s + s), v);
    assert(2real * s == s + s);
    assert(2real * t == t + t);
}

/// Rotation in real numbers is multiplication by the matrix.
proof fn lemma_turned_by_matrix(q: Quat<real>, v: Vec3<real>)
    ensures
        ({
            let r = turned(q, v);
            &&& r.x == matrix(q, 0, 0) * v.x + matrix(q, 0, 1) * v.y + matrix(q, 0, 2) * v.z
            &&& r.y == matrix(q, 1, 0) * v.x + matrix(q, 1, 1) * v.y + matrix(q, 1, 2) * v.z
            &&& r.z == matrix(q, 2, 0) * v.x + matrix(q, 2, 1) * v.y + matrix(q, 2, 2) * v.z
        }),
{
    lemma_spread3(q.x, q.x * v.y, q.y * v.x, q.w * v.z);
    lemma_spread3(q.y, q.x * v.y, q.y * v.x, q.w * v.z);
    lemma_spread3(q.y, q.y * v.z, q.z * v.y, q.w * v.x);
    lemma_spread3(q.z, q.y * v.z, q.z * v.y, q.w * v.x);
    lemma_spread3(q.x, q.z * v.x, q.x * v.z, q.w * v.y);
    lemma_spread3(q.z, q.z * v.x, q.x * v.z, q.w * v.y);
    lemma_twice_sum(q.y, q.y, q.z, q.z, v.x);
    lemma_twice_sum(q.x, q.x, q.z, q.z, v.y);
    lemma_twice_sum(q.x, q.x, q.y, q.y, v.z);
    // Off the diagonal, with the factors in the order that the rotation has them.
    lemma_twice_sum(q.y, q.x, q.z, q.w, v.y);
    lemma_twice_sum(q.z, q.x, q.y, q.w, v.z);
    lemma_twice_sum(q.x, q.y, q.z, q.w, v.x);
    lemma_twice_sum(q.z, q.y, q.x, q.w, v.z);
    lemma_twice_sum(q.x, q.z, q.y, q.w, v.x);
    lemma_twice_sum(q.y, q.z, q.x, q.w, v.y);
    lemma_turn(q.x, q.y, v.x);
    lemma_turn(q.x, q.z, v.x);
    lemma_turn(q.y, q.z, v.x);
}

/// Transposing the matrix conjugates the quaternion.
proof fn lemma_matrix_transposed(q: Quat<real>, i: int, j: int)
    requires
        0 <= i < 3,
        0 <= j < 3,
    ensures
        matrix(conj(q), i, j) == matrix(q, j, i),
{
    lemma_minus(q.x, q.y);
    lemma_minus(q.x, q.z);
    lemma_minus(q.y, q.z);
    lemma_minus(q.x, q.x);
    lemma_minus(q.y, q.y);
    lemma_minus(q.z, q.z);
    lemma_minus(q.x, q.w);
    lemma_minus(q.y, q.w);
    lemma_minus(q.z, q.w);
}

/// A rotation, of unit norm or not, multiplies by the matrix of its quaternion, and the
/// inverse rotation by the transposed matrix. In exact arithmetic.
pub proof fn law_rotation_matrix<R: Scalar>(
    val: spec_fn(R) -> real,
    q: Quat<R>,
    v: Vec3<R>,
    i: int,
)
    requires
        reads_exactly(val),
        0 <= i < 3,
    ensures
        ({
            let rq = read_quat(val, q);
            let (x, y, z) = (val(v.x), val(v.y), val(v.z));
            &&& val(q.rotated(v).along(i)) == matrix(rq, i, 0) * x + matrix(rq, i, 1) * y + matrix(
                rq,
                i,
                2,
            ) * z
            &&& val(q.rotated_back(v).along(i)) == matrix(rq, 0, i) * x + matrix(rq, 1, i) * y
                + matrix(rq, 2, i) * z
        }),
{
    let rq = read_quat(val, q);
    let rv = read_vec(val, v);
    lemma_read_rotated(val, q, v);
    lemma_turned_by_matrix(rq, rv);
    assert(read_quat(val, q.conjugate()) == conj(rq));
    lemma_read_rotated(val, q.conjugate(), v);
    lemma_turned_by_matrix(conj(rq), rv);
    lemma_matrix_transposed(rq, i, 0);
    lemma_matrix_transposed(rq, i, 1);
    lemma_matrix_transposed(rq, i, 2);
}

/// Conjugation negates the vector part, and the product of quaternions is
/// `(w·b + v·a + a×b, w·v - a·b)` for `(a, w)` and `(b, v)`. In exact arithmetic.
pub proof fn law_quaternion_algebra<R: Scalar>(val: spec_fn(R) -> real, p: Quat<R>, q: Quat<R>)
    requires
        reads_exactly(val),
    ensures
        ({
            let (a, b) = (read_quat(val, p), read_quat(val, q));
            let r = p.product(q);
            &&& val(p.conjugate().x) == 0real - a.x
            &&& val(p.conjugate().y) == 0real - a.y
            &&& val(p.conjugate().z) == 0real - a.z
            &&& val(p.conjugate().w) == a.w
            &&& val(r.x) == a.w * b.x + b.w * a.x + (a.y * b.z - a.z * b.y)
            &&& val(r.y) == a.w * b.y + b.w * a.y + (a.z * b.x - a.x * b.z)
            &&& val(r.z) == a.w * b.z + b.w * a.z + (a.x * b.y - a.y * b.x)
            &&& val(r.w) == a.w * b.w - (a.x * b.x + a.y * b.y + a.z * b.z)
        }),
{
    let (a, b) = (read_quat(val, p), read_quat(val, q));
    lemma_turn(a.x, b.w, 0real);
    lemma_turn(a.y, b.w, 0real);
    lemma_turn(a.z, b.w, 0real);
}

/// Axes are told apart: a vector along one axis has nothing along another, and the components
/// of a vector in order are those along the axes.
pub proof fn law_axes<R: Scalar>(v: Vec3<R>, value: R, i: int, j: int)
    requires
        0 <= i < 3,
        0 <= j < 3,
    ensures
        Vec3::only(i, value).along(j) == (if i == j {
            value
        } else {
            zero()
        }),
        v.components() == seq![v.along(0), v.along(1), v.along(2)],
        v.along(0) == v.x && v.along(1) == v.y && v.along(2) == v.z,
{
}

/// A pose is eight numbers: rotation `(x, y, z, w)`, translation `(x, y, z)` and padding. Pose
/// `link` of environment `e` is number `e·cpb + link`.
pub proof fn law_pose_layout<R: Scalar>(poses: Seq<R>, e: int, link: int, cpb: int)
    ensures
        ({
            let b = (e * cpb + link) * 8;
            &&& rot_at(poses, e, link, cpb) == (Quat {
                x: poses[b],
                y: poses[b + 1],
                z: poses[b + 2],
                w: poses[b + 3],
            })
            &&& trans_at(poses, e, link, cpb) == (Vec3 {
                x: poses[b + 4],
                y: poses[b + 5],
                z: poses[b + 6],
            })
        }),
{
}

/// The angle of a joint is twice the angle of the point `(rel.w, rel.z)`, where `rel` takes the
/// rest pose to the pose of the child as the parent sees it: `rel = rest*·parent*·child`. In
/// exact arithmetic, for quaternions of any norm.
pub proof fn law_hinge_angle<R: Scalar>(
    val: spec_fn(R) -> real,
    poses: Seq<R>,
    e: int,
    cpb: int,
    parent: int,
    child: int,
    rest: Quat<R>,
    z: R,
    w: R,
)
    requires
        reads_exactly(val),
        ({
            let p = read_quat(val, rot_at(poses, e, parent, cpb));
            let c = read_quat(val, rot_at(poses, e, child, cpb));
            let rel = hamilton(hamilton(conj(read_quat(val, rest)), conj(p)), c);
            val(z) == rel.z && val(w) == rel.w
        }),
    ensures
        hinge_angle(poses, e, cpb, parent, child, rest) == R::literal(TWO).times(z.angle(w)),
{
    let p = rot_at(poses, e, parent, cpb);
    let c = rot_at(poses, e, child, cpb);
    let inv = rest.conjugate().product(p.conjugate());
    let rel = inv.product(c);
    lemma_read_product(val, rest.conjugate(), p.conjugate());
    lemma_read_product(val, inv, c);
    assert(read_quat(val, p.conjugate()) == conj(read_quat(val, p)));
    assert(read_quat(val, rest.conjugate()) == conj(read_quat(val, rest)));
    assert(val(rel.z) == val(z) && val(rel.w) == val(w));
}

/// Where the base is, read off its own pose; without a previous pose it does not move.
pub proof fn law_base_pose<R: Scalar>(
    poses: Seq<R>,
    prev: Seq<R>,
    e: int,
    torso: int,
    cpb: int,
    has_prev: bool,
    dt: R,
)
    ensures
        ({
            let m = BaseMotion::observed(poses, prev, e, torso, cpb, has_prev, dt);
            let b = (e * cpb + torso) * 8;
            &&& m.rot == (Quat {
                x: poses[b],
                y: poses[b + 1],
                z: poses[b + 2],
                w: poses[b + 3],
            })
            &&& m.pos == (Vec3 { x: poses[b + 4], y: poses[b + 5], z: poses[b + 6] })
            &&& !has_prev ==> m.lin == (Vec3 { x: zero::<R>(), y: zero(), z: zero() })
            &&& !has_prev ==> m.ang == (Vec3 { x: zero::<R>(), y: zero(), z: zero() })
        }),
{
}

/// The linear velocity of the base is its displacement over the timestep: along each axis it is
/// `d / dt` for the number `d` that reads as the difference of the two positions. In exact
/// arithmetic velocity times timestep is the displacement.
pub proof fn law_linear_velocity<R: Scalar>(
    val: spec_fn(R) -> real,
    poses: Seq<R>,
    prev: Seq<R>,
    e: int,
    torso: int,
    cpb: int,
    dt: R,
    i: int,
    d: R,
)
    requires
        reads_exactly(val),
        0 <= i < 3,
        ({
            let k = (e * cpb + torso) * 8 + 4 + i;
            val(d) == val(poses[k]) - val(prev[k])
        }),
    ensures
        ({
            let m = BaseMotion::observed(poses, prev, e, torso, cpb, true, dt);
            &&& m.lin.along(i) == d.over(dt)
            &&& divides_exactly(val) && val(dt) != 0real ==> val(m.lin.along(i)) * val(dt) == val(d)
        }),
{
    let (t, pt) = (trans_at(poses, e, torso, cpb), trans_at(prev, e, torso, cpb));
    assert(val(t.along(i).minus(pt.along(i))) == val(d));
}

/// A base that turned by the quaternion `delta` in one timestep, that is whose rotation is
/// `delta·before` for a unit quaternion `before`, has the angular velocity `2·delta.xyz / dt`,
/// or `-2·delta.xyz / dt` where `delta.w` is negative, so that it takes the short way round. In
/// exact arithmetic, for every timestep.
pub proof fn law_angular_velocity<R: Scalar>(
    val: spec_fn(R) -> real,
    poses: Seq<R>,
    prev: Seq<R>,
    e: int,
    torso: int,
    cpb: int,
    dt: R,
    delta: Quat<R>,
    i: int,
    d: R,
)
    requires
        reads_exactly(val),
        val(R::literal(MINUS_ONE)) == 0real - 1real,
        0 <= i < 3,
        rot_at(prev, e, torso, cpb).is_unit(),
        rot_at(poses, e, torso, cpb) == delta.product(rot_at(prev, e, torso, cpb)),
        val(d) == (if zero::<R>().at_most(delta.w) {
            2real * val(delta.vector().along(i))
        } else {
            0real - 2real * val(delta.vector().along(i))
        }),
    ensures
        ({
            let m = BaseMotion::observed(poses, prev, e, torso, cpb, true, dt);
            &&& m.ang.along(i) == d.over(dt)
            &&& divides_exactly(val) && val(dt) != 0real ==> val(m.ang.along(i)) * val(dt) == val(d)
        }),
{
    let p = rot_at(prev, e, torso, cpb);
    let r = rot_at(poses, e, torso, cpb);
    let dq = r.product(p.conjugate());
    let (rd, rp) = (read_quat(val, delta), read_quat(val, p));
    lemma_read_unit(val, p);
    lemma_read_product(val, delta, p);
    lemma_read_product(val, r, p.conjugate());
    assert(read_quat(val, p.conjugate()) == conj(rp));
    lemma_associative(rd, rp, conj(rp));
    lemma_norm(rp);
    lemma_one(rd);
    assert(read_quat(val, dq) == rd);
    assert(val(dq.x) == val(delta.x) && val(dq.y) == val(delta.y) && val(dq.z) == val(delta.z)
        && val(dq.w) == val(delta.w));
    assert(dq == delta);
    law_relative_rotation_rate(val, poses, prev, e, torso, cpb, dt, i, d);
}

/// The angular velocity is the signed vector part of `rot·before*`, doubled, over the timestep,
/// for quaternions of any norm. In exact arithmetic.
pub proof fn law_relative_rotation_rate<R: Scalar>(
    val: spec_fn(R) -> real,
    poses: Seq<R>,
    prev: Seq<R>,
    e: int,
    torso: int,
    cpb: int,
    dt: R,
    i: int,
    d: R,
)
    requires
        reads_exactly(val),
        val(R::literal(MINUS_ONE)) == 0real - 1real,
        0 <= i < 3,
        ({
            let dq = rot_at(poses, e, torso, cpb).product(
                rot_at(prev, e, torso, cpb).conjugate(),
            );
            val(d) == (if zero::<R>().at_most(dq.w) {
                2real * val(dq.vector().along(i))
            } else {
                0real - 2real * val(dq.vector().along(i))
            })
        }),
    ensures
        BaseMotion::observed(poses, prev, e, torso, cpb, true, dt).ang.along(i) == d.over(dt),
{
    let dq = rot_at(poses, e, torso, cpb).product(rot_at(prev, e, torso, cpb).conjugate());
    let c = dq.vector().along(i);
    let (two, one, minus) = (R::literal(TWO), R::literal(ONE), R::literal(MINUS_ONE));
    let (k, m) = (two.times(one), two.times(minus));
    lemma_constant(2real);
    lemma_minus(2real, 1real);
    lemma_minus(2real, val(c));
    assert(val(k) == 2real);
    assert(val(m) == 0real - 2real);
    assert(val(k.times(c)) == 2real * val(c));
    assert(val(m.times(c)) == 0real - 2real * val(c));
    if zero::<R>().at_most(dq.w) {
        assert(val(k.times(c)) == val(d));
    } else {
        assert(val(m.times(c)) == val(d));
    }
}

/// The same turn in another time: two observations of the same pair of poses with timesteps
/// `dt` and `dt2` have velocities that, times their timesteps, are equal. In exact arithmetic.
pub proof fn law_velocity_times_timestep<R: Scalar>(
    val: spec_fn(R) -> real,
    poses: Seq<R>,
    prev: Seq<R>,
    e: int,
    torso: int,
    cpb: int,
    dt: R,
    dt2: R,
    i: int,
)
    requires
        reads_exactly(val),
        divides_exactly(val),
        val(dt) != 0real,
        val(dt2) != 0real,
        0 <= i < 3,
    ensures
        ({
            let a = BaseMotion::observed(poses, prev, e, torso, cpb, true, dt);
            let b = BaseMotion::observed(poses, prev, e, torso, cpb, true, dt2);
            &&& val(a.lin.along(i)) * val(dt) == val(b.lin.along(i)) * val(dt2)
            &&& val(a.ang.along(i)) * val(dt) == val(b.ang.along(i)) * val(dt2)
        }),
{
}

/// Velocities and gravity in the body frame are the world's, turned back by the rotation of the
/// base: along body axis `i` the sum over the world axes of the matrix column `i`. Gravity
/// points down the axis `up`. In exact arithmetic.
pub proof fn law_body_frame<R: Scalar>(
    val: spec_fn(R) -> real,
    m: BaseMotion<R>,
    up: int,
    i: int,
)
    requires
        reads_exactly(val),
        val(R::literal(MINUS_ONE)) == 0real - 1real,
        0 <= i < 3,
        0 <= up < 3,
    ensures
        ({
            let q = read_quat(val, m.rot);
            &&& val(m.body_lin().along(i)) == matrix(q, 0, i) * val(m.lin.x) + matrix(q, 1, i)
                * val(m.lin.y) + matrix(q, 2, i) * val(m.lin.z)
            &&& val(m.body_ang().along(i)) == matrix(q, 0, i) * val(m.ang.x) + matrix(q, 1, i)
                * val(m.ang.y) + matrix(q, 2, i) * val(m.ang.z)
            &&& val(m.body_gravity(up).along(i)) == 0real - matrix(q, up, i)
        }),
{
    let q = read_quat(val, m.rot);
    law_rotation_matrix(val, m.rot, m.lin, i);
    law_rotation_matrix(val, m.rot, m.ang, i);
    let down = Vec3::only(up, R::literal(MINUS_ONE));
    law_rotation_matrix(val, m.rot, down, i);
    lemma_constant(matrix(q, 0, i));
    lemma_constant(matrix(q, 1, i));
    lemma_constant(matrix(q, 2, i));
    lemma_minus(matrix(q, 0, i), 1real);
    lemma_minus(matrix(q, 1, i), 1real);
    lemma_minus(matrix(q, 2, i), 1real);
}

/// The rows of an observation, read off the input buffers: last action, command and a zero as
/// they are, joint angles less their defaults, and what the base says.
pub proof fn law_observation_of_inputs<R: Scalar>(
    inputs: ObsInputs<R>,
    e: int,
    k: int,
    c: int,
    i: int,
)
    requires
        0 <= c < 3,
        0 <= i < 3,
    ensures
        ({
            let p = inputs.params;
            let (n, j) = (p.num_envs as int, p.num_joints as int);
            let cpb = p.colliders_per_batch as int;
            let cfg = inputs.joint_cfg@[k];
            let rest = Quat {
                x: cfg.rest_quat@[0],
                y: cfg.rest_quat@[1],
                z: cfg.rest_quat@[2],
                w: cfg.rest_quat@[3],
            };
            let angle = hinge_angle(
                inputs.poses@,
                e,
                cpb,
                cfg.parent_link as int,
                cfg.child_link as int,
                rest,
            );
            let base = BaseMotion::observed(
                inputs.poses@,
                inputs.prev_poses@,
                e,
                p.torso_link as int,
                cpb,
                inputs.flags@[e] & 1 != 0,
                p.control_dt,
            );
            let o = inputs.observation(e);
            &&& o.len() == 3 * j + 7
            &&& inputs.joint_pos(e).len() == j
            &&& 0 <= k < j ==> {
                &&& o[k] == inputs.last_action@[k * n + e]
                &&& o[j + 4 + k] == angle.minus(cfg.default_pos)
                &&& o[2 * j + 4 + k] == (if inputs.flags@[e] & 2 != 0 {
                    angle.minus(inputs.prev_joint_pos@[k * n + e]).over(p.control_dt)
                } else {
                    zero()
                })
                &&& inputs.joint_pos(e)[k] == angle
            }
            &&& o[j + c] == inputs.cmd@[c * n + e]
            &&& o[j + 3] == zero::<R>()
            &&& o[3 * j + 4 + i] == base.body_gravity(p.up as int).along(i)
        }),
{
}

/// The rows of a critic observation: the policy observation, what the policy buffer held below
/// it, and the base's velocities in the body frame.
pub proof fn law_critic_of_inputs<R: Scalar>(
    inputs: ObsInputs<R>,
    e: int,
    obs: Seq<R>,
    d: int,
    i: int,
)
    requires
        0 <= i < 3,
    ensures
        ({
            let p = inputs.params;
            let (n, od) = (p.num_envs as int, p.obs_dim as int);
            let base = BaseMotion::observed(
                inputs.poses@,
                inputs.prev_poses@,
                e,
                p.torso_link as int,
                p.colliders_per_batch as int,
                inputs.flags@[e] & 1 != 0,
                p.control_dt,
            );
            let o = inputs.critic_observation(e, obs);
            &&& o.len() == od + 6
            &&& 0 <= d < od ==> o[d] == (if d < 3 * p.num_joints + 7 {
                inputs.observation(e)[d]
            } else {
                obs[d * n + e]
            })
            &&& o[od + i] == base.body_lin().along(i)
            &&& o[od + 3 + i] == base.body_ang().along(i)
        }),
{
    let (v, w) = (inputs.base(e).body_lin(), inputs.base(e).body_ang());
    assert(v.components()[0] == v.x && v.components()[1] == v.y && v.components()[2] == v.z);
    assert(w.components()[0] == w.x && w.components()[1] == w.y && w.components()[2] == w.z);
}

/// The command that a reward tracks is the command that the observation shows: the three
/// numbers of the environment in the command buffer, as they are.
pub proof fn law_reward_tracks_observed_command<R: Scalar>(
    inputs: RewardInputs<R>,
    obs: ObsInputs<R>,
    e: int,
)
    requires
        inputs.cmd@ == obs.cmd@,
        inputs.params.num_envs == obs.params.num_envs,
    ensures
        ({
            let (n, j) = (obs.params.num_envs as int, obs.params.num_joints as int);
            &&& inputs.cmd_vx(e) == inputs.cmd@[e]
            &&& inputs.cmd_vy(e) == inputs.cmd@[n + e]
            &&& inputs.cmd_yaw(e) == inputs.cmd@[2 * n + e]
            &&& inputs.cmd_vx(e) == obs.observation(e)[j]
            &&& inputs.cmd_vy(e) == obs.observation(e)[j + 1]
            &&& inputs.cmd_yaw(e) == obs.observation(e)[j + 2]
        }),
{
}

} // verus!
