//! What the reward pays for, in real numbers.
//!
//! Each law reads the numbers of the input buffers as real numbers and says what a term, a sum
//! or a condition of the reward comes to. Where the reward applies a quotient, a root, an
//! exponential or an angle, the law takes the operand as a parameter and says how it reads: a
//! reading tells any two numbers apart, so there is only one such operand.

use crate::exact::motion::{law_rotation_matrix, matrix};
use crate::exact::{
    conj, hamilton, lemma_constant, lemma_minus, lemma_read_product, lemma_turn, read_quat,
    reads_exactly,
};
use crate::geometry::{hinge_angle, BaseMotion, Quat, Vec3};
use crate::reward::{sum_where, RewardInputs};
use crate::scalar::{one, square, two, zero, Scalar};
use vstd::prelude::*;

verus! {

/// What the reward reads of a joint, a foot, the command and the base, by its place in the
/// input buffers.
pub proof fn law_reward_of_inputs<R: Scalar>(inputs: RewardInputs<R>, e: int, k: int, i: int)
    requires
        inputs.params.up < 3,
    ensures
        ({
            let p = inputs.params;
            let (n, cpb) = (p.num_envs as int, p.colliders_per_batch as int);
            let cfg = inputs.joint_cfg@[k];
            let (parent, child) = (cfg.parent_link as int, cfg.child_link as int);
            let rest = Quat {
                x: cfg.rest_quat@[0],
                y: cfg.rest_quat@[1],
                z: cfg.rest_quat@[2],
                w: cfg.rest_quat@[3],
            };
            let link = if i == 0 {
                p.foot_link0 as int
            } else {
                p.foot_link1 as int
            };
            let (t, b) = ((e * cpb + p.torso_link) * 8, (e * cpb + link) * 8);
            &&& inputs.cmd_vx(e) == inputs.cmd@[e]
            &&& inputs.cmd_vy(e) == inputs.cmd@[n + e]
            &&& inputs.cmd_yaw(e) == inputs.cmd@[2 * n + e]
            &&& inputs.height(e) == inputs.poses@[t + 4 + p.up]
            &&& inputs.angle_of(e, k) == hinge_angle(inputs.poses@, e, cpb, parent, child, rest)
            &&& inputs.angle_in(inputs.prev_poses@, e, k) == hinge_angle(
                inputs.prev_poses@,
                e,
                cpb,
                parent,
                child,
                rest,
            )
            &&& inputs.foot_pos(e, i) == (Vec3 {
                x: inputs.poses@[b + 4],
                y: inputs.poses@[b + 5],
                z: inputs.poses@[b + 6],
            })
            &&& inputs.foot_rot(e, i) == (Quat {
                x: inputs.poses@[b],
                y: inputs.poses@[b + 1],
                z: inputs.poses@[b + 2],
                w: inputs.poses@[b + 3],
            })
            &&& inputs.contact(e, i) == inputs.poses@[b + 6].below(p.contact_z)
            &&& inputs.prev_air(e, i) == inputs.air_time_in@[i * n + e]
            &&& inputs.sole(e, i) == (Vec3 {
                x: inputs.sole_local@[3 * i * n + e],
                y: inputs.sole_local@[(3 * i + 1) * n + e],
                z: inputs.sole_local@[(3 * i + 2) * n + e],
            })
        }),
{
}

/// The motion of the base that the reward sees is taken over the given timestep, and exists
/// only where the first flag says that there are previous poses.
pub proof fn law_reward_base<R: Scalar>(inputs: RewardInputs<R>, e: int, axis: u32)
    ensures
        ({
            let p = inputs.params;
            let m = BaseMotion::observed(
                inputs.poses@,
                inputs.prev_poses@,
                e,
                p.torso_link as int,
                p.colliders_per_batch as int,
                inputs.flags@[e] & 1 != 0,
                p.control_dt,
            );
            &&& inputs.base(e) == m
            &&& inputs.lin(e, axis) == m.body_lin().along(axis as int)
            &&& inputs.ang(e, axis) == m.body_ang().along(axis as int)
            &&& inputs.grav(e, axis) == m.body_gravity(p.up as int).along(axis as int)
        }),
{
}

/// A command is to stand if its length `√(vx² + vy² + yaw²)` is below the standing speed. In
/// exact arithmetic.
pub proof fn law_standing_is_a_small_command<R: Scalar>(
    val: spec_fn(R) -> real,
    inputs: RewardInputs<R>,
    e: int,
    sq: R,
)
    requires
        reads_exactly(val),
        ({
            let n = inputs.params.num_envs as int;
            let x = val(inputs.cmd@[e]);
            let y = val(inputs.cmd@[n + e]);
            let yaw = val(inputs.cmd@[2 * n + e]);
            val(sq) == x * x + y * y + yaw * yaw
        }),
    ensures
        inputs.standing(e) == sq.root().below(inputs.params.standing_speed),
{
}

/// Tracking of a planar velocity pays `w·exp(-err / std²)·dt`, where `err` is the squared
/// distance between the commanded and the actual velocity in the plane, whatever the size of
/// the command. In exact arithmetic.
pub proof fn law_planar_tracking<R: Scalar>(
    val: spec_fn(R) -> real,
    inputs: RewardInputs<R>,
    e: int,
    minus_err: R,
    var: R,
)
    requires
        reads_exactly(val),
        ({
            let p = inputs.params;
            let v = inputs.base(e).body_lin();
            let dx = val(inputs.cmd@[e]) - val(v.along(p.fwd as int));
            let dy = val(inputs.cmd@[p.num_envs + e]) - val(v.along(p.lat as int));
            &&& val(minus_err) == 0real - (dx * dx + dy * dy)
            &&& val(var) == val(p.std_lin_vel) * val(p.std_lin_vel)
        }),
    ensures
        val(inputs.track_lin(e)) == val(inputs.params.w_track_lin) * val(
            minus_err.over(var).exponential(),
        ) * val(inputs.params.control_dt),
{
    let p = inputs.params;
    let v = inputs.base(e).body_lin();
    let dx = inputs.cmd@[e].minus(v.along(p.fwd as int));
    let dy = inputs.cmd@[p.num_envs + e].minus(v.along(p.lat as int));
    let err = dx.times(dx).plus(dy.times(dy));
    assert(val(err.opposite()) == val(minus_err));
    assert(val(p.std_lin_vel.times(p.std_lin_vel)) == val(var));
}

/// Tracking of a yaw rate pays `w·exp(-err / std²)·dt`, where `err` is the square of the
/// difference between the commanded and the actual rate. In exact arithmetic.
pub proof fn law_yaw_tracking<R: Scalar>(
    val: spec_fn(R) -> real,
    inputs: RewardInputs<R>,
    e: int,
    minus_err: R,
    var: R,
)
    requires
        reads_exactly(val),
        ({
            let p = inputs.params;
            let d = val(inputs.cmd@[2 * p.num_envs + e]) - val(
                inputs.base(e).body_ang().along(p.up as int),
            );
            &&& val(minus_err) == 0real - d * d
            &&& val(var) == val(p.std_ang_vel) * val(p.std_ang_vel)
        }),
    ensures
        val(inputs.track_ang(e)) == val(inputs.params.w_track_ang) * val(
            minus_err.over(var).exponential(),
        ) * val(inputs.params.control_dt),
{
    let p = inputs.params;
    let d = inputs.cmd@[2 * p.num_envs + e].minus(inputs.base(e).body_ang().along(p.up as int));
    assert(val(d.times(d).opposite()) == val(minus_err));
    assert(val(p.std_ang_vel.times(p.std_ang_vel)) == val(var));
}

/// An environment whose body velocity equals its command, however large, earns the whole of
/// the tracking terms: `w·e^0·dt`. In exact arithmetic, for scales whose square divides zero.
pub proof fn law_matched_command_earns_full_tracking<R: Scalar>(
    val: spec_fn(R) -> real,
    inputs: RewardInputs<R>,
    e: int,
)
    requires
        reads_exactly(val),
        ({
            let p = inputs.params;
            let m = inputs.base(e);
            let (sl, sa) = (p.std_lin_vel, p.std_ang_vel);
            &&& m.body_lin().along(p.fwd as int) == inputs.cmd@[e]
            &&& m.body_lin().along(p.lat as int) == inputs.cmd@[p.num_envs + e]
            &&& m.body_ang().along(p.up as int) == inputs.cmd@[2 * p.num_envs + e]
            &&& zero::<R>().over(sl.times(sl)) == zero::<R>()
            &&& zero::<R>().over(sa.times(sa)) == zero::<R>()
        }),
    ensures
        ({
            let p = inputs.params;
            let full = val(zero::<R>().exponential());
            &&& val(inputs.track_lin(e)) == val(p.w_track_lin) * full * val(p.control_dt)
            &&& val(inputs.track_ang(e)) == val(p.w_track_ang) * full * val(p.control_dt)
        }),
{
    let p = inputs.params;
    lemma_constant(0real);
    law_planar_tracking(val, inputs, e, zero(), p.std_lin_vel.times(p.std_lin_vel));
    law_yaw_tracking(val, inputs, e, zero(), p.std_ang_vel.times(p.std_ang_vel));
}

/// Uprightness pays `w·exp(-err / std²)·dt`, where `err` is the squared horizontal part of
/// gravity in the body frame, and the base height pays the same of the squared distance from
/// its target. In exact arithmetic.
pub proof fn law_posture_kernels<R: Scalar>(
    val: spec_fn(R) -> real,
    inputs: RewardInputs<R>,
    e: int,
    minus_tilt: R,
    tilt_var: R,
    minus_gap: R,
    gap_var: R,
)
    requires
        reads_exactly(val),
        inputs.params.up < 3,
        ({
            let p = inputs.params;
            let g = inputs.base(e).body_gravity(p.up as int);
            let (gx, gy) = (val(g.along(p.fwd as int)), val(g.along(p.lat as int)));
            let t = (e * p.colliders_per_batch + p.torso_link) * 8;
            let h = val(inputs.poses@[t + 4 + p.up]) - val(p.base_height_target);
            &&& val(minus_tilt) == 0real - (gx * gx + gy * gy)
            &&& val(tilt_var) == val(p.std_upright) * val(p.std_upright)
            &&& val(minus_gap) == 0real - h * h
            &&& val(gap_var) == val(p.std_base_height) * val(p.std_base_height)
        }),
    ensures
        val(inputs.upright(e)) == val(inputs.params.w_upright) * val(
            minus_tilt.over(tilt_var).exponential(),
        ) * val(inputs.params.control_dt),
        val(inputs.base_height(e)) == val(inputs.params.w_base_height) * val(
            minus_gap.over(gap_var).exponential(),
        ) * val(inputs.params.control_dt),
{
    let p = inputs.params;
    let g = inputs.base(e).body_gravity(p.up as int);
    let (gx, gy) = (g.along(p.fwd as int), g.along(p.lat as int));
    let t = (e * p.colliders_per_batch + p.torso_link) * 8;
    let h = inputs.poses@[t + 4 + p.up].minus(p.base_height_target);
    assert(val(gx.times(gx).plus(gy.times(gy)).opposite()) == val(minus_tilt));
    assert(val(h.times(h).opposite()) == val(minus_gap));
    assert(val(p.std_upright.times(p.std_upright)) == val(tilt_var));
    assert(val(p.std_base_height.times(p.std_base_height)) == val(gap_var));
    assert(inputs.height(e) == inputs.poses@[t + 4 + p.up]);
}

/// Roll and pitch rate cost their squares, and vertical velocity its square, each times weight
/// and timestep. In exact arithmetic.
pub proof fn law_motion_costs<R: Scalar>(
    val: spec_fn(R) -> real,
    inputs: RewardInputs<R>,
    e: int,
)
    requires
        reads_exactly(val),
    ensures
        ({
            let p = inputs.params;
            let m = inputs.base(e);
            let (wx, wy) = (
                val(m.body_ang().along(p.fwd as int)),
                val(m.body_ang().along(p.lat as int)),
            );
            let vz = val(m.body_lin().along(p.up as int));
            &&& val(inputs.body_ang_vel(e)) == val(p.w_body_ang_vel) * (wx * wx + wy * wy) * val(
                p.control_dt,
            )
            &&& val(inputs.lin_vel_z(e)) == val(p.w_lin_vel_z) * (vz * vz) * val(p.control_dt)
        }),
{
    let p = inputs.params;
    let vz = val(inputs.base(e).body_lin().along(p.up as int));
    lemma_turn(vz, val(p.w_lin_vel_z), vz);
    lemma_turn(val(p.w_lin_vel_z), vz, vz);
}

/// What one joint adds to each of the sums over joints. Its angle `q` adds the squares of its
/// distance from the default, of its distance from the mirrored partner where the joint has
/// one, and of its velocity; what it is past the upper or the lower limit; and the squared
/// change of its action, which counts once more for a hip. In exact arithmetic.
pub proof fn law_joint_adds_up<R: Scalar>(
    val: spec_fn(R) -> real,
    inputs: RewardInputs<R>,
    e: int,
    k: int,
    past_hi: R,
    past_lo: R,
    moved: R,
)
    requires
        reads_exactly(val),
        0 <= k,
        ({
            let p = inputs.params;
            let cfg = inputs.joint_cfg@[k];
            let q = val(inputs.angle_of(e, k));
            &&& val(past_hi) == q - val(cfg.pos_hi) * val(p.limit_scale)
            &&& val(past_lo) == val(cfg.pos_lo) * val(p.limit_scale) - q
            &&& val(moved) == q - val(inputs.angle_in(inputs.prev_poses@, e, k))
        }),
    ensures
        ({
            let p = inputs.params;
            let (n, j) = (p.num_envs as int, p.num_joints as int);
            let cfg = inputs.joint_cfg@[k];
            let q = val(inputs.angle_of(e, k));
            let away = q - val(cfg.default_pos);
            let askew = q - val(cfg.sym_sign) * val(inputs.angle_of(e, cfg.sym_partner as int));
            let rate = val(moved.over(p.control_dt));
            let turn = val(inputs.action2@[k * n + e]) - val(inputs.action2@[(j + k) * n + e]);
            let pass = val(past_hi.greater(zero())) + val(past_lo.greater(zero()));
            let moves = inputs.flags@[e] & 2 != 0;
            let sym = if cfg.sym_active != 0 {
                askew * askew
            } else {
                0real
            };
            let speed = if moves {
                rate * rate
            } else {
                0real
            };
            let hip = if cfg.is_hip != 0 {
                turn * turn
            } else {
                0real
            };
            &&& val(inputs.pose_err(e, k + 1)) == val(inputs.pose_err(e, k)) + away * away
            &&& val(inputs.sym_err(e, k + 1)) == val(inputs.sym_err(e, k)) + sym
            &&& val(inputs.lim_pen(e, k + 1)) == val(inputs.lim_pen(e, k)) + pass
            &&& val(inputs.vel_sq(e, k + 1)) == val(inputs.vel_sq(e, k)) + speed
            &&& val(inputs.act_sq(e, k + 1)) == val(inputs.act_sq(e, k)) + turn * turn
            &&& val(inputs.act_sq_hip(e, k + 1)) == val(inputs.act_sq_hip(e, k)) + hip
        }),
{
    let p = inputs.params;
    let cfg = inputs.joint_cfg@[k];
    let q = inputs.angle_of(e, k);
    lemma_constant(0real);
    assert(val(q.minus(cfg.pos_hi.times(p.limit_scale))) == val(past_hi));
    assert(val(cfg.pos_lo.times(p.limit_scale).minus(q)) == val(past_lo));
    assert(val(q.minus(inputs.angle_in(inputs.prev_poses@, e, k))) == val(moved));
    assert(inputs.joint_vel(e, k) == if inputs.flags@[e] & 2 != 0 {
        moved.over(p.control_dt)
    } else {
        zero()
    });
    lemma_unfold(k, |i: int| true, |i: int| inputs.deviation(e, i));
    lemma_unfold(
        k,
        |i: int| inputs.joint_cfg@[i].sym_active != 0,
        |i: int| inputs.asymmetry(e, i),
    );
    lemma_unfold(k, |i: int| true, |i: int| inputs.excess(e, i));
    lemma_unfold(k, |i: int| true, |i: int| square(inputs.joint_vel(e, i)));
    lemma_unfold(k, |i: int| true, |i: int| inputs.action_change(e, i));
    lemma_unfold(
        k,
        |i: int| inputs.joint_cfg@[i].is_hip != 0,
        |i: int| inputs.action_change(e, i),
    );
}

/// A sum takes in one index more.
proof fn lemma_unfold<R: Scalar>(
    k: int,
    active: spec_fn(int) -> bool,
    term: spec_fn(int) -> R,
)
    requires
        0 <= k,
    ensures
        sum_where(k + 1, active, term) == (if active(k) {
            sum_where(k, active, term).plus(term(k))
        } else {
            sum_where(k, active, term)
        }),
{
}

/// Every sum over no joint or no foot is zero.
pub proof fn law_empty_sums<R: Scalar>(inputs: RewardInputs<R>, e: int)
    ensures
        inputs.pose_err(e, 0) == zero::<R>(),
        inputs.sym_err(e, 0) == zero::<R>(),
        inputs.lim_pen(e, 0) == zero::<R>(),
        inputs.vel_sq(e, 0) == zero::<R>(),
        inputs.act_sq(e, 0) == zero::<R>(),
        inputs.act_sq_hip(e, 0) == zero::<R>(),
        inputs.air_sum(e, 0) == zero::<R>(),
        inputs.slip(e, 0) == zero::<R>(),
        inputs.clr(e, 0) == zero::<R>(),
        inputs.tilt_sq(e, 0) == zero::<R>(),
        inputs.yaw_sq(e, 0) == zero::<R>(),
        inputs.contacts(e, 0) == 0,
{
}

/// What the sums over all joints are paid: the default pose and the symmetry a kernel, the
/// pose only while standing, everything else the sum itself, times weight and timestep. In
/// exact arithmetic.
pub proof fn law_joint_sums_are_paid<R: Scalar>(
    val: spec_fn(R) -> real,
    inputs: RewardInputs<R>,
    e: int,
    minus_pose: R,
    pose_var: R,
    minus_sym: R,
)
    requires
        reads_exactly(val),
        ({
            let p = inputs.params;
            let j = p.num_joints as int;
            &&& val(minus_pose) == 0real - val(inputs.pose_err(e, j))
            &&& val(pose_var) == val(p.std_pose) * val(p.std_pose)
            &&& val(minus_sym) == 0real - val(inputs.sym_err(e, j))
        }),
    ensures
        ({
            let p = inputs.params;
            let (j, dt) = (p.num_joints as int, val(p.control_dt));
            &&& val(inputs.pose(e)) == (if inputs.standing(e) {
                val(p.w_pose) * val(minus_pose.over(pose_var).exponential()) * dt
            } else {
                0real
            })
            &&& val(inputs.bilateral(e)) == val(p.w_bilateral) * val(minus_sym.exponential()) * dt
            &&& val(inputs.action_rate(e)) == val(p.w_action_rate) * val(inputs.act_sq(e, j)) * dt
            &&& val(inputs.action_rate_hip(e)) == val(p.w_action_rate_hip) * val(
                inputs.act_sq_hip(e, j),
            ) * dt
            &&& val(inputs.dof_pos_limits(e)) == val(p.w_dof_pos_limits) * val(
                inputs.lim_pen(e, j),
            ) * dt
            &&& val(inputs.dof_vel(e)) == val(p.w_dof_vel) * val(inputs.vel_sq(e, j)) * dt
        }),
{
    let p = inputs.params;
    let j = p.num_joints as int;
    assert(val(inputs.pose_err(e, j).opposite()) == val(minus_pose));
    assert(val(inputs.sym_err(e, j).opposite()) == val(minus_sym));
    assert(val(p.std_pose.times(p.std_pose)) == val(pose_var));
}

/// The planar speed of a foot is the root of the summed squares of its displacements over the
/// timestep, zero without previous poses. In exact arithmetic.
pub proof fn law_foot_speed<R: Scalar>(
    val: spec_fn(R) -> real,
    inputs: RewardInputs<R>,
    e: int,
    i: int,
    dx: R,
    dy: R,
    sq: R,
)
    requires
        reads_exactly(val),
        ({
            let p = inputs.params;
            let link = if i == 0 {
                p.foot_link0 as int
            } else {
                p.foot_link1 as int
            };
            let b = (e * p.colliders_per_batch + link) * 8;
            let (vx, vy) = (val(dx.over(p.control_dt)), val(dy.over(p.control_dt)));
            &&& val(dx) == val(inputs.poses@[b + 4]) - val(inputs.prev_poses@[b + 4])
            &&& val(dy) == val(inputs.poses@[b + 5]) - val(inputs.prev_poses@[b + 5])
            &&& val(sq) == vx * vx + vy * vy
        }),
    ensures
        inputs.foot_speed(e, i) == (if inputs.flags@[e] & 1 != 0 {
            sq.root()
        } else {
            zero()
        }),
{
    let p = inputs.params;
    let link = inputs.foot_link(i);
    let b = (e * p.colliders_per_batch + link) * 8;
    let ex = inputs.poses@[b + 4].minus(inputs.prev_poses@[b + 4]);
    let ey = inputs.poses@[b + 5].minus(inputs.prev_poses@[b + 5]);
    assert(val(ex) == val(dx) && val(ey) == val(dy));
    let (vx, vy) = (dx.over(p.control_dt), dy.over(p.control_dt));
    assert(val(vx.times(vx).plus(vy.times(vy))) == val(sq));
}

/// The tilt of a foot is the angle whose cosine is the vertical part, without its sign and cut
/// off at one, of the sole normal turned into the world; its yaw is the direction, in the
/// horizontal plane of the base, of the foot's first axis. In exact arithmetic.
pub proof fn law_foot_attitude<R: Scalar>(
    val: spec_fn(R) -> real,
    inputs: RewardInputs<R>,
    e: int,
    i: int,
    rise: R,
    x: R,
    y: R,
)
    requires
        reads_exactly(val),
        ({
            let q = read_quat(val, inputs.foot_rot(e, i));
            let n = inputs.params.num_envs;
            let rel = hamilton(conj(read_quat(val, inputs.base(e).rot)), q);
            &&& val(rise) == matrix(q, 2, 0) * val(inputs.sole_local@[3 * i * n + e]) + matrix(
                q,
                2,
                1,
            ) * val(inputs.sole_local@[(3 * i + 1) * n + e]) + matrix(q, 2, 2) * val(
                inputs.sole_local@[(3 * i + 2) * n + e],
            )
            &&& val(x) == matrix(rel, 0, 0)
            &&& val(y) == matrix(rel, 1, 0)
        }),
    ensures
        inputs.foot_tilt(e, i) == rise.magnitude().lesser(one()).greater(zero()).arc_cosine(),
        inputs.foot_yaw(e, i) == y.angle(x),
{
    let f = inputs.foot_rot(e, i);
    let r = inputs.base(e).rot;
    law_rotation_matrix(val, f, inputs.sole(e, i), 2);
    let rel = r.conjugate().product(f);
    lemma_read_product(val, r.conjugate(), f);
    assert(read_quat(val, r.conjugate()) == conj(read_quat(val, r)));
    let m = read_quat(val, rel);
    let axis = Vec3::only(0, one::<R>());
    law_rotation_matrix(val, rel, axis, 0);
    law_rotation_matrix(val, rel, axis, 1);
    lemma_constant(matrix(m, 0, 0));
    lemma_constant(matrix(m, 0, 1));
    lemma_constant(matrix(m, 0, 2));
    lemma_constant(matrix(m, 1, 0));
    lemma_constant(matrix(m, 1, 1));
    lemma_constant(matrix(m, 1, 2));
    let toe = rel.rotated(axis);
    assert(val(toe.x) == val(x) && val(toe.y) == val(y));
    let up = f.rotated(inputs.sole(e, i)).z;
    assert(val(up) == val(rise));
}

/// The clock of a foot: contact stops it at zero, else the timestep is added. A foot that
/// touches down with time on the clock is paid for that time, up to the cap.
pub proof fn law_foot_clock<R: Scalar>(
    val: spec_fn(R) -> real,
    inputs: RewardInputs<R>,
    e: int,
    i: int,
)
    requires
        reads_exactly(val),
        0 <= i,
    ensures
        ({
            let p = inputs.params;
            let clock = inputs.air_time_in@[i * p.num_envs + e];
            let paid = if clock.below(p.air_cap) {
                clock
            } else {
                p.air_cap
            };
            let lands = inputs.contact(e, i) && zero::<R>().below(clock);
            &&& val(inputs.new_air(e, i)) == (if inputs.contact(e, i) {
                0real
            } else {
                val(clock) + val(p.control_dt)
            })
            &&& i < p.num_feet ==> inputs.air_times(e)[i] == inputs.new_air(e, i)
            &&& inputs.air_times(e).len() == p.num_feet
            &&& val(inputs.air_sum(e, i + 1)) == val(inputs.air_sum(e, i)) + (if lands {
                val(paid)
            } else {
                0real
            })
            &&& inputs.contacts(e, i + 1) == inputs.contacts(e, i) + (if inputs.contact(e, i) {
                1int
            } else {
                0int
            })
            &&& inputs.all_air(e, i + 1) == (inputs.all_air(e, i) && !inputs.contact(e, i))
        }),
{
    let active = |k: int| inputs.first_contact(e, k);
    lemma_unfold(i, active, |k: int| inputs.landed_air(e, k));
    if inputs.all_air(e, i) && !inputs.contact(e, i) {
        assert forall|k: int| 0 <= k < i + 1 implies !#[trigger] inputs.contact(e, k) by {
            assert(k < i || k == i);
        }
    }
    if inputs.all_air(e, i + 1) {
        assert(!inputs.contact(e, i));
        assert forall|k: int| 0 <= k < i implies !#[trigger] inputs.contact(e, k) by {}
    }
}

/// What one foot adds to the sums over feet. A foot on the ground adds its squared speed and
/// its squared tilt, one in the air the squared distance of its height from the target times
/// its speed, and either its squared yaw. In exact arithmetic.
pub proof fn law_foot_adds_up<R: Scalar>(
    val: spec_fn(R) -> real,
    inputs: RewardInputs<R>,
    e: int,
    i: int,
)
    requires
        reads_exactly(val),
        0 <= i,
    ensures
        ({
            let p = inputs.params;
            let speed = val(inputs.foot_speed(e, i));
            let tilt = val(inputs.foot_tilt(e, i));
            let yaw = val(inputs.foot_yaw(e, i));
            let gap = val(inputs.foot_pos(e, i).z) - val(p.foot_clearance_target);
            let down = inputs.contact(e, i);
            let (slips, tilts, clears) = if down {
                (speed * speed, tilt * tilt, 0real)
            } else {
                (0real, 0real, gap * gap * speed)
            };
            &&& val(inputs.slip(e, i + 1)) == val(inputs.slip(e, i)) + slips
            &&& val(inputs.tilt_sq(e, i + 1)) == val(inputs.tilt_sq(e, i)) + tilts
            &&& val(inputs.clr(e, i + 1)) == val(inputs.clr(e, i)) + clears
            &&& val(inputs.yaw_sq(e, i + 1)) == val(inputs.yaw_sq(e, i)) + yaw * yaw
        }),
{
    let down = |k: int| inputs.contact(e, k);
    lemma_unfold(i, down, |k: int| square(inputs.foot_speed(e, k)));
    lemma_unfold(i, down, |k: int| square(inputs.foot_tilt(e, k)));
    lemma_unfold(i, |k: int| !inputs.contact(e, k), |k: int| inputs.clearance(e, k));
    lemma_unfold(i, |k: int| true, |k: int| square(inputs.foot_yaw(e, k)));
}

/// What the sums over all feet are paid, times weight and timestep: landings and single support
/// only while moving, flight whenever no foot is down. In exact arithmetic.
pub proof fn law_foot_sums_are_paid<R: Scalar>(
    val: spec_fn(R) -> real,
    inputs: RewardInputs<R>,
    e: int,
)
    requires
        reads_exactly(val),
    ensures
        ({
            let p = inputs.params;
            let (f, dt) = (p.num_feet as int, val(p.control_dt));
            let walks = !inputs.standing(e);
            &&& val(inputs.air_time(e)) == (if walks {
                val(p.w_air_time) * val(inputs.air_sum(e, f)) * dt
            } else {
                0real
            })
            &&& val(inputs.single_support(e)) == (if walks && inputs.contacts(e, f) == 1 {
                val(p.w_single_support) * dt
            } else {
                0real
            })
            &&& val(inputs.flight(e)) == (if forall|k: int|
                0 <= k < f ==> !#[trigger] inputs.contact(e, k) {
                val(p.w_flight) * dt
            } else {
                0real
            })
            &&& val(inputs.foot_slip(e)) == val(p.w_foot_slip) * val(inputs.slip(e, f)) * dt
            &&& val(inputs.foot_clearance(e)) == val(p.w_foot_clearance) * val(inputs.clr(e, f))
                * dt
            &&& val(inputs.foot_orientation(e)) == val(p.w_foot_orientation) * val(
                inputs.tilt_sq(e, f),
            ) * dt
            &&& val(inputs.feet_yaw_mean(e)) == val(p.w_feet_yaw_mean) * val(inputs.yaw_sq(e, f))
                * dt
        }),
{
}

/// Of two feet the distance along the lateral axis of the base is compared with its reference:
/// the cost is `w·| |lateral| - ref |·dt`, where `lateral` is the vector between the feet along
/// the direction at right angles to the heading of the base. In exact arithmetic.
pub proof fn law_feet_distance<R: Scalar>(
    val: spec_fn(R) -> real,
    inputs: RewardInputs<R>,
    e: int,
    sin: R,
    cos: R,
    lateral: R,
    gap: R,
)
    requires
        reads_exactly(val),
        val(sin) == 2real * (val(inputs.base(e).rot.w) * val(inputs.base(e).rot.z) + val(
            inputs.base(e).rot.x,
        ) * val(inputs.base(e).rot.y)),
        val(cos) == 1real - 2real * (val(inputs.base(e).rot.y) * val(inputs.base(e).rot.y) + val(
            inputs.base(e).rot.z,
        ) * val(inputs.base(e).rot.z)),
        ({
            let p = inputs.params;
            let yaw = sin.angle(cos);
            let a = (e * p.colliders_per_batch + p.foot_link0) * 8;
            let b = (e * p.colliders_per_batch + p.foot_link1) * 8;
            let dx = val(inputs.poses@[a + 4]) - val(inputs.poses@[b + 4]);
            let dy = val(inputs.poses@[a + 5]) - val(inputs.poses@[b + 5]);
            &&& val(lateral) == val(yaw.cosine()) * dy - val(yaw.sine()) * dx
            &&& val(gap) == val(lateral.magnitude()) - val(p.feet_distance_ref)
        }),
    ensures
        val(inputs.feet_distance(e)) == (if inputs.params.num_feet == 2 {
            val(inputs.params.w_feet_distance) * val(gap.magnitude()) * val(
                inputs.params.control_dt,
            )
        } else {
            0real
        }),
{
    let p = inputs.params;
    let r = inputs.base(e).rot;
    let (two, one) = (two::<R>(), one::<R>());
    let s = two.times(r.w.times(r.z).plus(r.x.times(r.y)));
    let c = one.minus(two.times(r.y.times(r.y).plus(r.z.times(r.z))));
    assert(val(s) == val(sin));
    assert(val(c) == val(cos));
    let yaw = sin.angle(cos);
    assert(inputs.base_yaw(e) == yaw);
    let a = (e * p.colliders_per_batch + p.foot_link0) * 8;
    let b = (e * p.colliders_per_batch + p.foot_link1) * 8;
    let dx = inputs.poses@[a + 4].minus(inputs.poses@[b + 4]);
    let dy = inputs.poses@[a + 5].minus(inputs.poses@[b + 5]);
    lemma_minus(val(yaw.sine()), val(dx));
    let l = yaw.sine().opposite().times(dx).plus(yaw.cosine().times(dy));
    assert(val(l) == val(lateral));
    assert(val(l.magnitude().minus(p.feet_distance_ref)) == val(gap));
}

/// The reward is the sum of its twenty terms, no term scaled, capped or left out, and of the
/// termination weight on a fall. In exact arithmetic.
pub proof fn law_reward_is_the_sum<R: Scalar>(
    val: spec_fn(R) -> real,
    inputs: RewardInputs<R>,
    e: int,
)
    requires
        reads_exactly(val),
    ensures
        val(inputs.reward(e)) == val(inputs.track_lin(e)) + val(inputs.track_ang(e)) + val(
            inputs.upright(e),
        ) + val(inputs.base_height(e)) + val(inputs.pose(e)) + val(inputs.bilateral(e)) + val(
            inputs.action_rate(e),
        ) + val(inputs.action_rate_hip(e)) + val(inputs.body_ang_vel(e)) + val(
            inputs.lin_vel_z(e),
        ) + val(inputs.dof_pos_limits(e)) + val(inputs.dof_vel(e)) + val(inputs.air_time(e)) + val(
            inputs.flight(e),
        ) + val(inputs.single_support(e)) + val(inputs.foot_slip(e)) + val(
            inputs.foot_clearance(e),
        ) + val(inputs.foot_orientation(e)) + val(inputs.feet_yaw_mean(e)) + val(
            inputs.feet_distance(e),
        ) + (if inputs.fell(e) == 1 {
            val(inputs.params.w_termination)
        } else {
            0real
        }),
{
}

/// A robot has fallen if its base is at no finite height, below the minimum, or if the cosine
/// between its up axis and the vertical, which is the matching entry of the rotation matrix,
/// is below the threshold. In exact arithmetic.
pub proof fn law_fall<R: Scalar>(
    val: spec_fn(R) -> real,
    inputs: RewardInputs<R>,
    e: int,
    cos: R,
)
    requires
        reads_exactly(val),
        inputs.params.up < 3,
        val(cos) == matrix(
            read_quat(val, inputs.base(e).rot),
            inputs.params.up as int,
            inputs.params.up as int,
        ),
    ensures
        ({
            let p = inputs.params;
            let h = inputs.poses@[(e * p.colliders_per_batch + p.torso_link) * 8 + 4 + p.up];
            let fallen = !h.minus(h).same(zero()) || h.below(p.min_base_height) || cos.below(
                p.tilt_cos,
            );
            inputs.fell(e) == (if fallen {
                1u32
            } else {
                0u32
            })
        }),
{
    let up = inputs.params.up as int;
    let r = inputs.base(e).rot;
    let axis = Vec3::only(up, one::<R>());
    law_rotation_matrix(val, r, axis, up);
    let q = read_quat(val, r);
    lemma_constant(matrix(q, up, 0));
    lemma_constant(matrix(q, up, 1));
    lemma_constant(matrix(q, up, 2));
    assert(val(r.rotated(axis).along(up)) == val(cos));
}

} // verus!
