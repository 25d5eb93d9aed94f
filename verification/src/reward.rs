//! Batched step reward for the velocity-tracking locomotion task.
//!
//! The reward of an environment is the sum of twenty weighted terms, each multiplied by
//! the control timestep, plus a penalty on the step at which the robot falls. It is
//! computed from the poses alone: the kernel derives base motion, joint angles and foot
//! contacts itself.

use crate::buffer::{
    cell, column, get, lemma_cell, lemma_cell_in, lemma_no_rows, lemma_rows_bounded, load,
    matrix_fits, put_row, with_column,
};
use crate::geometry::{
    base_motion, component, down_basis, has_rot, has_trans, hinge_angle, holds_rot, holds_trans,
    joint_angle, lemma_same_pose, pose_rot, pose_trans, quat_conj, quat_mul, quat_rotate,
    quat_rotate_inv, rot_at, same_poses, trans_at, up_basis, BaseMotion, Quat, Vec3,
};
use crate::launch::{
    after_launch, after_thread, after_threads, law_one_thread_per_column, lemma_stride,
    lemma_thread_end, lemma_thread_start, lemma_thread_step, lemma_threads_end,
    lemma_threads_start, lemma_threads_step, owns, threads_started, within_thread, InvocationId,
    MAX_NUM_THREADS,
};
use crate::obs::{law_joint_pos_feeds_next_step, lemma_flag_bits, ObsInputs};
use crate::scalar::{
    numeric, one, square, two, zero, zero_absorbs, Scalar, ONE, TWO, ZERO,
};
use vstd::prelude::*;

verus! {

/// Scalar configuration, weights, scales and thresholds of the reward.
pub struct RewardParams<R> {
    pub num_envs: u32,
    pub num_joints: u32,
    pub num_feet: u32,
    pub colliders_per_batch: u32,
    pub torso_link: u32,
    pub fwd: u32,
    pub lat: u32,
    pub up: u32,
    pub foot_link0: u32,
    pub foot_link1: u32,
    pub pad_u0: u32,
    pub pad_u1: u32,
    pub control_dt: R,
    pub w_track_lin: R,
    pub w_track_ang: R,
    pub w_upright: R,
    pub w_base_height: R,
    pub base_height_target: R,
    pub w_pose: R,
    pub w_bilateral: R,
    pub w_action_rate: R,
    pub w_action_rate_hip: R,
    pub w_body_ang_vel: R,
    pub w_lin_vel_z: R,
    pub w_dof_pos_limits: R,
    pub w_dof_vel: R,
    pub w_termination: R,
    pub w_air_time: R,
    pub w_flight: R,
    pub w_single_support: R,
    pub w_foot_slip: R,
    pub w_foot_clearance: R,
    pub foot_clearance_target: R,
    pub w_foot_orientation: R,
    pub w_feet_yaw_mean: R,
    pub w_feet_distance: R,
    pub feet_distance_ref: R,
    pub std_lin_vel: R,
    pub std_ang_vel: R,
    pub std_upright: R,
    pub std_base_height: R,
    pub std_pose: R,
    pub contact_z: R,
    pub min_base_height: R,
    pub tilt_cos: R,
    pub standing_speed: R,
    pub air_cap: R,
    pub limit_scale: R,
    pub pad_f0: R,
    pub pad_f1: R,
}

impl<R: Copy> Copy for RewardParams<R> {

}

impl<R: Copy> Clone for RewardParams<R> {
    fn clone(&self) -> (r: Self)
        ensures
            r == *self,
    {
        *self
    }
}

/// Reward configuration of one joint.
pub struct RewardJointCfg<R> {
    pub parent_link: u32,
    pub child_link: u32,
    pub default_pos: R,
    pub pos_lo: R,
    pub pos_hi: R,
    /// Index of the mirror partner joint, for bilateral symmetry.
    pub sym_partner: u32,
    /// Mirror sign: `+1` sagittal, `-1` lateral.
    pub sym_sign: R,
    /// Not zero if this joint contributes a symmetry term.
    pub sym_active: u32,
    /// Not zero if this joint is a hip yaw or roll.
    pub is_hip: u32,
    pub pad0: u32,
    pub pad1: u32,
    pub pad2: u32,
    /// Rest quaternion `(x, y, z, w)`.
    pub rest_quat: [R; 4],
}

impl<R: Copy> Copy for RewardJointCfg<R> {

}

impl<R: Copy> Clone for RewardJointCfg<R> {
    fn clone(&self) -> (r: Self)
        ensures
            r == *self,
    {
        *self
    }
}

/// The sum of `term(0)` to `term(count - 1)` over the indices that `active` selects,
/// added up from zero in order.
pub open spec fn sum_where<R: Scalar>(
    count: int,
    active: spec_fn(int) -> bool,
    term: spec_fn(int) -> R,
) -> R
    decreases count,
{
    if count <= 0 {
        zero()
    } else {
        let before = sum_where(count - 1, active, term);
        if active(count - 1) {
            before.plus(term(count - 1))
        } else {
            before
        }
    }
}

/// Everything that rewards are computed from.
pub struct RewardInputs<'a, R> {
    pub params: &'a RewardParams<R>,
    /// Current poses.
    pub poses: &'a [R],
    /// Poses one control step ago.
    pub prev_poses: &'a [R],
    /// `[J]` joints.
    pub joint_cfg: &'a [RewardJointCfg<R>],
    /// `[3 x n]` commanded `vx`, `vy` and yaw rate.
    pub cmd: &'a [R],
    /// `[2J x n]` last action in the upper half, the action before in the lower.
    pub action2: &'a [R],
    /// `[num_feet x n]` time that each foot has been in the air.
    pub air_time_in: &'a [R],
    /// `[3·num_feet x n]` sole normal in the frame of each foot.
    pub sole_local: &'a [R],
    /// `[n]` flags: bit 0 says that there are previous poses, bit 1 that there are
    /// previous joint angles.
    pub flags: &'a [u32],
}

/// Base and command of an environment.
impl<'a, R: Scalar> RewardInputs<'a, R> {
    /// Number of environments.
    pub open spec fn n(self) -> int {
        self.params.num_envs as int
    }

    /// Number of joints.
    pub open spec fn joints(self) -> int {
        self.params.num_joints as int
    }

    /// Number of feet.
    pub open spec fn feet(self) -> int {
        self.params.num_feet as int
    }

    /// Poses per environment.
    pub open spec fn cpb(self) -> int {
        self.params.colliders_per_batch as int
    }

    /// The control timestep.
    pub open spec fn dt(self) -> R {
        self.params.control_dt
    }

    /// Whether environment `e` has previous poses.
    pub open spec fn has_prev_pose(self, e: int) -> bool {
        self.flags@[e] & 1 != 0
    }

    /// Whether environment `e` has previous joint angles.
    pub open spec fn has_prev_joint_pos(self, e: int) -> bool {
        self.flags@[e] & 2 != 0
    }

    /// The motion of the base of environment `e`.
    pub open spec fn base(self, e: int) -> BaseMotion<R> {
        BaseMotion::observed(
            self.poses@,
            self.prev_poses@,
            e,
            self.params.torso_link as int,
            self.cpb(),
            self.has_prev_pose(e),
            self.dt(),
        )
    }

    /// Commanded forward velocity.
    pub open spec fn cmd_vx(self, e: int) -> R {
        self.cmd@[cell(0, self.n(), e)]
    }

    /// Commanded lateral velocity.
    pub open spec fn cmd_vy(self, e: int) -> R {
        self.cmd@[cell(1, self.n(), e)]
    }

    /// Commanded yaw rate.
    pub open spec fn cmd_yaw(self, e: int) -> R {
        self.cmd@[cell(2, self.n(), e)]
    }

    /// Whether the command is to stand: its magnitude is below the standing speed.
    pub open spec fn standing(self, e: int) -> bool {
        square(self.cmd_vx(e)).plus(square(self.cmd_vy(e))).plus(
            square(self.cmd_yaw(e)),
        ).root().below(self.params.standing_speed)
    }

    /// Height of the base.
    pub open spec fn height(self, e: int) -> R {
        self.base(e).pos.along(self.params.up as int)
    }
}

/// The weight `w` times a Gaussian kernel of the squared error `err` with scale `std`,
/// times the timestep.
pub open spec fn kernel_term<R: Scalar>(w: R, err: R, std: R, dt: R) -> R {
    w.times(err.opposite().over(square(std)).exponential()).times(dt)
}

/// Terms of the base and the command.
impl<'a, R: Scalar> RewardInputs<'a, R> {
    /// Velocity along a body axis.
    pub open spec fn lin(self, e: int, axis: u32) -> R {
        self.base(e).body_lin().along(axis as int)
    }

    /// Angular velocity about a body axis.
    pub open spec fn ang(self, e: int, axis: u32) -> R {
        self.base(e).body_ang().along(axis as int)
    }

    /// Gravity direction along a body axis.
    pub open spec fn grav(self, e: int, axis: u32) -> R {
        self.base(e).body_gravity(self.params.up as int).along(axis as int)
    }

    /// Tracking of the commanded planar velocity.
    pub open spec fn track_lin(self, e: int) -> R {
        let p = self.params;
        let err = square(self.cmd_vx(e).minus(self.lin(e, p.fwd))).plus(
            square(self.cmd_vy(e).minus(self.lin(e, p.lat))),
        );
        kernel_term(p.w_track_lin, err, p.std_lin_vel, self.dt())
    }

    /// Tracking of the commanded yaw rate.
    pub open spec fn track_ang(self, e: int) -> R {
        let p = self.params;
        let err = square(self.cmd_yaw(e).minus(self.ang(e, p.up)));
        kernel_term(p.w_track_ang, err, p.std_ang_vel, self.dt())
    }

    /// Uprightness: the tilt of gravity in the body frame.
    pub open spec fn upright(self, e: int) -> R {
        let p = self.params;
        let err = square(self.grav(e, p.fwd)).plus(square(self.grav(e, p.lat)));
        kernel_term(p.w_upright, err, p.std_upright, self.dt())
    }

    /// Base height against its target.
    pub open spec fn base_height(self, e: int) -> R {
        let p = self.params;
        let err = square(self.height(e).minus(p.base_height_target));
        kernel_term(p.w_base_height, err, p.std_base_height, self.dt())
    }

    /// Roll and pitch rate.
    pub open spec fn body_ang_vel(self, e: int) -> R {
        let p = self.params;
        p.w_body_ang_vel.times(square(self.ang(e, p.fwd)).plus(square(self.ang(e, p.lat)))).times(
            self.dt(),
        )
    }

    /// Vertical velocity.
    pub open spec fn lin_vel_z(self, e: int) -> R {
        let p = self.params;
        p.w_lin_vel_z.times(self.lin(e, p.up)).times(self.lin(e, p.up)).times(self.dt())
    }
}

/// Terms of the joints.
impl<'a, R: Scalar> RewardInputs<'a, R> {
    /// The angle of joint `k` of environment `e` in the given poses.
    pub open spec fn angle_in(self, poses: Seq<R>, e: int, k: int) -> R {
        let cfg = self.joint_cfg@[k];
        hinge_angle(
            poses,
            e,
            self.cpb(),
            cfg.parent_link as int,
            cfg.child_link as int,
            Quat::of(cfg.rest_quat@),
        )
    }

    /// The angle of joint `k` of environment `e`.
    pub open spec fn angle_of(self, e: int, k: int) -> R {
        self.angle_in(self.poses@, e, k)
    }

    /// Squared deviation of joint `k` from its default.
    pub open spec fn deviation(self, e: int, k: int) -> R {
        square(self.angle_of(e, k).minus(self.joint_cfg@[k].default_pos))
    }

    /// Squared asymmetry between joint `k` and its mirror partner.
    pub open spec fn asymmetry(self, e: int, k: int) -> R {
        let cfg = self.joint_cfg@[k];
        square(
            self.angle_of(e, k).minus(
                cfg.sym_sign.times(self.angle_of(e, cfg.sym_partner as int)),
            ),
        )
    }

    /// How far joint `k` is past its scaled limits.
    pub open spec fn excess(self, e: int, k: int) -> R {
        let cfg = self.joint_cfg@[k];
        let q = self.angle_of(e, k);
        q.minus(cfg.pos_hi.times(self.params.limit_scale)).greater(zero()).plus(
            cfg.pos_lo.times(self.params.limit_scale).minus(q).greater(zero()),
        )
    }

    /// Velocity of joint `k`: a finite difference, or zero without previous angles.
    pub open spec fn joint_vel(self, e: int, k: int) -> R {
        if self.has_prev_joint_pos(e) {
            self.angle_of(e, k).minus(self.angle_in(self.prev_poses@, e, k)).over(self.dt())
        } else {
            zero()
        }
    }

    /// Squared change of action dimension `k`.
    pub open spec fn action_change(self, e: int, k: int) -> R {
        square(
            self.action2@[cell(k, self.n(), e)].minus(
                self.action2@[cell(self.joints() + k, self.n(), e)],
            ),
        )
    }

    /// Sum of the squared deviations of the first `k` joints.
    pub open spec fn pose_err(self, e: int, k: int) -> R {
        sum_where(k, |i: int| true, |i: int| self.deviation(e, i))
    }

    /// Sum of the squared asymmetries among the first `k` joints.
    pub open spec fn sym_err(self, e: int, k: int) -> R {
        sum_where(
            k,
            |i: int| self.joint_cfg@[i].sym_active != 0,
            |i: int| self.asymmetry(e, i),
        )
    }

    /// Sum of the limit violations of the first `k` joints.
    pub open spec fn lim_pen(self, e: int, k: int) -> R {
        sum_where(k, |i: int| true, |i: int| self.excess(e, i))
    }

    /// Sum of the squared velocities of the first `k` joints.
    pub open spec fn vel_sq(self, e: int, k: int) -> R {
        sum_where(k, |i: int| true, |i: int| square(self.joint_vel(e, i)))
    }

    /// Sum of the squared changes of the first `k` action dimensions.
    pub open spec fn act_sq(self, e: int, k: int) -> R {
        sum_where(k, |i: int| true, |i: int| self.action_change(e, i))
    }

    /// Sum of the squared changes of the hip dimensions among the first `k`.
    pub open spec fn act_sq_hip(self, e: int, k: int) -> R {
        sum_where(
            k,
            |i: int| self.joint_cfg@[i].is_hip != 0,
            |i: int| self.action_change(e, i),
        )
    }

    /// Default pose, paid only while standing.
    pub open spec fn pose(self, e: int) -> R {
        if self.standing(e) {
            kernel_term(
                self.params.w_pose,
                self.pose_err(e, self.joints()),
                self.params.std_pose,
                self.dt(),
            )
        } else {
            zero()
        }
    }

    /// Bilateral symmetry.
    pub open spec fn bilateral(self, e: int) -> R {
        self.params.w_bilateral.times(
            self.sym_err(e, self.joints()).opposite().exponential(),
        ).times(self.dt())
    }

    /// Rate of change of the action.
    pub open spec fn action_rate(self, e: int) -> R {
        self.params.w_action_rate.times(self.act_sq(e, self.joints())).times(self.dt())
    }

    /// Rate of change of the hip actions.
    pub open spec fn action_rate_hip(self, e: int) -> R {
        self.params.w_action_rate_hip.times(self.act_sq_hip(e, self.joints())).times(self.dt())
    }

    /// Joint limits.
    pub open spec fn dof_pos_limits(self, e: int) -> R {
        self.params.w_dof_pos_limits.times(self.lim_pen(e, self.joints())).times(self.dt())
    }

    /// Joint velocities.
    pub open spec fn dof_vel(self, e: int) -> R {
        self.params.w_dof_vel.times(self.vel_sq(e, self.joints())).times(self.dt())
    }
}

/// Terms of the feet.
impl<'a, R: Scalar> RewardInputs<'a, R> {
    /// The link of foot `i`.
    pub open spec fn foot_link(self, i: int) -> int {
        if i == 0 {
            self.params.foot_link0 as int
        } else {
            self.params.foot_link1 as int
        }
    }

    /// Position of foot `i`.
    pub open spec fn foot_pos(self, e: int, i: int) -> Vec3<R> {
        trans_at(self.poses@, e, self.foot_link(i), self.cpb())
    }

    /// Orientation of foot `i`.
    pub open spec fn foot_rot(self, e: int, i: int) -> Quat<R> {
        rot_at(self.poses@, e, self.foot_link(i), self.cpb())
    }

    /// Planar speed of foot `i`, zero without previous poses.
    pub open spec fn foot_speed(self, e: int, i: int) -> R {
        if self.has_prev_pose(e) {
            let before = trans_at(self.prev_poses@, e, self.foot_link(i), self.cpb());
            let rate = self.foot_pos(e, i).rate_since(before, self.dt());
            square(rate.x).plus(square(rate.y)).root()
        } else {
            zero()
        }
    }

    /// Sole normal of foot `i` in its own frame.
    pub open spec fn sole(self, e: int, i: int) -> Vec3<R> {
        Vec3 {
            x: self.sole_local@[cell(i * 3, self.n(), e)],
            y: self.sole_local@[cell(i * 3 + 1, self.n(), e)],
            z: self.sole_local@[cell(i * 3 + 2, self.n(), e)],
        }
    }

    /// Angle between the sole normal of foot `i` and the vertical.
    pub open spec fn foot_tilt(self, e: int, i: int) -> R {
        self.foot_rot(e, i).rotated(self.sole(e, i)).z.magnitude().lesser(one()).greater(
            zero(),
        ).arc_cosine()
    }

    /// Yaw of foot `i` relative to the base.
    pub open spec fn foot_yaw(self, e: int, i: int) -> R {
        let rel = self.base(e).rot.conjugate().product(self.foot_rot(e, i));
        let toe = rel.rotated(Vec3::only(0, one()));
        toe.y.angle(toe.x)
    }

    /// Whether foot `i` touches the ground.
    pub open spec fn contact(self, e: int, i: int) -> bool {
        self.foot_pos(e, i).z.below(self.params.contact_z)
    }

    /// Air time of foot `i` before this step.
    pub open spec fn prev_air(self, e: int, i: int) -> R {
        self.air_time_in@[cell(i, self.n(), e)]
    }

    /// Whether foot `i` touches the ground after having been in the air.
    pub open spec fn first_contact(self, e: int, i: int) -> bool {
        self.contact(e, i) && zero::<R>().below(self.prev_air(e, i))
    }

    /// Air time of foot `i` after this step: reset by contact, else advanced.
    pub open spec fn new_air(self, e: int, i: int) -> R {
        if self.contact(e, i) {
            zero()
        } else {
            self.prev_air(e, i).plus(self.dt())
        }
    }

    /// Air times of all feet after this step.
    pub open spec fn air_times(self, e: int) -> Seq<R> {
        Seq::new(self.params.num_feet as nat, |i: int| self.new_air(e, i))
    }

    /// Air time that the landing of foot `i` is paid for, capped.
    pub open spec fn landed_air(self, e: int, i: int) -> R {
        if self.prev_air(e, i).below(self.params.air_cap) {
            self.prev_air(e, i)
        } else {
            self.params.air_cap
        }
    }

    /// Squared clearance error of foot `i`, weighted by its planar speed.
    pub open spec fn clearance(self, e: int, i: int) -> R {
        square(self.foot_pos(e, i).z.minus(self.params.foot_clearance_target)).times(
            self.foot_speed(e, i),
        )
    }

    /// Number of feet among the first `i` that touch the ground.
    pub open spec fn contacts(self, e: int, i: int) -> int
        decreases i,
    {
        if i <= 0 {
            0
        } else if self.contact(e, i - 1) {
            self.contacts(e, i - 1) + 1
        } else {
            self.contacts(e, i - 1)
        }
    }

    /// Whether none of the first `i` feet touches the ground.
    pub open spec fn all_air(self, e: int, i: int) -> bool {
        forall|k: int| 0 <= k < i ==> !#[trigger] self.contact(e, k)
    }

    /// Sum of the air times paid for landings among the first `i` feet.
    pub open spec fn air_sum(self, e: int, i: int) -> R {
        sum_where(i, |k: int| self.first_contact(e, k), |k: int| self.landed_air(e, k))
    }

    /// Sum of the squared speeds of the feet on the ground among the first `i`.
    pub open spec fn slip(self, e: int, i: int) -> R {
        sum_where(i, |k: int| self.contact(e, k), |k: int| square(self.foot_speed(e, k)))
    }

    /// Sum of the clearance errors of the feet in the air among the first `i`.
    pub open spec fn clr(self, e: int, i: int) -> R {
        sum_where(i, |k: int| !self.contact(e, k), |k: int| self.clearance(e, k))
    }

    /// Sum of the squared tilts of the feet on the ground among the first `i`.
    pub open spec fn tilt_sq(self, e: int, i: int) -> R {
        sum_where(i, |k: int| self.contact(e, k), |k: int| square(self.foot_tilt(e, k)))
    }

    /// Sum of the squared yaws of the first `i` feet.
    pub open spec fn yaw_sq(self, e: int, i: int) -> R {
        sum_where(i, |k: int| true, |k: int| square(self.foot_yaw(e, k)))
    }

    /// Air time of the feet that land, paid only while moving.
    pub open spec fn air_time(self, e: int) -> R {
        if !self.standing(e) {
            self.params.w_air_time.times(self.air_sum(e, self.feet())).times(self.dt())
        } else {
            zero()
        }
    }

    /// Flight: no foot on the ground.
    pub open spec fn flight(self, e: int) -> R {
        if self.all_air(e, self.feet()) {
            self.params.w_flight.times(self.dt())
        } else {
            zero()
        }
    }

    /// Exactly one foot on the ground, paid only while moving.
    pub open spec fn single_support(self, e: int) -> R {
        if !self.standing(e) && self.contacts(e, self.feet()) == 1 {
            self.params.w_single_support.times(self.dt())
        } else {
            zero()
        }
    }

    /// Slip of the feet on the ground.
    pub open spec fn foot_slip(self, e: int) -> R {
        self.params.w_foot_slip.times(self.slip(e, self.feet())).times(self.dt())
    }

    /// Clearance of the feet in the air.
    pub open spec fn foot_clearance(self, e: int) -> R {
        self.params.w_foot_clearance.times(self.clr(e, self.feet())).times(self.dt())
    }

    /// Tilt of the feet on the ground.
    pub open spec fn foot_orientation(self, e: int) -> R {
        self.params.w_foot_orientation.times(self.tilt_sq(e, self.feet())).times(self.dt())
    }

    /// Yaw of the feet relative to the base.
    pub open spec fn feet_yaw_mean(self, e: int) -> R {
        self.params.w_feet_yaw_mean.times(self.yaw_sq(e, self.feet())).times(self.dt())
    }

    /// Yaw of the base.
    pub open spec fn base_yaw(self, e: int) -> R {
        let r = self.base(e).rot;
        two::<R>().times(r.w.times(r.z).plus(r.x.times(r.y))).angle(
            one::<R>().minus(two::<R>().times(square(r.y).plus(square(r.z)))),
        )
    }

    /// Lateral distance between two feet against its reference.
    pub open spec fn feet_distance(self, e: int) -> R {
        if self.feet() == 2 {
            let dx = self.foot_pos(e, 0).x.minus(self.foot_pos(e, 1).x);
            let dy = self.foot_pos(e, 0).y.minus(self.foot_pos(e, 1).y);
            let yaw = self.base_yaw(e);
            let lateral = yaw.sine().opposite().times(dx).plus(yaw.cosine().times(dy));
            let err = lateral.magnitude().minus(self.params.feet_distance_ref);
            self.params.w_feet_distance.times(err.magnitude()).times(self.dt())
        } else {
            zero()
        }
    }
}

/// The reward.
impl<'a, R: Scalar> RewardInputs<'a, R> {
    /// The sum of the weighted terms of environment `e`.
    pub open spec fn terms(self, e: int) -> R {
        self.track_lin(e).plus(self.track_ang(e)).plus(self.upright(e)).plus(
            self.base_height(e),
        ).plus(self.pose(e)).plus(self.bilateral(e)).plus(self.action_rate(e)).plus(
            self.action_rate_hip(e),
        ).plus(self.body_ang_vel(e)).plus(self.lin_vel_z(e)).plus(self.dof_pos_limits(e)).plus(
            self.dof_vel(e),
        ).plus(self.air_time(e)).plus(self.flight(e)).plus(self.single_support(e)).plus(
            self.foot_slip(e),
        ).plus(self.foot_clearance(e)).plus(self.foot_orientation(e)).plus(
            self.feet_yaw_mean(e),
        ).plus(self.feet_distance(e))
    }

    /// Whether the robot of environment `e` has fallen: its base is at no finite height
    /// (the height minus itself is not zero), too low, or tilted too far.
    pub open spec fn fallen(self, e: int) -> bool {
        let p = self.params;
        let up = p.up as int;
        let h = self.height(e);
        ||| !h.minus(h).same(zero())
        ||| h.below(p.min_base_height)
        ||| self.base(e).rot.rotated(Vec3::only(up, one())).along(up).below(p.tilt_cos)
    }

    /// The reward of environment `e`: its terms, and the termination weight if it has
    /// fallen.
    pub open spec fn reward(self, e: int) -> R {
        if self.fallen(e) {
            self.terms(e).plus(self.params.w_termination)
        } else {
            self.terms(e)
        }
    }

    /// The fall flag of environment `e`.
    pub open spec fn fell(self, e: int) -> u32 {
        if self.fallen(e) {
            1
        } else {
            0
        }
    }
}

/// What the buffers must hold.
impl<'a, R: Scalar> RewardInputs<'a, R> {
    /// The poses hold both links of joint `k` of environment `e`, and the previous poses
    /// too where they are read.
    pub open spec fn has_joint(self, e: int, k: int) -> bool {
        let cfg = self.joint_cfg@[k];
        let (parent, child) = (cfg.parent_link as int, cfg.child_link as int);
        let (len, prev) = (self.poses@.len() as int, self.prev_poses@.len() as int);
        &&& has_rot(len, e, parent, self.cpb())
        &&& has_rot(len, e, child, self.cpb())
        &&& self.has_prev_joint_pos(e) ==> has_rot(prev, e, parent, self.cpb()) && has_rot(
            prev,
            e,
            child,
            self.cpb(),
        )
    }

    /// The poses hold both links of the mirror partner of joint `k`, if it has one.
    pub open spec fn has_partner(self, e: int, k: int) -> bool {
        let cfg = self.joint_cfg@[k];
        cfg.sym_active != 0 ==> {
            let mirror = self.joint_cfg@[cfg.sym_partner as int];
            &&& cfg.sym_partner < self.joint_cfg@.len()
            &&& has_rot(self.poses@.len() as int, e, mirror.parent_link as int, self.cpb())
            &&& has_rot(self.poses@.len() as int, e, mirror.child_link as int, self.cpb())
        }
    }

    /// The poses hold link `link` of environment `e`, and the previous poses too where
    /// they are read.
    pub open spec fn has_body(self, e: int, link: int) -> bool {
        &&& has_trans(self.poses@.len() as int, e, link, self.cpb())
        &&& self.has_prev_pose(e) ==> has_trans(
            self.prev_poses@.len() as int,
            e,
            link,
            self.cpb(),
        )
    }

    /// The inputs hold what the reward of environment `e` is computed from.
    pub open spec fn has_env(self, e: int) -> bool {
        &&& self.has_body(e, self.params.torso_link as int)
        &&& forall|k: int|
            0 <= k < self.joints() ==> #[trigger] self.has_joint(e, k) && self.has_partner(e, k)
        &&& forall|i: int| 0 <= i < self.feet() ==> self.has_body(e, #[trigger] self.foot_link(i))
    }

    /// The inputs have the documented shapes.
    pub open spec fn shaped(self) -> bool {
        &&& self.params.fwd < 3
        &&& self.params.lat < 3
        &&& self.params.up < 3
        &&& self.n() <= self.flags@.len()
        &&& self.joints() <= self.joint_cfg@.len()
        &&& 3 * self.n() <= self.cmd@.len()
        &&& 2 * self.joints() * self.n() <= self.action2@.len()
        &&& self.feet() * self.n() <= self.air_time_in@.len()
        &&& 3 * self.feet() * self.n() <= self.sole_local@.len()
    }

    /// The inputs hold what every environment of thread `x` needs.
    pub open spec fn ready(self, x: int) -> bool {
        &&& self.shaped()
        &&& forall|e: int| owns(x, self.n(), e) ==> #[trigger] self.has_env(e)
    }

    /// The inputs hold what every environment needs.
    pub open spec fn complete(self) -> bool {
        &&& self.shaped()
        &&& forall|e: int| 0 <= e < self.n() ==> #[trigger] self.has_env(e)
    }

    /// Output buffers of the given lengths hold the rewards, fall flags and air times.
    pub open spec fn outputs_fit(self, reward: int, fell: int, new_air: int) -> bool {
        &&& self.n() <= reward
        &&& self.n() <= fell
        &&& self.feet() * self.n() <= new_air
    }
}

/// Checks on the inputs.
impl<'a, R: Scalar> RewardInputs<'a, R> {
    /// Whether the poses hold both links of joint `k` of environment `e` and of its mirror
    /// partner.
    fn holds_joint(&self, e: u32, k: u32) -> (r: bool)
        requires
            e < self.n() <= self.flags@.len(),
            k < self.joints() <= self.joint_cfg@.len(),
        ensures
            r == (self.has_joint(e as int, k as int) && self.has_partner(e as int, k as int)),
    {
        let cpb: u32 = self.params.colliders_per_batch;
        let len: usize = self.poses.len();
        let prev: usize = self.prev_poses.len();
        let fl: u32 = load(self.flags, e as usize);
        let cfg = load(self.joint_cfg, k as usize);
        if !holds_rot(len, e, cfg.parent_link, cpb) || !holds_rot(len, e, cfg.child_link, cpb) {
            return false;
        }
        if (fl & 2) != 0 && (!holds_rot(prev, e, cfg.parent_link, cpb) || !holds_rot(
            prev,
            e,
            cfg.child_link,
            cpb,
        )) {
            return false;
        }
        if cfg.sym_active != 0 {
            if cfg.sym_partner as u64 >= self.joint_cfg.len() as u64 {
                return false;
            }
            let mirror = load(self.joint_cfg, cfg.sym_partner as usize);
            return holds_rot(len, e, mirror.parent_link, cpb) && holds_rot(
                len,
                e,
                mirror.child_link,
                cpb,
            );
        }
        true
    }

    /// Whether the poses hold link `link` of environment `e`.
    fn holds_body(&self, e: u32, link: u32) -> (r: bool)
        requires
            e < self.n() <= self.flags@.len(),
        ensures
            r == self.has_body(e as int, link as int),
    {
        let cpb: u32 = self.params.colliders_per_batch;
        let fl: u32 = load(self.flags, e as usize);
        holds_trans(self.poses.len(), e, link, cpb) && ((fl & 1) == 0 || holds_trans(
            self.prev_poses.len(),
            e,
            link,
            cpb,
        ))
    }

    /// Whether the inputs hold what the reward of environment `e` is computed from.
    fn holds_env(&self, e: u32) -> (r: bool)
        requires
            e < self.n() <= self.flags@.len(),
            self.joints() <= self.joint_cfg@.len(),
        ensures
            r == self.has_env(e as int),
    {
        let p = self.params;
        if !self.holds_body(e, p.torso_link) {
            return false;
        }
        if p.num_feet > 0 && !self.holds_body(e, p.foot_link0) {
            assert(!self.has_body(e as int, self.foot_link(0)));
            return false;
        }
        if p.num_feet > 1 && !self.holds_body(e, p.foot_link1) {
            assert(!self.has_body(e as int, self.foot_link(1)));
            return false;
        }
        let mut k: u32 = 0;
        while k < p.num_joints
            invariant
                k <= p.num_joints,
                p == self.params,
                e < self.n() <= self.flags@.len(),
                self.joints() <= self.joint_cfg@.len(),
                forall|i: int|
                    0 <= i < k ==> #[trigger] self.has_joint(e as int, i) && self.has_partner(
                        e as int,
                        i,
                    ),
            decreases p.num_joints - k,
        {
            if !self.holds_joint(e, k) {
                assert(!(self.has_joint(e as int, k as int) && self.has_partner(
                    e as int,
                    k as int,
                )));
                return false;
            }
            k = k + 1;
        }
        true
    }

    /// Whether the inputs have the documented shapes.
    fn is_shaped(&self) -> (r: bool)
        ensures
            r == self.shaped(),
    {
        let p = self.params;
        let n: u32 = p.num_envs;
        p.fwd < 3 && p.lat < 3 && p.up < 3 && n as u64 <= self.flags.len() as u64
            && p.num_joints as u64 <= self.joint_cfg.len() as u64 && matrix_fits(
            3,
            n,
            self.cmd.len(),
        ) && matrix_fits(2 * p.num_joints as u64, n, self.action2.len()) && matrix_fits(
            p.num_feet as u64,
            n,
            self.air_time_in.len(),
        ) && matrix_fits(3 * p.num_feet as u64, n, self.sole_local.len())
    }

    /// Whether the inputs hold what every environment of thread `x` needs.
    pub fn is_ready(&self, x: u32) -> (r: bool)
        ensures
            r == self.ready(x as int),
    {
        if !self.is_shaped() {
            return false;
        }
        let n: u32 = self.params.num_envs;
        let mut e: u64 = x as u64;
        while e < n as u64
            invariant
                n == self.n(),
                x <= e < 0x2_0000_0000,
                (e - x) % (MAX_NUM_THREADS as int) == 0,
                self.shaped(),
                forall|i: int| owns(x as int, n as int, i) && i < e ==> #[trigger] self.has_env(i),
            decreases n + MAX_NUM_THREADS - e,
        {
            proof {
                lemma_stride(x as int, n as int, e as int);
            }
            if !self.holds_env(e as u32) {
                assert(owns(x as int, n as int, e as int));
                return false;
            }
            e = e + MAX_NUM_THREADS as u64;
        }
        true
    }

    /// Whether the inputs hold what every environment needs.
    pub fn is_complete(&self) -> (r: bool)
        ensures
            r == self.complete(),
    {
        if !self.is_shaped() {
            return false;
        }
        let n: u32 = self.params.num_envs;
        let mut e: u32 = 0;
        while e < n
            invariant
                e <= n,
                n == self.n(),
                self.shaped(),
                forall|i: int| 0 <= i < e ==> #[trigger] self.has_env(i),
            decreases n - e,
        {
            if !self.holds_env(e) {
                return false;
            }
            e = e + 1;
        }
        true
    }

    /// Whether output buffers of the given lengths hold the rewards, fall flags and air
    /// times.
    pub fn outputs_are_fit(&self, reward: usize, fell: usize, new_air: usize) -> (r: bool)
        ensures
            r == self.outputs_fit(reward as int, fell as int, new_air as int),
    {
        let n: u32 = self.params.num_envs;
        n as u64 <= reward as u64 && n as u64 <= fell as u64 && matrix_fits(
            self.params.num_feet as u64,
            n,
            new_air,
        )
    }
}

/// Computes [`kernel_term`].
fn kernel<R: Scalar>(w: R, err: R, std: R, dt: R) -> (r: R)
    ensures
        r == kernel_term(w, err, std, dt),
{
    w.mul(err.neg().div(std.mul(std)).exp()).mul(dt)
}

/// The angle of a joint of environment `e` in the given poses.
fn cfg_angle<R: Scalar>(poses: &[R], e: usize, cpb: usize, cfg: &RewardJointCfg<R>) -> (theta: R)
    requires
        has_rot(poses@.len() as int, e as int, cfg.parent_link as int, cpb as int),
        has_rot(poses@.len() as int, e as int, cfg.child_link as int, cpb as int),
    ensures
        theta == hinge_angle(
            poses@,
            e as int,
            cpb as int,
            cfg.parent_link as int,
            cfg.child_link as int,
            Quat::of(cfg.rest_quat@),
        ),
{
    let rest = Quat {
        x: cfg.rest_quat[0],
        y: cfg.rest_quat[1],
        z: cfg.rest_quat[2],
        w: cfg.rest_quat[3],
    };
    joint_angle(poses, e, cpb, cfg.parent_link as usize, cfg.child_link as usize, rest)
}

/// The command of an environment.
struct Command<R> {
    vx: R,
    vy: R,
    yaw: R,
}

/// Reads the command of environment `e`.
fn command<R: Scalar>(inputs: &RewardInputs<R>, e: usize) -> (c: Command<R>)
    requires
        inputs.shaped(),
        inputs.has_env(e as int),
        e < inputs.n(),
    ensures
        c.vx == inputs.cmd_vx(e as int),
        c.vy == inputs.cmd_vy(e as int),
        c.yaw == inputs.cmd_yaw(e as int),
{
    let n: usize = inputs.params.num_envs as usize;
    proof {
        lemma_cell_in(0, 3, n as int, e as int, inputs.cmd@.len() as int);
        lemma_cell_in(1, 3, n as int, e as int, inputs.cmd@.len() as int);
        lemma_cell_in(2, 3, n as int, e as int, inputs.cmd@.len() as int);
    }
    Command {
        vx: get(inputs.cmd, 0, n, e),
        vy: get(inputs.cmd, 1, n, e),
        yaw: get(inputs.cmd, 2, n, e),
    }
}

/// Whether the command of environment `e` is to stand.
fn is_standing<R: Scalar>(inputs: &RewardInputs<R>, e: usize) -> (r: bool)
    requires
        inputs.shaped(),
        inputs.has_env(e as int),
        e < inputs.n(),
    ensures
        r == inputs.standing(e as int),
{
    let c = command(inputs, e);
    let speed = c.vx.mul(c.vx).add(c.vy.mul(c.vy)).add(c.yaw.mul(c.yaw)).sqrt();
    speed.lt(inputs.params.standing_speed)
}

/// The terms of the base and the command.
struct BaseTerms<R> {
    track_lin: R,
    track_ang: R,
    upright: R,
    base_height: R,
    body_ang_vel: R,
    lin_vel_z: R,
}

/// Computes the terms of the base and the command of environment `e`.
fn base_terms<R: Scalar>(
    inputs: &RewardInputs<R>,
    e: usize,
    motion: &BaseMotion<R>,
) -> (t: BaseTerms<R>)
    requires
        inputs.shaped(),
        inputs.has_env(e as int),
        e < inputs.n(),
        *motion == inputs.base(e as int),
    ensures
        t.track_lin == inputs.track_lin(e as int),
        t.track_ang == inputs.track_ang(e as int),
        t.upright == inputs.upright(e as int),
        t.base_height == inputs.base_height(e as int),
        t.body_ang_vel == inputs.body_ang_vel(e as int),
        t.lin_vel_z == inputs.lin_vel_z(e as int),
{
    let p = inputs.params;
    let (fwd, lat, up): (usize, usize, usize) = (p.fwd as usize, p.lat as usize, p.up as usize);
    let dt = p.control_dt;
    let v = quat_rotate_inv(motion.rot, motion.lin);
    let w = quat_rotate_inv(motion.rot, motion.ang);
    let grav = quat_rotate_inv(motion.rot, down_basis(up));
    let c = command(inputs, e);

    let dx = c.vx.sub(component(v, fwd));
    let dy = c.vy.sub(component(v, lat));
    let lin_err = dx.mul(dx).add(dy.mul(dy));
    let dw = c.yaw.sub(component(w, up));
    let gf = component(grav, fwd);
    let gl = component(grav, lat);
    let dh = component(motion.pos, up).sub(p.base_height_target);
    let wf = component(w, fwd);
    let wl = component(w, lat);
    let vz = component(v, up);
    BaseTerms {
        track_lin: kernel(p.w_track_lin, lin_err, p.std_lin_vel, dt),
        track_ang: kernel(p.w_track_ang, dw.mul(dw), p.std_ang_vel, dt),
        upright: kernel(p.w_upright, gf.mul(gf).add(gl.mul(gl)), p.std_upright, dt),
        base_height: kernel(p.w_base_height, dh.mul(dh), p.std_base_height, dt),
        body_ang_vel: p.w_body_ang_vel.mul(wf.mul(wf).add(wl.mul(wl))).mul(dt),
        lin_vel_z: p.w_lin_vel_z.mul(vz).mul(vz).mul(dt),
    }
}

/// The terms of the joints.
struct JointTerms<R> {
    pose: R,
    bilateral: R,
    action_rate: R,
    action_rate_hip: R,
    dof_pos_limits: R,
    dof_vel: R,
}

/// The quantities of one joint that the terms add up.
struct JointShare<R> {
    deviation: R,
    asymmetry: R,
    excess: R,
    vel_sq: R,
    action_change: R,
}

/// Computes the quantities of joint `k` of environment `e`. The asymmetry is that of a
/// joint with a mirror partner, and zero for another.
fn joint_share<R: Scalar>(
    inputs: &RewardInputs<R>,
    e: usize,
    k: usize,
    cfg: &RewardJointCfg<R>,
    has_prev: bool,
) -> (s: JointShare<R>)
    requires
        inputs.shaped(),
        inputs.has_env(e as int),
        e < inputs.n(),
        k < inputs.joints(),
        *cfg == inputs.joint_cfg@[k as int],
        has_prev == inputs.has_prev_joint_pos(e as int),
    ensures
        s.deviation == inputs.deviation(e as int, k as int),
        cfg.sym_active != 0 ==> s.asymmetry == inputs.asymmetry(e as int, k as int),
        s.excess == inputs.excess(e as int, k as int),
        s.vel_sq == square(inputs.joint_vel(e as int, k as int)),
        s.action_change == inputs.action_change(e as int, k as int),
{
    let p = inputs.params;
    let n: usize = p.num_envs as usize;
    let j: usize = p.num_joints as usize;
    let cpb: usize = p.colliders_per_batch as usize;
    let dt = p.control_dt;
    proof {
        let len = inputs.action2@.len() as int;
        assert(inputs.has_joint(e as int, k as int));
        lemma_rows_bounded(2 * j, n as int, len);
        assert(inputs.action2@.len() == inputs.action2.len());
        lemma_cell_in(k as int, 2 * j, n as int, e as int, len);
        lemma_cell_in(j + k, 2 * j, n as int, e as int, len);
    }
    let q = cfg_angle(inputs.poses, e, cpb, cfg);
    let d = q.sub(cfg.default_pos);
    let asymmetry = if cfg.sym_active != 0 {
        let partner = load(inputs.joint_cfg, cfg.sym_partner as usize);
        let qr = cfg_angle(inputs.poses, e, cpb, &partner);
        let de = q.sub(cfg.sym_sign.mul(qr));
        de.mul(de)
    } else {
        R::from_bits(ZERO)
    };
    let hi = cfg.pos_hi.mul(p.limit_scale);
    let lo = cfg.pos_lo.mul(p.limit_scale);
    let z = R::from_bits(ZERO);
    let excess = q.sub(hi).max(z).add(lo.sub(q).max(z));
    let jv = if has_prev {
        q.sub(cfg_angle(inputs.prev_poses, e, cpb, cfg)).div(dt)
    } else {
        z
    };
    let la = get(inputs.action2, k, n, e);
    let pa = get(inputs.action2, j + k, n, e);
    let da = la.sub(pa);
    JointShare {
        deviation: d.mul(d),
        asymmetry,
        excess,
        vel_sq: jv.mul(jv),
        action_change: da.mul(da),
    }
}

/// Computes the terms of the joints of environment `e`.
fn joint_terms<R: Scalar>(inputs: &RewardInputs<R>, e: usize, standing: bool) -> (t: JointTerms<
    R,
>)
    requires
        inputs.shaped(),
        inputs.has_env(e as int),
        e < inputs.n(),
        standing == inputs.standing(e as int),
    ensures
        t.pose == inputs.pose(e as int),
        t.bilateral == inputs.bilateral(e as int),
        t.action_rate == inputs.action_rate(e as int),
        t.action_rate_hip == inputs.action_rate_hip(e as int),
        t.dof_pos_limits == inputs.dof_pos_limits(e as int),
        t.dof_vel == inputs.dof_vel(e as int),
{
    let p = inputs.params;
    let j: usize = p.num_joints as usize;
    let dt = p.control_dt;
    let has_prev = (load(inputs.flags, e) & 2) != 0;
    let mut pose_err = R::from_bits(ZERO);
    let mut sym_err = R::from_bits(ZERO);
    let mut lim_pen = R::from_bits(ZERO);
    let mut vel_sq = R::from_bits(ZERO);
    let mut act_sq = R::from_bits(ZERO);
    let mut act_sq_hip = R::from_bits(ZERO);
    let mut k: usize = 0;
    while k < j
        invariant
            k <= j,
            j == inputs.joints(),
            inputs.shaped(),
            inputs.has_env(e as int),
            e < inputs.n(),
            has_prev == inputs.has_prev_joint_pos(e as int),
            pose_err == inputs.pose_err(e as int, k as int),
            sym_err == inputs.sym_err(e as int, k as int),
            lim_pen == inputs.lim_pen(e as int, k as int),
            vel_sq == inputs.vel_sq(e as int, k as int),
            act_sq == inputs.act_sq(e as int, k as int),
            act_sq_hip == inputs.act_sq_hip(e as int, k as int),
        decreases j - k,
    {
        let cfg = load(inputs.joint_cfg, k);
        let s = joint_share(inputs, e, k, &cfg, has_prev);
        pose_err = pose_err.add(s.deviation);
        if cfg.sym_active != 0 {
            sym_err = sym_err.add(s.asymmetry);
        }
        lim_pen = lim_pen.add(s.excess);
        vel_sq = vel_sq.add(s.vel_sq);
        act_sq = act_sq.add(s.action_change);
        if cfg.is_hip != 0 {
            act_sq_hip = act_sq_hip.add(s.action_change);
        }
        k = k + 1;
    }
    let pose = if standing {
        kernel(p.w_pose, pose_err, p.std_pose, dt)
    } else {
        R::from_bits(ZERO)
    };
    JointTerms {
        pose,
        bilateral: p.w_bilateral.mul(sym_err.neg().exp()).mul(dt),
        action_rate: p.w_action_rate.mul(act_sq).mul(dt),
        action_rate_hip: p.w_action_rate_hip.mul(act_sq_hip).mul(dt),
        dof_pos_limits: p.w_dof_pos_limits.mul(lim_pen).mul(dt),
        dof_vel: p.w_dof_vel.mul(vel_sq).mul(dt),
    }
}

/// The terms of the feet.
struct FeetTerms<R> {
    air_time: R,
    flight: R,
    single_support: R,
    foot_slip: R,
    foot_clearance: R,
    foot_orientation: R,
    feet_yaw_mean: R,
    feet_distance: R,
}

/// What one foot does.
struct Foot<R> {
    contact: bool,
    first_contact: bool,
    new_air: R,
    landed_air: R,
    speed: R,
    clearance: R,
    tilt: R,
    yaw: R,
}

/// The link of foot `i`.
fn link_of<R: Scalar>(p: &RewardParams<R>, i: usize) -> (link: usize)
    ensures
        link == if i == 0 {
            p.foot_link0
        } else {
            p.foot_link1
        },
{
    if i == 0 {
        p.foot_link0 as usize
    } else {
        p.foot_link1 as usize
    }
}

/// Reads the sole normal of foot `i` of environment `e`.
fn sole_of<R: Scalar>(inputs: &RewardInputs<R>, e: usize, i: usize) -> (v: Vec3<R>)
    requires
        inputs.shaped(),
        inputs.has_env(e as int),
        e < inputs.n(),
        i < inputs.feet(),
    ensures
        v == inputs.sole(e as int, i as int),
{
    let n: usize = inputs.params.num_envs as usize;
    proof {
        let rows = 3 * inputs.feet();
        let len = inputs.sole_local@.len() as int;
        lemma_rows_bounded(rows, n as int, len);
        assert(inputs.sole_local@.len() == inputs.sole_local.len());
        lemma_cell_in(i * 3, rows, n as int, e as int, len);
        lemma_cell_in(i * 3 + 1, rows, n as int, e as int, len);
        lemma_cell_in(i * 3 + 2, rows, n as int, e as int, len);
    }
    Vec3 {
        x: get(inputs.sole_local, i * 3, n, e),
        y: get(inputs.sole_local, i * 3 + 1, n, e),
        z: get(inputs.sole_local, i * 3 + 2, n, e),
    }
}

/// Works out what foot `i` of environment `e` does.
fn foot<R: Scalar>(
    inputs: &RewardInputs<R>,
    e: usize,
    i: usize,
    base_rot_inv: Quat<R>,
    has_prev: bool,
) -> (f: Foot<R>)
    requires
        inputs.shaped(),
        inputs.has_env(e as int),
        e < inputs.n(),
        i < inputs.feet(),
        base_rot_inv == inputs.base(e as int).rot.conjugate(),
        has_prev == inputs.has_prev_pose(e as int),
    ensures
        f.contact == inputs.contact(e as int, i as int),
        f.first_contact == inputs.first_contact(e as int, i as int),
        f.new_air == inputs.new_air(e as int, i as int),
        f.landed_air == inputs.landed_air(e as int, i as int),
        f.speed == inputs.foot_speed(e as int, i as int),
        f.clearance == inputs.clearance(e as int, i as int),
        f.tilt == inputs.foot_tilt(e as int, i as int),
        f.yaw == inputs.foot_yaw(e as int, i as int),
{
    let p = inputs.params;
    let n: usize = p.num_envs as usize;
    let cpb: usize = p.colliders_per_batch as usize;
    let dt = p.control_dt;
    let link: usize = link_of(p, i);
    proof {
        assert(inputs.has_body(e as int, inputs.foot_link(i as int)));
        lemma_cell_in(
            i as int,
            inputs.feet(),
            n as int,
            e as int,
            inputs.air_time_in@.len() as int,
        );
    }
    let pos = pose_trans(inputs.poses, e, link, cpb);
    let rot = pose_rot(inputs.poses, e, link, cpb);
    let z = R::from_bits(ZERO);
    let one = R::from_bits(ONE);
    let speed = if has_prev {
        let before = pose_trans(inputs.prev_poses, e, link, cpb);
        let dx = pos.x.sub(before.x).div(dt);
        let dy = pos.y.sub(before.y).div(dt);
        dx.mul(dx).add(dy.mul(dy)).sqrt()
    } else {
        z
    };
    let normal = quat_rotate(rot, sole_of(inputs, e, i));
    let tilt = normal.z.abs().min(one).max(z).acos();
    let toe = quat_rotate(quat_mul(base_rot_inv, rot), Vec3 { x: one, y: z, z });
    let yaw = toe.y.atan2(toe.x);
    let contact = pos.z.lt(p.contact_z);
    let prev_air = get(inputs.air_time_in, i, n, e);
    let first_contact = contact && z.lt(prev_air);
    let new_air = if contact {
        z
    } else {
        prev_air.add(dt)
    };
    let landed_air = if prev_air.lt(p.air_cap) {
        prev_air
    } else {
        p.air_cap
    };
    let dz = pos.z.sub(p.foot_clearance_target);
    let clearance = dz.mul(dz).mul(speed);
    Foot { contact, first_contact, new_air, landed_air, speed, clearance, tilt, yaw }
}

/// Computes the lateral-distance term of environment `e`.
fn feet_distance<R: Scalar>(inputs: &RewardInputs<R>, e: usize, r: Quat<R>) -> (t: R)
    requires
        inputs.shaped(),
        inputs.has_env(e as int),
        e < inputs.n(),
        r == inputs.base(e as int).rot,
    ensures
        t == inputs.feet_distance(e as int),
{
    let p = inputs.params;
    if p.num_feet == 2 {
        proof {
            assert(inputs.has_body(e as int, inputs.foot_link(0)));
            assert(inputs.has_body(e as int, inputs.foot_link(1)));
        }
        let cpb: usize = p.colliders_per_batch as usize;
        let a = pose_trans(inputs.poses, e, p.foot_link0 as usize, cpb);
        let b = pose_trans(inputs.poses, e, p.foot_link1 as usize, cpb);
        let dx = a.x.sub(b.x);
        let dy = a.y.sub(b.y);
        let two = R::from_bits(TWO);
        let sin_yaw = two.mul(r.w.mul(r.z).add(r.x.mul(r.y)));
        let cos_yaw = R::from_bits(ONE).sub(two.mul(r.y.mul(r.y).add(r.z.mul(r.z))));
        let base_yaw = sin_yaw.atan2(cos_yaw);
        let cy = base_yaw.cos();
        let sy = base_yaw.sin();
        let lateral = sy.neg().mul(dx).add(cy.mul(dy));
        let err = lateral.abs().sub(p.feet_distance_ref);
        p.w_feet_distance.mul(err.abs()).mul(p.control_dt)
    } else {
        R::from_bits(ZERO)
    }
}

/// Computes the terms of the feet of environment `e`, and writes the new air times.
fn feet_terms<R: Scalar>(
    inputs: &RewardInputs<R>,
    e: usize,
    motion: &BaseMotion<R>,
    standing: bool,
    new_air: &mut [R],
) -> (t: FeetTerms<R>)
    requires
        inputs.shaped(),
        inputs.has_env(e as int),
        e < inputs.n(),
        *motion == inputs.base(e as int),
        standing == inputs.standing(e as int),
        inputs.feet() * inputs.n() <= old(new_air)@.len(),
    ensures
        t.air_time == inputs.air_time(e as int),
        t.flight == inputs.flight(e as int),
        t.single_support == inputs.single_support(e as int),
        t.foot_slip == inputs.foot_slip(e as int),
        t.foot_clearance == inputs.foot_clearance(e as int),
        t.foot_orientation == inputs.foot_orientation(e as int),
        t.feet_yaw_mean == inputs.feet_yaw_mean(e as int),
        t.feet_distance == inputs.feet_distance(e as int),
        final(new_air)@ == with_column(
            old(new_air)@,
            inputs.n(),
            e as int,
            inputs.air_times(e as int),
        ),
{
    let p = inputs.params;
    let n: usize = p.num_envs as usize;
    let dt = p.control_dt;
    let has_prev = (load(inputs.flags, e) & 1) != 0;
    let base_rot_inv = quat_conj(motion.rot);
    let ghost air0 = new_air@;
    let ghost air = inputs.air_times(e as int);
    proof {
        lemma_rows_bounded(inputs.feet(), n as int, air0.len() as int);
        assert(new_air@.len() == new_air.len());
        lemma_no_rows(air0, n as int, e as int);
        assert(air.take(0) =~= Seq::empty());
    }
    let mut air_sum = R::from_bits(ZERO);
    let mut all_air = true;
    let mut contacts: u32 = 0;
    let mut slip = R::from_bits(ZERO);
    let mut clr = R::from_bits(ZERO);
    let mut tilt_sq = R::from_bits(ZERO);
    let mut yaw_sq = R::from_bits(ZERO);
    let mut i: u32 = 0;
    while i < p.num_feet
        invariant
            i <= p.num_feet,
            p == inputs.params,
            n == inputs.n(),
            e < n,
            p.num_feet <= usize::MAX,
            inputs.shaped(),
            inputs.has_env(e as int),
            inputs.feet() * n <= air0.len(),
            has_prev == inputs.has_prev_pose(e as int),
            base_rot_inv == inputs.base(e as int).rot.conjugate(),
            air == inputs.air_times(e as int),
            new_air@ == with_column(air0, n as int, e as int, air.take(i as int)),
            air_sum == inputs.air_sum(e as int, i as int),
            all_air == inputs.all_air(e as int, i as int),
            contacts == inputs.contacts(e as int, i as int),
            contacts <= i,
            slip == inputs.slip(e as int, i as int),
            clr == inputs.clr(e as int, i as int),
            tilt_sq == inputs.tilt_sq(e as int, i as int),
            yaw_sq == inputs.yaw_sq(e as int, i as int),
        decreases p.num_feet - i,
    {
        let f = foot(inputs, e, i as usize, base_rot_inv, has_prev);
        proof {
            lemma_cell_in(i as int, inputs.feet(), n as int, e as int, air0.len() as int);
            assert(f.new_air == air[i as int]);
            assert(air.take(i as int).push(f.new_air) =~= air.take(i + 1));
            assert(inputs.all_air(e as int, i + 1) == (inputs.all_air(e as int, i as int)
                && !f.contact));
        }
        put_row(new_air, i as usize, n, e, f.new_air, Ghost(air0), Ghost(air.take(i as int)));
        if f.contact {
            contacts = contacts + 1;
            slip = slip.add(f.speed.mul(f.speed));
            tilt_sq = tilt_sq.add(f.tilt.mul(f.tilt));
            all_air = false;
        } else {
            clr = clr.add(f.clearance);
        }
        if f.first_contact {
            air_sum = air_sum.add(f.landed_air);
        }
        yaw_sq = yaw_sq.add(f.yaw.mul(f.yaw));
        i = i + 1;
    }
    proof {
        assert(air.take(inputs.feet()) =~= air);
    }
    let z = R::from_bits(ZERO);
    let air_time = if !standing {
        p.w_air_time.mul(air_sum).mul(dt)
    } else {
        z
    };
    let flight = if all_air {
        p.w_flight.mul(dt)
    } else {
        z
    };
    let single_support = if !standing && contacts == 1 {
        p.w_single_support.mul(dt)
    } else {
        z
    };
    FeetTerms {
        air_time,
        flight,
        single_support,
        foot_slip: p.w_foot_slip.mul(slip).mul(dt),
        foot_clearance: p.w_foot_clearance.mul(clr).mul(dt),
        foot_orientation: p.w_foot_orientation.mul(tilt_sq).mul(dt),
        feet_yaw_mean: p.w_feet_yaw_mean.mul(yaw_sq).mul(dt),
        feet_distance: feet_distance(inputs, e, motion.rot),
    }
}

/// Evaluates environment `e`: its reward, its fall flag and its air times.
fn reward_env<R: Scalar>(
    inputs: &RewardInputs<R>,
    e: usize,
    reward: &mut [R],
    fell: &mut [u32],
    new_air: &mut [R],
)
    requires
        inputs.shaped(),
        inputs.has_env(e as int),
        e < inputs.n(),
        inputs.outputs_fit(
            old(reward)@.len() as int,
            old(fell)@.len() as int,
            old(new_air)@.len() as int,
        ),
    ensures
        final(reward)@ == with_column(
            old(reward)@,
            inputs.n(),
            e as int,
            seq![inputs.reward(e as int)],
        ),
        final(fell)@ == with_column(
            old(fell)@,
            inputs.n(),
            e as int,
            seq![inputs.fell(e as int)],
        ),
        final(new_air)@ == with_column(
            old(new_air)@,
            inputs.n(),
            e as int,
            inputs.air_times(e as int),
        ),
{
    let p = inputs.params;
    let n: usize = p.num_envs as usize;
    let up: usize = p.up as usize;
    let ghost reward0 = reward@;
    let ghost fell0 = fell@;
    proof {
        lemma_no_rows(reward0, n as int, e as int);
        lemma_no_rows(fell0, n as int, e as int);
    }
    let has_prev_pose = (load(inputs.flags, e) & 1) != 0;
    let motion = base_motion(
        inputs.poses,
        inputs.prev_poses,
        e,
        p.torso_link as usize,
        p.colliders_per_batch as usize,
        has_prev_pose,
        p.control_dt,
    );
    let standing = is_standing(inputs, e);
    let b = base_terms(inputs, e, &motion);
    let j = joint_terms(inputs, e, standing);
    let f = feet_terms(inputs, e, &motion, standing, new_air);
    let mut total = b.track_lin.add(b.track_ang).add(b.upright).add(b.base_height).add(
        j.pose,
    ).add(j.bilateral).add(j.action_rate).add(j.action_rate_hip).add(b.body_ang_vel).add(
        b.lin_vel_z,
    ).add(j.dof_pos_limits).add(j.dof_vel).add(f.air_time).add(f.flight).add(
        f.single_support,
    ).add(f.foot_slip).add(f.foot_clearance).add(f.foot_orientation).add(f.feet_yaw_mean).add(
        f.feet_distance,
    );
    let height = component(motion.pos, up);
    let upright_cos = component(quat_rotate(motion.rot, up_basis(up)), up);
    let non_finite = !height.sub(height).eq(R::from_bits(ZERO));
    let fallen = non_finite || height.lt(p.min_base_height) || upright_cos.lt(p.tilt_cos);
    let mut flag: u32 = 0;
    if fallen {
        total = total.add(p.w_termination);
        flag = 1;
    }
    put_row(fell, 0, n, e, flag, Ghost(fell0), Ghost(Seq::empty()));
    put_row(reward, 0, n, e, total, Ghost(reward0), Ghost(Seq::empty()));
    proof {
        assert(Seq::empty().push(flag) =~= seq![inputs.fell(e as int)]);
        assert(Seq::empty().push(total) =~= seq![inputs.reward(e as int)]);
    }
}

/// Evaluates the step reward of every environment of a thread, termination included.
///
/// Also writes whether each environment has fallen, and the air times of its feet, to be
/// handed in as the next step's `air_time_in`.
pub fn gpu_reward<R: Scalar>(
    invocation_id: InvocationId,
    p: &RewardParams<R>,
    poses: &[R],
    prev_poses: &[R],
    joint_cfg: &[RewardJointCfg<R>],
    cmd: &[R],
    action2: &[R],
    air_time_in: &[R],
    sole_local: &[R],
    flags: &[u32],
    reward: &mut [R],
    fell: &mut [u32],
    new_air: &mut [R],
)
    requires
        invocation_id.x < p.num_envs ==> ({
            let inputs = RewardInputs {
                params: p,
                poses,
                prev_poses,
                joint_cfg,
                cmd,
                action2,
                air_time_in,
                sole_local,
                flags,
            };
            &&& inputs.ready(invocation_id.x as int)
            &&& inputs.outputs_fit(
                old(reward)@.len() as int,
                old(fell)@.len() as int,
                old(new_air)@.len() as int,
            )
        }),
    ensures
        ({
            let inputs = RewardInputs {
                params: p,
                poses,
                prev_poses,
                joint_cfg,
                cmd,
                action2,
                air_time_in,
                sole_local,
                flags,
            };
            let (n, x) = (p.num_envs as int, invocation_id.x as int);
            &&& final(reward)@ == after_thread(
                old(reward)@,
                n,
                x,
                |e: int| seq![inputs.reward(e)],
            )
            &&& final(fell)@ == after_thread(old(fell)@, n, x, |e: int| seq![inputs.fell(e)])
            &&& final(new_air)@ == after_thread(
                old(new_air)@,
                n,
                x,
                |e: int| inputs.air_times(e),
            )
        }),
{
    let inputs = RewardInputs {
        params: p,
        poses,
        prev_poses,
        joint_cfg,
        cmd,
        action2,
        air_time_in,
        sole_local,
        flags,
    };
    let ghost n = p.num_envs as int;
    let ghost x = invocation_id.x as int;
    let ghost reward0 = reward@;
    let ghost fell0 = fell@;
    let ghost air0 = new_air@;
    let ghost value = |e: int| seq![inputs.reward(e)];
    let ghost flag = |e: int| seq![inputs.fell(e)];
    let ghost air = |e: int| inputs.air_times(e);
    proof {
        lemma_thread_start(reward0, n, x, value);
        lemma_thread_start(fell0, n, x, flag);
        lemma_thread_start(air0, n, x, air);
    }
    let mut e: u64 = invocation_id.x as u64;
    while e < p.num_envs as u64
        invariant
            x == invocation_id.x,
            n == p.num_envs,
            n == inputs.n(),
            x <= e < 0x2_0000_0000,
            (e - x) % (MAX_NUM_THREADS as int) == 0,
            x < n ==> inputs.ready(x) && inputs.outputs_fit(
                reward0.len() as int,
                fell0.len() as int,
                air0.len() as int,
            ),
            value == (|e: int| seq![inputs.reward(e)]),
            flag == (|e: int| seq![inputs.fell(e)]),
            air == (|e: int| inputs.air_times(e)),
            reward@ == within_thread(reward0, n, x, e as int, value),
            fell@ == within_thread(fell0, n, x, e as int, flag),
            new_air@ == within_thread(air0, n, x, e as int, air),
        decreases p.num_envs + MAX_NUM_THREADS - e,
    {
        proof {
            assert(owns(x, n, e as int));
            lemma_stride(x, n, e as int);
            lemma_thread_step(reward0, n, x, e as int, value);
            lemma_thread_step(fell0, n, x, e as int, flag);
            lemma_thread_step(air0, n, x, e as int, air);
        }
        reward_env(&inputs, e as usize, reward, fell, new_air);
        e = e + MAX_NUM_THREADS as u64;
    }
    proof {
        lemma_thread_end(reward0, n, x, e as int, value);
        lemma_thread_end(fell0, n, x, e as int, flag);
        lemma_thread_end(air0, n, x, e as int, air);
    }
}

/// Step-reward evaluation for all environments, launched on the host.
#[derive(Clone, Copy, Debug)]
pub struct Reward {}

impl Reward {
    /// Evaluates the reward of all environments: runs one thread per environment, rounded
    /// up to whole workgroups, one after the other.
    pub fn evaluate<R: Scalar>(
        &self,
        params: &RewardParams<R>,
        poses: &[R],
        prev_poses: &[R],
        joint_cfg: &[RewardJointCfg<R>],
        cmd: &[R],
        action2: &[R],
        air_time_in: &[R],
        sole_local: &[R],
        flags: &[u32],
        reward: &mut [R],
        fell: &mut [u32],
        new_air: &mut [R],
    )
        requires
            0 < params.num_envs ==> ({
                let inputs = RewardInputs {
                    params,
                    poses,
                    prev_poses,
                    joint_cfg,
                    cmd,
                    action2,
                    air_time_in,
                    sole_local,
                    flags,
                };
                &&& inputs.complete()
                &&& inputs.outputs_fit(
                    old(reward)@.len() as int,
                    old(fell)@.len() as int,
                    old(new_air)@.len() as int,
                )
            }),
        ensures
            ({
                let inputs = RewardInputs {
                    params,
                    poses,
                    prev_poses,
                    joint_cfg,
                    cmd,
                    action2,
                    air_time_in,
                    sole_local,
                    flags,
                };
                let n = params.num_envs as int;
                &&& final(reward)@ == after_launch(
                    old(reward)@,
                    n,
                    |e: int| seq![inputs.reward(e)],
                )
                &&& final(fell)@ == after_launch(old(fell)@, n, |e: int| seq![inputs.fell(e)])
                &&& final(new_air)@ == after_launch(
                    old(new_air)@,
                    n,
                    |e: int| inputs.air_times(e),
                )
            }),
    {
        let ghost inputs = RewardInputs {
            params,
            poses,
            prev_poses,
            joint_cfg,
            cmd,
            action2,
            air_time_in,
            sole_local,
            flags,
        };
        let ghost n = params.num_envs as int;
        let ghost reward0 = reward@;
        let ghost fell0 = fell@;
        let ghost air0 = new_air@;
        let ghost value = |e: int| seq![inputs.reward(e)];
        let ghost flag = |e: int| seq![inputs.fell(e)];
        let ghost air = |e: int| inputs.air_times(e);
        let total: u64 = threads_started(params.num_envs);
        proof {
            lemma_threads_start(reward0, n, value);
            lemma_threads_start(fell0, n, flag);
            lemma_threads_start(air0, n, air);
        }
        let mut x: u64 = 0;
        while x < total
            invariant
                x <= total <= 0x1_0000_0000,
                n == params.num_envs,
                inputs == (RewardInputs {
                    params,
                    poses,
                    prev_poses,
                    joint_cfg,
                    cmd,
                    action2,
                    air_time_in,
                    sole_local,
                    flags,
                }),
                0 < n ==> inputs.complete() && inputs.outputs_fit(
                    reward0.len() as int,
                    fell0.len() as int,
                    air0.len() as int,
                ),
                value == (|e: int| seq![inputs.reward(e)]),
                flag == (|e: int| seq![inputs.fell(e)]),
                air == (|e: int| inputs.air_times(e)),
                reward@ == after_threads(reward0, n, x as int, value),
                fell@ == after_threads(fell0, n, x as int, flag),
                new_air@ == after_threads(air0, n, x as int, air),
            decreases total - x,
        {
            proof {
                lemma_threads_step(reward0, n, x as int, value, value);
                lemma_threads_step(fell0, n, x as int, flag, flag);
                lemma_threads_step(air0, n, x as int, air, air);
            }
            let id = InvocationId { x: x as u32, y: 0, z: 0 };
            gpu_reward(
                id,
                params,
                poses,
                prev_poses,
                joint_cfg,
                cmd,
                action2,
                air_time_in,
                sole_local,
                flags,
                reward,
                fell,
                new_air,
            );
            x = x + 1;
        }
        proof {
            lemma_threads_end(reward0, n, n, value);
            lemma_threads_end(fell0, n, n, flag);
            lemma_threads_end(air0, n, n, air);
        }
    }
}

/// The fall flag is one for an environment that has fallen and zero for any other, and the
/// termination weight is paid exactly where the flag is one.
pub proof fn law_termination_paid_on_fall<R: Scalar>(inputs: RewardInputs<R>, e: int)
    ensures
        inputs.fell(e) == 0 || inputs.fell(e) == 1,
        inputs.fell(e) == 1 <==> inputs.fallen(e),
        inputs.fell(e) == 1 ==> inputs.reward(e) == inputs.terms(e).plus(
            inputs.params.w_termination,
        ),
        inputs.fell(e) == 0 ==> inputs.reward(e) == inputs.terms(e),
{
}

/// A base whose height is not finite, in the sense that the height minus itself is not
/// zero, has fallen, whatever the thresholds are.
pub proof fn law_non_finite_height_falls<R: Scalar>(inputs: RewardInputs<R>, e: int)
    requires
        !inputs.height(e).minus(inputs.height(e)).same(zero()),
    ensures
        inputs.fell(e) == 1,
{
}

/// No foot is counted as touching the ground exactly where all feet are in the air.
pub proof fn law_contacts_and_flight<R: Scalar>(inputs: RewardInputs<R>, e: int, i: int)
    requires
        0 <= i,
    ensures
        0 <= inputs.contacts(e, i) <= i,
        inputs.all_air(e, i) <==> inputs.contacts(e, i) == 0,
    decreases i,
{
    if 0 < i {
        law_contacts_and_flight(inputs, e, i - 1);
        assert(inputs.all_air(e, i) == (inputs.all_air(e, i - 1) && !inputs.contact(e, i - 1)));
    }
}

/// The flight penalty and the single-support reward never come together: at most one of
/// the two differs from zero.
pub proof fn law_flight_excludes_single_support<R: Scalar>(inputs: RewardInputs<R>, e: int)
    ensures
        inputs.flight(e) == zero::<R>() || inputs.single_support(e) == zero::<R>(),
{
    law_contacts_and_flight(inputs, e, inputs.feet());
}

/// Standing pays for the default pose and for no gait; moving pays for the gait and for no
/// pose.
pub proof fn law_standing_and_moving<R: Scalar>(inputs: RewardInputs<R>, e: int)
    ensures
        inputs.standing(e) ==> inputs.air_time(e) == zero::<R>() && inputs.single_support(e)
            == zero::<R>(),
        !inputs.standing(e) ==> inputs.pose(e) == zero::<R>(),
{
}

/// The air times that one step writes are those that the next step starts from: zero for a
/// foot that touched the ground, one timestep more for a foot in the air.
pub proof fn law_air_time_feeds_next_step<R: Scalar>(
    now: RewardInputs<R>,
    next: RewardInputs<R>,
    buf: Seq<R>,
    e: int,
    i: int,
)
    requires
        next.n() == now.n(),
        0 <= e < now.n(),
        0 <= i < now.feet(),
        now.feet() * now.n() <= buf.len(),
        next.air_time_in@ == after_launch(buf, now.n(), |c: int| now.air_times(c)),
    ensures
        now.contact(e, i) ==> next.prev_air(e, i) == zero::<R>(),
        !now.contact(e, i) ==> next.prev_air(e, i) == now.prev_air(e, i).plus(now.dt()),
{
    lemma_cell(i, now.n(), e);
    lemma_cell_in(i, now.feet(), now.n(), e, buf.len() as int);
}

/// A landing is paid for only after time in the air: a foot that touched the ground in the
/// step before is not paid for touching it again, in arithmetic where zero is not less than
/// itself.
pub proof fn law_landing_is_paid_once<R: Scalar>(
    now: RewardInputs<R>,
    next: RewardInputs<R>,
    buf: Seq<R>,
    e: int,
    i: int,
)
    requires
        next.n() == now.n(),
        0 <= e < now.n(),
        0 <= i < now.feet(),
        now.feet() * now.n() <= buf.len(),
        next.air_time_in@ == after_launch(buf, now.n(), |c: int| now.air_times(c)),
        now.contact(e, i),
        !zero::<R>().below(zero()),
    ensures
        !next.first_contact(e, i),
{
    law_air_time_feeds_next_step(now, next, buf, e, i);
}

/// Observation and reward see the same robot: from the same poses and configuration they
/// derive the same base motion and the same joint angles, and the joint velocities that the
/// reward works out from the previous poses are those that the observation works out from
/// the joint angles of the step before.
pub proof fn law_reward_sees_what_is_observed<R: Scalar>(
    inputs: RewardInputs<R>,
    obs: ObsInputs<R>,
    before: ObsInputs<R>,
    buf: Seq<R>,
    e: int,
    k: int,
)
    requires
        0 <= e < obs.n(),
        0 <= k < obs.joints(),
        obs.joints() * obs.n() <= buf.len(),
        inputs.poses@ == obs.poses@,
        inputs.prev_poses@ == obs.prev_poses@,
        inputs.flags@[e] == obs.flags@[e],
        inputs.params.torso_link == obs.params.torso_link,
        inputs.params.colliders_per_batch == obs.params.colliders_per_batch,
        inputs.params.control_dt == obs.params.control_dt,
        inputs.joint_cfg@[k].parent_link == obs.joint_cfg@[k].parent_link,
        inputs.joint_cfg@[k].child_link == obs.joint_cfg@[k].child_link,
        inputs.joint_cfg@[k].rest_quat == obs.joint_cfg@[k].rest_quat,
        before.params == obs.params,
        before.joint_cfg@ == obs.joint_cfg@,
        before.poses@ == obs.prev_poses@,
        obs.prev_joint_pos@ == after_launch(buf, obs.n(), |c: int| before.joint_pos(c)),
    ensures
        inputs.base(e) == obs.base(e),
        inputs.angle_of(e, k) == obs.angle_of(k, e),
        inputs.joint_vel(e, k) == obs.joint_vel(e)[k],
{
    if obs.has_prev_joint_pos(e) {
        law_joint_pos_feeds_next_step(before, obs, buf, e, k);
    }
}

/// Sums over the same selection of the same terms are the same.
proof fn lemma_same_sum<R: Scalar>(
    count: int,
    active: spec_fn(int) -> bool,
    term: spec_fn(int) -> R,
    active2: spec_fn(int) -> bool,
    term2: spec_fn(int) -> R,
)
    requires
        forall|i: int| 0 <= i < count ==> #[trigger] active(i) == active2(i),
        forall|i: int| 0 <= i < count && active(i) ==> #[trigger] term(i) == term2(i),
    ensures
        sum_where(count, active, term) == sum_where(count, active2, term2),
    decreases count,
{
    if 0 < count {
        lemma_same_sum(count - 1, active, term, active2, term2);
        assert(active(count - 1) == active2(count - 1));
        assert(active(count - 1) ==> term(count - 1) == term2(count - 1));
    }
}

/// Two sets of inputs lead to the same quantities for joint `k` of environment `e`.
pub open spec fn same_joint<R: Scalar>(
    a: RewardInputs<R>,
    b: RewardInputs<R>,
    e: int,
    k: int,
) -> bool {
    &&& a.deviation(e, k) == b.deviation(e, k)
    &&& (a.joint_cfg@[k].sym_active != 0) == (b.joint_cfg@[k].sym_active != 0)
    &&& a.joint_cfg@[k].sym_active != 0 ==> a.asymmetry(e, k) == b.asymmetry(e, k)
    &&& a.excess(e, k) == b.excess(e, k)
    &&& a.joint_vel(e, k) == b.joint_vel(e, k)
    &&& a.action_change(e, k) == b.action_change(e, k)
    &&& (a.joint_cfg@[k].is_hip != 0) == (b.joint_cfg@[k].is_hip != 0)
}

/// Two sets of inputs lead to the same quantities for foot `i` of environment `e`.
pub open spec fn same_foot<R: Scalar>(
    a: RewardInputs<R>,
    b: RewardInputs<R>,
    e: int,
    i: int,
) -> bool {
    &&& a.foot_pos(e, i) == b.foot_pos(e, i)
    &&& a.foot_speed(e, i) == b.foot_speed(e, i)
    &&& a.foot_tilt(e, i) == b.foot_tilt(e, i)
    &&& a.foot_yaw(e, i) == b.foot_yaw(e, i)
}

/// Two sets of inputs lead to the same base, command, joint and foot quantities of
/// environment `e`, under the same parameters but for the termination weight and those that
/// only standing or only moving environments are paid by.
pub open spec fn same_parts<R: Scalar>(a: RewardInputs<R>, b: RewardInputs<R>, e: int) -> bool {
    &&& *b.params == (RewardParams {
        w_termination: b.params.w_termination,
        w_air_time: b.params.w_air_time,
        w_single_support: b.params.w_single_support,
        air_cap: b.params.air_cap,
        w_pose: b.params.w_pose,
        std_pose: b.params.std_pose,
        ..*a.params
    })
    &&& a.base(e) == b.base(e)
    &&& a.cmd_vx(e) == b.cmd_vx(e)
    &&& a.cmd_vy(e) == b.cmd_vy(e)
    &&& a.cmd_yaw(e) == b.cmd_yaw(e)
    &&& forall|k: int| 0 <= k < a.joints() ==> #[trigger] same_joint(a, b, e, k)
    &&& forall|i: int| 0 <= i < a.feet() ==> #[trigger] same_foot(a, b, e, i)
}

/// Two sets of inputs have the same air times for environment `e`.
pub open spec fn same_air<R: Scalar>(a: RewardInputs<R>, b: RewardInputs<R>, e: int) -> bool {
    forall|i: int| 0 <= i < a.feet() ==> #[trigger] a.prev_air(e, i) == b.prev_air(e, i)
}

/// Two sets of inputs have the same air times for environment `e`, and the same parameters
/// for what only moving environments are paid for.
pub open spec fn same_gait<R: Scalar>(a: RewardInputs<R>, b: RewardInputs<R>, e: int) -> bool {
    &&& same_air(a, b, e)
    &&& a.params.w_air_time == b.params.w_air_time
    &&& a.params.w_single_support == b.params.w_single_support
    &&& a.params.air_cap == b.params.air_cap
}

/// Two sets of inputs have the same parameters for what only standing environments are paid
/// for.
pub open spec fn same_stance<R: Scalar>(a: RewardInputs<R>, b: RewardInputs<R>) -> bool {
    &&& a.params.w_pose == b.params.w_pose
    &&& a.params.std_pose == b.params.std_pose
}

/// Two sets of inputs agree on environment `e`: on its poses, and on its own column of
/// everything else.
pub open spec fn same_env<R: Scalar>(a: RewardInputs<R>, b: RewardInputs<R>, e: int) -> bool {
    let n = a.n();
    &&& a.params == b.params
    &&& a.joint_cfg@ == b.joint_cfg@
    &&& a.flags@[e] & 3 == b.flags@[e] & 3
    &&& same_poses(a.poses@, b.poses@, e, a.cpb())
    &&& a.has_prev_pose(e) || a.has_prev_joint_pos(e) ==> same_poses(
        a.prev_poses@,
        b.prev_poses@,
        e,
        a.cpb(),
    )
    &&& column(a.cmd@, 3, n, e) == column(b.cmd@, 3, n, e)
    &&& column(a.action2@, (2 * a.joints()) as nat, n, e) == column(
        b.action2@,
        (2 * a.joints()) as nat,
        n,
        e,
    )
    &&& column(a.air_time_in@, a.feet() as nat, n, e) == column(
        b.air_time_in@,
        a.feet() as nat,
        n,
        e,
    )
    &&& column(a.sole_local@, (3 * a.feet()) as nat, n, e) == column(
        b.sole_local@,
        (3 * a.feet()) as nat,
        n,
        e,
    )
}

/// All links that the reward reads lie within an environment's poses.
pub open spec fn links_within<R: Scalar>(a: RewardInputs<R>) -> bool {
    &&& a.params.torso_link < a.cpb()
    &&& a.params.foot_link0 < a.cpb()
    &&& a.params.foot_link1 < a.cpb()
    &&& forall|k: int|
        #![trigger a.joint_cfg@[k]]
        0 <= k < a.joint_cfg@.len() ==> a.joint_cfg@[k].parent_link < a.cpb()
            && a.joint_cfg@[k].child_link < a.cpb()
}

/// Inputs that agree on an environment agree on its joints.
proof fn lemma_same_joint<R: Scalar>(a: RewardInputs<R>, b: RewardInputs<R>, e: int, k: int)
    requires
        same_env(a, b, e),
        links_within(a),
        0 <= k < a.joints() <= a.joint_cfg@.len(),
        a.joint_cfg@[k].sym_active != 0 ==> a.joint_cfg@[k].sym_partner < a.joint_cfg@.len(),
    ensures
        a.deviation(e, k) == b.deviation(e, k),
        a.joint_cfg@[k].sym_active != 0 ==> a.asymmetry(e, k) == b.asymmetry(e, k),
        a.excess(e, k) == b.excess(e, k),
        a.joint_vel(e, k) == b.joint_vel(e, k),
        a.action_change(e, k) == b.action_change(e, k),
{
    lemma_flag_bits(a.flags@[e], b.flags@[e]);
    let n = a.n();
    let rows = (2 * a.joints()) as nat;
    let cfg = a.joint_cfg@[k];
    lemma_same_pose(a.poses@, b.poses@, e, cfg.parent_link as int, a.cpb());
    lemma_same_pose(a.poses@, b.poses@, e, cfg.child_link as int, a.cpb());
    if cfg.sym_active != 0 {
        let mirror = a.joint_cfg@[cfg.sym_partner as int];
        lemma_same_pose(a.poses@, b.poses@, e, mirror.parent_link as int, a.cpb());
        lemma_same_pose(a.poses@, b.poses@, e, mirror.child_link as int, a.cpb());
    }
    if a.has_prev_joint_pos(e) {
        lemma_same_pose(a.prev_poses@, b.prev_poses@, e, cfg.parent_link as int, a.cpb());
        lemma_same_pose(a.prev_poses@, b.prev_poses@, e, cfg.child_link as int, a.cpb());
    }
    assert(column(a.action2@, rows, n, e)[k] == column(b.action2@, rows, n, e)[k]);
    assert(column(a.action2@, rows, n, e)[a.joints() + k] == column(
        b.action2@,
        rows,
        n,
        e,
    )[a.joints() + k]);
}

/// Inputs that agree on an environment agree on its base and its command.
proof fn lemma_same_base<R: Scalar>(a: RewardInputs<R>, b: RewardInputs<R>, e: int)
    requires
        same_env(a, b, e),
        links_within(a),
    ensures
        a.base(e) == b.base(e),
        a.cmd_vx(e) == b.cmd_vx(e),
        a.cmd_vy(e) == b.cmd_vy(e),
        a.cmd_yaw(e) == b.cmd_yaw(e),
{
    lemma_flag_bits(a.flags@[e], b.flags@[e]);
    let n = a.n();
    lemma_same_pose(a.poses@, b.poses@, e, a.params.torso_link as int, a.cpb());
    if a.has_prev_pose(e) {
        lemma_same_pose(a.prev_poses@, b.prev_poses@, e, a.params.torso_link as int, a.cpb());
    }
    assert(column(a.cmd@, 3, n, e)[0] == column(b.cmd@, 3, n, e)[0]);
    assert(column(a.cmd@, 3, n, e)[1] == column(b.cmd@, 3, n, e)[1]);
    assert(column(a.cmd@, 3, n, e)[2] == column(b.cmd@, 3, n, e)[2]);
}

/// Inputs that agree on an environment agree on its feet.
proof fn lemma_same_foot<R: Scalar>(a: RewardInputs<R>, b: RewardInputs<R>, e: int, i: int)
    requires
        same_env(a, b, e),
        links_within(a),
        0 <= i < a.feet(),
    ensures
        a.foot_pos(e, i) == b.foot_pos(e, i),
        a.foot_speed(e, i) == b.foot_speed(e, i),
        a.foot_tilt(e, i) == b.foot_tilt(e, i),
        a.foot_yaw(e, i) == b.foot_yaw(e, i),
        a.prev_air(e, i) == b.prev_air(e, i),
{
    lemma_flag_bits(a.flags@[e], b.flags@[e]);
    let n = a.n();
    let rows = (3 * a.feet()) as nat;
    let (sa, sb) = (column(a.sole_local@, rows, n, e), column(b.sole_local@, rows, n, e));
    lemma_same_base(a, b, e);
    lemma_same_pose(a.poses@, b.poses@, e, a.foot_link(i), a.cpb());
    if a.has_prev_pose(e) {
        lemma_same_pose(a.prev_poses@, b.prev_poses@, e, a.foot_link(i), a.cpb());
    }
    assert(column(a.air_time_in@, a.feet() as nat, n, e)[i] == column(
        b.air_time_in@,
        a.feet() as nat,
        n,
        e,
    )[i]);
    assert(sa[i * 3] == sb[i * 3] && sa[i * 3 + 1] == sb[i * 3 + 1] && sa[i * 3 + 2] == sb[i * 3
        + 2]);
}

/// Inputs that lead to the same parts lead to the same sums over the joints.
proof fn lemma_same_joint_sums<R: Scalar>(a: RewardInputs<R>, b: RewardInputs<R>, e: int)
    requires
        same_parts(a, b, e),
    ensures
        a.pose_err(e, a.joints()) == b.pose_err(e, a.joints()),
        a.sym_err(e, a.joints()) == b.sym_err(e, a.joints()),
        a.lim_pen(e, a.joints()) == b.lim_pen(e, a.joints()),
        a.vel_sq(e, a.joints()) == b.vel_sq(e, a.joints()),
        a.act_sq(e, a.joints()) == b.act_sq(e, a.joints()),
        a.act_sq_hip(e, a.joints()) == b.act_sq_hip(e, a.joints()),
{
    let j = a.joints();
    let all = |i: int| true;
    let sym = |i: int| a.joint_cfg@[i].sym_active != 0;
    let sym2 = |i: int| b.joint_cfg@[i].sym_active != 0;
    let hip = |i: int| a.joint_cfg@[i].is_hip != 0;
    let hip2 = |i: int| b.joint_cfg@[i].is_hip != 0;
    assert forall|k: int| 0 <= k < j implies #[trigger] a.deviation(e, k) == b.deviation(e, k) by {
        assert(same_joint(a, b, e, k));
    }
    assert forall|k: int| 0 <= k < j implies #[trigger] a.excess(e, k) == b.excess(e, k) by {
        assert(same_joint(a, b, e, k));
    }
    assert forall|k: int| 0 <= k < j implies #[trigger] a.joint_vel(e, k) == b.joint_vel(e, k) by {
        assert(same_joint(a, b, e, k));
    }
    assert forall|k: int| 0 <= k < j implies #[trigger] a.action_change(e, k)
        == b.action_change(e, k) by {
        assert(same_joint(a, b, e, k));
    }
    assert forall|k: int| 0 <= k < j && sym(k) implies #[trigger] a.asymmetry(e, k)
        == b.asymmetry(e, k) by {
        assert(same_joint(a, b, e, k));
    }
    assert forall|k: int| 0 <= k < j implies #[trigger] sym(k) == sym2(k) by {
        assert(same_joint(a, b, e, k));
    }
    assert forall|k: int| 0 <= k < j implies #[trigger] hip(k) == hip2(k) by {
        assert(same_joint(a, b, e, k));
    }
    lemma_same_sum(j, all, |i: int| a.deviation(e, i), all, |i: int| b.deviation(e, i));
    lemma_same_sum(j, sym, |i: int| a.asymmetry(e, i), sym2, |i: int| b.asymmetry(e, i));
    lemma_same_sum(j, all, |i: int| a.excess(e, i), all, |i: int| b.excess(e, i));
    lemma_same_sum(
        j,
        all,
        |i: int| square(a.joint_vel(e, i)),
        all,
        |i: int| square(b.joint_vel(e, i)),
    );
    lemma_same_sum(j, all, |i: int| a.action_change(e, i), all, |i: int| b.action_change(e, i));
    lemma_same_sum(j, hip, |i: int| a.action_change(e, i), hip2, |i: int| b.action_change(e, i));
}

/// Inputs that agree on the contacts of an environment agree on their number.
proof fn lemma_same_contacts<R: Scalar>(a: RewardInputs<R>, b: RewardInputs<R>, e: int, i: int)
    requires
        forall|k: int| 0 <= k < i ==> #[trigger] a.contact(e, k) == b.contact(e, k),
    ensures
        a.contacts(e, i) == b.contacts(e, i),
        a.all_air(e, i) == b.all_air(e, i),
    decreases i,
{
    if 0 < i {
        lemma_same_contacts(a, b, e, i - 1);
        assert(a.contact(e, i - 1) == b.contact(e, i - 1));
    }
    assert forall|k: int| 0 <= k < i implies (#[trigger] b.contact(e, k)) == a.contact(e, k) by {
        assert(a.contact(e, k) == b.contact(e, k));
    }
}

/// Inputs that lead to the same parts lead to the same sums over the feet.
proof fn lemma_same_feet_sums<R: Scalar>(a: RewardInputs<R>, b: RewardInputs<R>, e: int)
    requires
        same_parts(a, b, e),
    ensures
        a.slip(e, a.feet()) == b.slip(e, a.feet()),
        a.clr(e, a.feet()) == b.clr(e, a.feet()),
        a.tilt_sq(e, a.feet()) == b.tilt_sq(e, a.feet()),
        a.yaw_sq(e, a.feet()) == b.yaw_sq(e, a.feet()),
        a.contacts(e, a.feet()) == b.contacts(e, a.feet()),
        a.all_air(e, a.feet()) == b.all_air(e, a.feet()),
        a.feet_distance(e) == b.feet_distance(e),
{
    let f = a.feet();
    let all = |i: int| true;
    assert forall|i: int| 0 <= i < f implies #[trigger] a.foot_speed(e, i)
        == b.foot_speed(e, i) by {
        assert(same_foot(a, b, e, i));
    }
    assert forall|i: int| 0 <= i < f implies #[trigger] a.foot_tilt(e, i) == b.foot_tilt(e, i) by {
        assert(same_foot(a, b, e, i));
    }
    assert forall|i: int| 0 <= i < f implies #[trigger] a.foot_yaw(e, i) == b.foot_yaw(e, i) by {
        assert(same_foot(a, b, e, i));
    }
    assert forall|i: int| 0 <= i < f implies #[trigger] a.contact(e, i) == b.contact(e, i) by {
        assert(same_foot(a, b, e, i));
    }
    assert forall|i: int| 0 <= i < f implies #[trigger] a.clearance(e, i) == b.clearance(e, i) by {
        assert(same_foot(a, b, e, i));
    }
    let (on, on2) = (|i: int| a.contact(e, i), |i: int| b.contact(e, i));
    let (off, off2) = (|i: int| !a.contact(e, i), |i: int| !b.contact(e, i));
    lemma_same_sum(
        f,
        on,
        |i: int| square(a.foot_speed(e, i)),
        on2,
        |i: int| square(b.foot_speed(e, i)),
    );
    lemma_same_sum(f, off, |i: int| a.clearance(e, i), off2, |i: int| b.clearance(e, i));
    lemma_same_sum(
        f,
        on,
        |i: int| square(a.foot_tilt(e, i)),
        on2,
        |i: int| square(b.foot_tilt(e, i)),
    );
    lemma_same_sum(
        f,
        all,
        |i: int| square(a.foot_yaw(e, i)),
        all,
        |i: int| square(b.foot_yaw(e, i)),
    );
    lemma_same_contacts(a, b, e, f);
    if f == 2 {
        assert(same_foot(a, b, e, 0) && same_foot(a, b, e, 1));
    }
}

/// Inputs that lead to the same parts and have the same air times lead to the same new ones,
/// and with the same cap to the same air time that is paid for.
proof fn lemma_same_air<R: Scalar>(a: RewardInputs<R>, b: RewardInputs<R>, e: int)
    requires
        same_parts(a, b, e),
        same_air(a, b, e),
    ensures
        a.air_times(e) == b.air_times(e),
        a.params.air_cap == b.params.air_cap ==> a.air_sum(e, a.feet()) == b.air_sum(e, a.feet()),
{
    let f = a.feet();
    assert forall|i: int| 0 <= i < f implies #[trigger] a.new_air(e, i) == b.new_air(e, i) by {
        assert(same_foot(a, b, e, i));
        assert(a.prev_air(e, i) == b.prev_air(e, i));
    }
    assert(a.air_times(e) =~= b.air_times(e));
    if a.params.air_cap == b.params.air_cap {
        let (land, land2) = (|i: int| a.first_contact(e, i), |i: int| b.first_contact(e, i));
        assert forall|i: int| 0 <= i < f implies #[trigger] land(i) == land2(i) by {
            assert(same_foot(a, b, e, i));
            assert(a.prev_air(e, i) == b.prev_air(e, i));
        }
        assert forall|i: int| 0 <= i < f implies #[trigger] a.landed_air(e, i)
            == b.landed_air(e, i) by {
            assert(a.prev_air(e, i) == b.prev_air(e, i));
        }
        lemma_same_sum(f, land, |i: int| a.landed_air(e, i), land2, |i: int| b.landed_air(e, i));
    }
}

/// Inputs that lead to the same parts lead to the same sum of terms and the same fall flag,
/// if they agree on what an environment is paid for that stands or moves as this one does.
proof fn lemma_same_terms<R: Scalar>(a: RewardInputs<R>, b: RewardInputs<R>, e: int)
    requires
        same_parts(a, b, e),
        a.standing(e) || same_gait(a, b, e),
        !a.standing(e) || same_stance(a, b),
    ensures
        a.terms(e) == b.terms(e),
        a.fell(e) == b.fell(e),
        a.fallen(e) == b.fallen(e),
        a.params.w_termination == b.params.w_termination ==> a.reward(e) == b.reward(e),
{
    lemma_same_joint_sums(a, b, e);
    lemma_same_feet_sums(a, b, e);
    if !a.standing(e) {
        lemma_same_air(a, b, e);
    }
}

/// An environment is rewarded for its own data alone: where all links lie within the
/// environment's poses, the other environments make no difference to its reward, its fall
/// flag or its air times.
pub proof fn law_reward_is_local<R: Scalar>(a: RewardInputs<R>, b: RewardInputs<R>, e: int)
    requires
        same_env(a, b, e),
        links_within(a),
        a.joints() <= a.joint_cfg@.len(),
        forall|k: int|
            #![trigger a.joint_cfg@[k]]
            0 <= k < a.joints() && a.joint_cfg@[k].sym_active != 0 ==> a.joint_cfg@[k].sym_partner
                < a.joint_cfg@.len(),
    ensures
        a.reward(e) == b.reward(e),
        a.fell(e) == b.fell(e),
        a.air_times(e) == b.air_times(e),
{
    lemma_same_base(a, b, e);
    assert forall|k: int| 0 <= k < a.joints() implies #[trigger] same_joint(a, b, e, k) by {
        lemma_same_joint(a, b, e, k);
    }
    assert forall|i: int| 0 <= i < a.feet() implies #[trigger] same_foot(a, b, e, i) by {
        lemma_same_foot(a, b, e, i);
    }
    assert forall|i: int| 0 <= i < a.feet() implies #[trigger] a.prev_air(e, i) == b.prev_air(
        e,
        i,
    ) by {
        lemma_same_foot(a, b, e, i);
    }
    lemma_same_air(a, b, e);
    lemma_same_terms(a, b, e);
}

/// Two sets of inputs are the same, but for previous poses that the flags of environment
/// `e` say are not there, and for flag bits that mean nothing.
pub open spec fn same_but_unused_history<R: Scalar>(
    a: RewardInputs<R>,
    b: RewardInputs<R>,
    e: int,
) -> bool {
    &&& a.params == b.params
    &&& a.poses@ == b.poses@
    &&& a.joint_cfg@ == b.joint_cfg@
    &&& a.cmd@ == b.cmd@
    &&& a.action2@ == b.action2@
    &&& a.air_time_in@ == b.air_time_in@
    &&& a.sole_local@ == b.sole_local@
    &&& a.flags@[e] & 3 == b.flags@[e] & 3
    &&& a.has_prev_pose(e) || a.has_prev_joint_pos(e) ==> a.prev_poses@ == b.prev_poses@
}

/// History that the flags say is not there is not read: without either bit nothing depends
/// on the previous poses, and the other bits change nothing.
pub proof fn law_unused_history_is_unread<R: Scalar>(
    a: RewardInputs<R>,
    b: RewardInputs<R>,
    e: int,
)
    requires
        same_but_unused_history(a, b, e),
    ensures
        a.reward(e) == b.reward(e),
        a.fell(e) == b.fell(e),
        a.air_times(e) == b.air_times(e),
{
    lemma_flag_bits(a.flags@[e], b.flags@[e]);
    assert(a.base(e) == b.base(e));
    assert forall|k: int| 0 <= k < a.joints() implies #[trigger] same_joint(a, b, e, k) by {}
    assert forall|i: int| 0 <= i < a.feet() implies #[trigger] same_foot(a, b, e, i) by {}
    lemma_same_air(a, b, e);
    lemma_same_terms(a, b, e);
}

/// Two sets of inputs are the same but for the actions.
pub open spec fn same_but_actions<R: Scalar>(a: RewardInputs<R>, b: RewardInputs<R>) -> bool {
    &&& a.params == b.params
    &&& a.poses@ == b.poses@
    &&& a.prev_poses@ == b.prev_poses@
    &&& a.joint_cfg@ == b.joint_cfg@
    &&& a.cmd@ == b.cmd@
    &&& a.air_time_in@ == b.air_time_in@
    &&& a.sole_local@ == b.sole_local@
    &&& a.flags@ == b.flags@
}

/// The last action and the one before enter through their squared difference only:
/// exchanging the two halves of `action2` changes nothing, wherever the difference of the
/// two and the one the other way round have the same square.
pub proof fn law_exchanged_actions_change_nothing<R: Scalar>(
    a: RewardInputs<R>,
    b: RewardInputs<R>,
    e: int,
)
    requires
        same_but_actions(a, b),
        forall|k: int|
            #![trigger cell(k, a.n(), e)]
            0 <= k < a.joints() ==> {
                let (i, l) = (cell(k, a.n(), e), cell(a.joints() + k, a.n(), e));
                let (last, before) = (a.action2@[i], a.action2@[l]);
                &&& b.action2@[i] == before
                &&& b.action2@[l] == last
                &&& square(last.minus(before)) == square(before.minus(last))
            },
    ensures
        a.reward(e) == b.reward(e),
        a.fell(e) == b.fell(e),
        a.air_times(e) == b.air_times(e),
{
    assert(a.base(e) == b.base(e));
    assert forall|k: int| 0 <= k < a.joints() implies #[trigger] same_joint(a, b, e, k) by {
        let (i, l) = (cell(k, a.n(), e), cell(a.joints() + k, a.n(), e));
        assert(b.action2@[i] == a.action2@[l]);
        assert(a.action_change(e, k) == b.action_change(e, k));
    }
    assert forall|i: int| 0 <= i < a.feet() implies #[trigger] same_foot(a, b, e, i) by {}
    lemma_same_air(a, b, e);
    lemma_same_terms(a, b, e);
}

/// The termination weight enters the reward of a fallen environment and nothing else: with
/// another one the sum of the terms, the fall flag and the air times are the same.
pub proof fn law_termination_weight_is_separate<R: Scalar>(
    a: RewardInputs<R>,
    b: RewardInputs<R>,
    e: int,
)
    requires
        *b.params == (RewardParams { w_termination: b.params.w_termination, ..*a.params }),
        a.poses@ == b.poses@,
        a.prev_poses@ == b.prev_poses@,
        a.joint_cfg@ == b.joint_cfg@,
        a.cmd@ == b.cmd@,
        a.action2@ == b.action2@,
        a.air_time_in@ == b.air_time_in@,
        a.sole_local@ == b.sole_local@,
        a.flags@ == b.flags@,
    ensures
        a.terms(e) == b.terms(e),
        a.fell(e) == b.fell(e),
        a.air_times(e) == b.air_times(e),
        a.fell(e) == 0 ==> a.reward(e) == a.terms(e) && b.reward(e) == a.terms(e),
        a.fell(e) == 1 ==> a.reward(e) == a.terms(e).plus(a.params.w_termination) && b.reward(e)
            == a.terms(e).plus(b.params.w_termination),
{
    assert(a.base(e) == b.base(e));
    assert forall|k: int| 0 <= k < a.joints() implies #[trigger] same_joint(a, b, e, k) by {}
    assert forall|i: int| 0 <= i < a.feet() implies #[trigger] same_foot(a, b, e, i) by {}
    lemma_same_air(a, b, e);
    lemma_same_terms(a, b, e);
}

/// While an environment stands, its reward and its fall flag do not depend on the air times
/// that the step starts from, nor on the weights of air time and single support, nor on the
/// cap of the air time that is paid for.
pub proof fn law_standing_ignores_gait<R: Scalar>(a: RewardInputs<R>, b: RewardInputs<R>, e: int)
    requires
        *b.params == (RewardParams {
            w_air_time: b.params.w_air_time,
            w_single_support: b.params.w_single_support,
            air_cap: b.params.air_cap,
            ..*a.params
        }),
        a.poses@ == b.poses@,
        a.prev_poses@ == b.prev_poses@,
        a.joint_cfg@ == b.joint_cfg@,
        a.cmd@ == b.cmd@,
        a.action2@ == b.action2@,
        a.sole_local@ == b.sole_local@,
        a.flags@ == b.flags@,
        a.standing(e),
    ensures
        a.reward(e) == b.reward(e),
        a.fell(e) == b.fell(e),
{
    assert(a.base(e) == b.base(e));
    assert forall|k: int| 0 <= k < a.joints() implies #[trigger] same_joint(a, b, e, k) by {}
    assert forall|i: int| 0 <= i < a.feet() implies #[trigger] same_foot(a, b, e, i) by {}
    lemma_same_terms(a, b, e);
}

/// While an environment moves, its reward, its fall flag and its air times do not depend on
/// the weight and the scale of the default pose.
pub proof fn law_moving_ignores_pose<R: Scalar>(a: RewardInputs<R>, b: RewardInputs<R>, e: int)
    requires
        *b.params == (RewardParams {
            w_pose: b.params.w_pose,
            std_pose: b.params.std_pose,
            ..*a.params
        }),
        a.poses@ == b.poses@,
        a.prev_poses@ == b.prev_poses@,
        a.joint_cfg@ == b.joint_cfg@,
        a.cmd@ == b.cmd@,
        a.action2@ == b.action2@,
        a.air_time_in@ == b.air_time_in@,
        a.sole_local@ == b.sole_local@,
        a.flags@ == b.flags@,
        !a.standing(e),
    ensures
        a.reward(e) == b.reward(e),
        a.fell(e) == b.fell(e),
        a.air_times(e) == b.air_times(e),
{
    assert(a.base(e) == b.base(e));
    assert forall|k: int| 0 <= k < a.joints() implies #[trigger] same_joint(a, b, e, k) by {}
    assert forall|i: int| 0 <= i < a.feet() implies #[trigger] same_foot(a, b, e, i) by {}
    lemma_same_air(a, b, e);
    lemma_same_terms(a, b, e);
}

/// All twenty weights of the terms are zero in the reading `num`.
pub open spec fn weightless<R: Scalar>(num: spec_fn(R) -> R, p: RewardParams<R>) -> bool {
    &&& num(p.w_track_lin) == num(zero())
    &&& num(p.w_track_ang) == num(zero())
    &&& num(p.w_upright) == num(zero())
    &&& num(p.w_base_height) == num(zero())
    &&& num(p.w_pose) == num(zero())
    &&& num(p.w_bilateral) == num(zero())
    &&& num(p.w_action_rate) == num(zero())
    &&& num(p.w_action_rate_hip) == num(zero())
    &&& num(p.w_body_ang_vel) == num(zero())
    &&& num(p.w_lin_vel_z) == num(zero())
    &&& num(p.w_dof_pos_limits) == num(zero())
    &&& num(p.w_dof_vel) == num(zero())
    &&& num(p.w_air_time) == num(zero())
    &&& num(p.w_flight) == num(zero())
    &&& num(p.w_single_support) == num(zero())
    &&& num(p.w_foot_slip) == num(zero())
    &&& num(p.w_foot_clearance) == num(zero())
    &&& num(p.w_foot_orientation) == num(zero())
    &&& num(p.w_feet_yaw_mean) == num(zero())
    &&& num(p.w_feet_distance) == num(zero())
}

/// What the weights of environment `e` are multiplied with before the timestep. Flight and
/// single support are paid by weight and timestep alone.
impl<'a, R: Scalar> RewardInputs<'a, R> {
    /// The Gaussian kernel of the squared error `err` with scale `std`.
    pub open spec fn bell(err: R, std: R) -> R {
        err.opposite().over(square(std)).exponential()
    }

    /// The shapes of the eighteen terms that have one; zero for a term that is not paid.
    pub open spec fn shapes(self, e: int) -> Seq<R> {
        let p = self.params;
        let (j, f) = (self.joints(), self.feet());
        let dx = self.foot_pos(e, 0).x.minus(self.foot_pos(e, 1).x);
        let dy = self.foot_pos(e, 0).y.minus(self.foot_pos(e, 1).y);
        let yaw = self.base_yaw(e);
        let lateral = yaw.sine().opposite().times(dx).plus(yaw.cosine().times(dy));
        seq![
            Self::bell(
                square(self.cmd_vx(e).minus(self.lin(e, p.fwd))).plus(
                    square(self.cmd_vy(e).minus(self.lin(e, p.lat))),
                ),
                p.std_lin_vel,
            ),
            Self::bell(square(self.cmd_yaw(e).minus(self.ang(e, p.up))), p.std_ang_vel),
            Self::bell(
                square(self.grav(e, p.fwd)).plus(square(self.grav(e, p.lat))),
                p.std_upright,
            ),
            Self::bell(square(self.height(e).minus(p.base_height_target)), p.std_base_height),
            if self.standing(e) {
                Self::bell(self.pose_err(e, j), p.std_pose)
            } else {
                zero()
            },
            self.sym_err(e, j).opposite().exponential(),
            self.act_sq(e, j),
            self.act_sq_hip(e, j),
            square(self.ang(e, p.fwd)).plus(square(self.ang(e, p.lat))),
            self.lin(e, p.up),
            self.lim_pen(e, j),
            self.vel_sq(e, j),
            if self.standing(e) {
                zero()
            } else {
                self.air_sum(e, f)
            },
            self.slip(e, f),
            self.clr(e, f),
            self.tilt_sq(e, f),
            self.yaw_sq(e, f),
            if f == 2 {
                lateral.magnitude().minus(p.feet_distance_ref).magnitude()
            } else {
                zero()
            },
        ]
    }
}

/// A weight of zero pays zero for a finite shape and a finite timestep.
proof fn lemma_pays_nothing<R: Scalar>(num: spec_fn(R) -> R, w: R, shape: R, dt: R)
    requires
        numeric(num),
        num(w) == num(zero()),
        zero_absorbs(num, shape),
        zero_absorbs(num, dt),
    ensures
        num(w.times(shape)) == num(zero()),
        num(w.times(dt)) == num(zero()),
        num(w.times(shape).times(dt)) == num(zero()),
{
    let z = zero::<R>();
    assert(num(w.times(shape)) == num(z.times(shape)));
    assert(num(w.times(dt)) == num(z.times(dt)));
    assert(num(w.times(shape).times(dt)) == num(z.times(dt)));
}

/// A sum with zero added is zero if it was.
proof fn lemma_still_nothing<R: Scalar>(num: spec_fn(R) -> R, sum: R, term: R)
    requires
        numeric(num),
        num(sum) == num(zero()),
        num(term) == num(zero()),
    ensures
        num(sum.plus(term)) == num(zero()),
{
    let z = zero::<R>();
    assert(num(z.plus(z)) == num(z));
    assert(num(sum.plus(term)) == num(z.plus(z)));
}

/// Every term is paid by its weight: with all weights zero, and all shapes and the timestep
/// finite, the sum of the terms is zero.
pub proof fn law_zero_weights_pay_nothing<R: Scalar>(
    num: spec_fn(R) -> R,
    inputs: RewardInputs<R>,
    e: int,
)
    requires
        numeric(num),
        weightless(num, *inputs.params),
        zero_absorbs(num, inputs.dt()),
        forall|i: int|
            #![trigger inputs.shapes(e)[i]]
            0 <= i < inputs.shapes(e).len() ==> zero_absorbs(num, inputs.shapes(e)[i]),
    ensures
        num(inputs.terms(e)) == num(zero()),
        !inputs.fallen(e) ==> num(inputs.reward(e)) == num(zero()),
        inputs.fallen(e) ==> num(inputs.reward(e)) == num(inputs.params.w_termination),
{
    let p = inputs.params;
    let dt = inputs.dt();
    let s = inputs.shapes(e);
    assert(s.len() == 18);
    lemma_pays_nothing(num, p.w_track_lin, s[0], dt);
    lemma_pays_nothing(num, p.w_track_ang, s[1], dt);
    lemma_pays_nothing(num, p.w_upright, s[2], dt);
    lemma_pays_nothing(num, p.w_base_height, s[3], dt);
    lemma_pays_nothing(num, p.w_pose, s[4], dt);
    lemma_pays_nothing(num, p.w_bilateral, s[5], dt);
    lemma_pays_nothing(num, p.w_action_rate, s[6], dt);
    lemma_pays_nothing(num, p.w_action_rate_hip, s[7], dt);
    lemma_pays_nothing(num, p.w_body_ang_vel, s[8], dt);
    lemma_pays_nothing(num, p.w_lin_vel_z, s[9], dt);
    lemma_pays_nothing(num, p.w_lin_vel_z.times(s[9]), s[9], dt);
    lemma_pays_nothing(num, p.w_dof_pos_limits, s[10], dt);
    lemma_pays_nothing(num, p.w_dof_vel, s[11], dt);
    lemma_pays_nothing(num, p.w_air_time, s[12], dt);
    lemma_pays_nothing(num, p.w_flight, s[12], dt);
    lemma_pays_nothing(num, p.w_single_support, s[12], dt);
    lemma_pays_nothing(num, p.w_foot_slip, s[13], dt);
    lemma_pays_nothing(num, p.w_foot_clearance, s[14], dt);
    lemma_pays_nothing(num, p.w_foot_orientation, s[15], dt);
    lemma_pays_nothing(num, p.w_feet_yaw_mean, s[16], dt);
    lemma_pays_nothing(num, p.w_feet_distance, s[17], dt);
    let t1 = inputs.track_lin(e);
    let t2 = t1.plus(inputs.track_ang(e));
    let t3 = t2.plus(inputs.upright(e));
    let t4 = t3.plus(inputs.base_height(e));
    let t5 = t4.plus(inputs.pose(e));
    let t6 = t5.plus(inputs.bilateral(e));
    let t7 = t6.plus(inputs.action_rate(e));
    let t8 = t7.plus(inputs.action_rate_hip(e));
    let t9 = t8.plus(inputs.body_ang_vel(e));
    let t10 = t9.plus(inputs.lin_vel_z(e));
    let t11 = t10.plus(inputs.dof_pos_limits(e));
    let t12 = t11.plus(inputs.dof_vel(e));
    let t13 = t12.plus(inputs.air_time(e));
    let t14 = t13.plus(inputs.flight(e));
    let t15 = t14.plus(inputs.single_support(e));
    let t16 = t15.plus(inputs.foot_slip(e));
    let t17 = t16.plus(inputs.foot_clearance(e));
    let t18 = t17.plus(inputs.foot_orientation(e));
    let t19 = t18.plus(inputs.feet_yaw_mean(e));
    let t20 = t19.plus(inputs.feet_distance(e));
    assert(num(t1) == num(zero()));
    lemma_still_nothing(num, t1, inputs.track_ang(e));
    lemma_still_nothing(num, t2, inputs.upright(e));
    lemma_still_nothing(num, t3, inputs.base_height(e));
    lemma_still_nothing(num, t4, inputs.pose(e));
    lemma_still_nothing(num, t5, inputs.bilateral(e));
    lemma_still_nothing(num, t6, inputs.action_rate(e));
    lemma_still_nothing(num, t7, inputs.action_rate_hip(e));
    lemma_still_nothing(num, t8, inputs.body_ang_vel(e));
    lemma_still_nothing(num, t9, inputs.lin_vel_z(e));
    lemma_still_nothing(num, t10, inputs.dof_pos_limits(e));
    lemma_still_nothing(num, t11, inputs.dof_vel(e));
    lemma_still_nothing(num, t12, inputs.air_time(e));
    lemma_still_nothing(num, t13, inputs.flight(e));
    lemma_still_nothing(num, t14, inputs.single_support(e));
    lemma_still_nothing(num, t15, inputs.foot_slip(e));
    lemma_still_nothing(num, t16, inputs.foot_clearance(e));
    lemma_still_nothing(num, t17, inputs.foot_orientation(e));
    lemma_still_nothing(num, t18, inputs.feet_yaw_mean(e));
    lemma_still_nothing(num, t19, inputs.feet_distance(e));
    assert(t20 == inputs.terms(e));
    let w = p.w_termination;
    assert(num(zero::<R>().plus(w)) == num(w));
    assert(num(t20.plus(w)) == num(zero::<R>().plus(w)));
}

/// What the inputs must hold, by places in the buffers: whole poses of the base and of every
/// foot, before and after where there is a before, rotations of both links of every joint and
/// of its mirror partner, and the matrices of commands, actions, air times and sole normals.
pub proof fn law_what_rewards_need<R: Scalar>(inputs: RewardInputs<R>, e: int, k: int, i: int)
    ensures
        ({
            let p = inputs.params;
            let (n, j, f) = (p.num_envs, p.num_joints, p.num_feet);
            let cpb = p.colliders_per_batch;
            let (len, before) = (inputs.poses@.len(), inputs.prev_poses@.len());
            let (has_pose, has_angles) = (inputs.flags@[e] & 1 != 0, inputs.flags@[e] & 2 != 0);
            let cfg = inputs.joint_cfg@[k];
            let parent_end = (e * cpb + cfg.parent_link) * 8 + 4;
            let child_end = (e * cpb + cfg.child_link) * 8 + 4;
            let mirror = inputs.joint_cfg@[cfg.sym_partner as int];
            let link_end = (e * cpb + i) * 8 + 7;
            &&& inputs.shaped() == (p.fwd < 3 && p.lat < 3 && p.up < 3 && n <= inputs.flags@.len()
                && j <= inputs.joint_cfg@.len() && 3 * n <= inputs.cmd@.len() && 2 * j * n
                <= inputs.action2@.len() && f * n <= inputs.air_time_in@.len() && 3 * f * n
                <= inputs.sole_local@.len())
            &&& inputs.has_joint(e, k) == (parent_end <= len && child_end <= len && (has_angles
                ==> parent_end <= before && child_end <= before))
            &&& inputs.has_partner(e, k) == (cfg.sym_active == 0 || (cfg.sym_partner
                < inputs.joint_cfg@.len() && (e * cpb + mirror.parent_link) * 8 + 4 <= len && (e
                * cpb + mirror.child_link) * 8 + 4 <= len))
            &&& inputs.has_body(e, i) == (link_end <= len && (has_pose ==> link_end <= before))
            &&& inputs.has_env(e) == (inputs.has_body(e, p.torso_link as int) && (forall|c: int|
                0 <= c < j ==> #[trigger] inputs.has_joint(e, c)) && (forall|c: int|
                0 <= c < j ==> #[trigger] inputs.has_partner(e, c)) && (f > 0 ==> inputs.has_body(
                e,
                p.foot_link0 as int,
            )) && (f > 1 ==> inputs.has_body(e, p.foot_link1 as int)))
        }),
{
    let p = inputs.params;
    let (j, f) = (p.num_joints as int, p.num_feet as int);
    if inputs.has_env(e) {
        assert forall|c: int| 0 <= c < j implies #[trigger] inputs.has_joint(e, c) by {}
        assert forall|c: int| 0 <= c < j implies #[trigger] inputs.has_partner(e, c) by {
            assert(inputs.has_joint(e, c));
        }
        if f > 0 {
            assert(inputs.has_body(e, inputs.foot_link(0)));
        }
        if f > 1 {
            assert(inputs.has_body(e, inputs.foot_link(1)));
        }
    }
}

/// Inputs that are complete are ready for every thread, and inputs that are ready for every
/// thread are complete.
pub proof fn law_complete_rewards_are_ready_for_all<R: Scalar>(inputs: RewardInputs<R>)
    ensures
        inputs.complete() ==> forall|x: int| 0 <= x ==> #[trigger] inputs.ready(x),
        (forall|x: int| 0 <= x < MAX_NUM_THREADS ==> #[trigger] inputs.ready(x))
            ==> inputs.complete(),
{
    if forall|x: int| 0 <= x < MAX_NUM_THREADS ==> #[trigger] inputs.ready(x) {
        assert(inputs.ready(0));
        assert forall|e: int| 0 <= e < inputs.n() implies #[trigger] inputs.has_env(e) by {
            let x = e % (MAX_NUM_THREADS as int);
            law_one_thread_per_column(inputs.n(), e);
            assert(inputs.ready(x));
            assert(owns(x, inputs.n(), e));
        }
    }
}

/// What the output buffers must hold: a reward and a fall flag for every environment and an air
/// time for every foot of it.
pub proof fn law_reward_outputs<R: Scalar>(
    inputs: RewardInputs<R>,
    reward: int,
    fell: int,
    new_air: int,
)
    ensures
        ({
            let (n, f) = (inputs.params.num_envs, inputs.params.num_feet);
            inputs.outputs_fit(reward, fell, new_air) == (n <= reward && n <= fell && f * n
                <= new_air)
        }),
{
}

} // verus!
