//! Batched observation assembly for the velocity-tracking locomotion task.
//!
//! The policy observation of an environment is
//! `[last_action(J), command(4), joint_pos_rel(J), joint_vel(J), proj_gravity(3)]`;
//! the critic observation appends the base's linear and angular velocity in the body
//! frame. Every output is row-major `[dim x num_envs]`, one column per environment.

use crate::buffer::{
    cell, column, get, lemma_cell, lemma_cell_in, lemma_no_rows, lemma_rows_bounded, load,
    matrix_fits, put_row, with_column,
};
use crate::geometry::{
    base_motion, down_basis, finite_quat, has_rot, has_trans, hinge_angle, holds_rot, holds_trans,
    joint_angle, law_negated_previous_rotation, law_null_vector_stays_null, lemma_same_pose,
    quat_rotate_inv, rot_at, same_poses, same_vec, trans_at, BaseMotion, Quat, Vec3,
};
use crate::launch::{
    after_launch, after_thread, after_threads, law_one_thread_per_column, lemma_stride,
    lemma_thread_end, lemma_thread_start, lemma_thread_step, lemma_threads_end,
    lemma_threads_start, lemma_threads_step, owns, threads_started, within_thread, InvocationId,
    MAX_NUM_THREADS,
};
use crate::scalar::{numeric, zero, Scalar, ZERO};
use vstd::prelude::*;

verus! {

/// Scalar configuration of the observation assembly.
pub struct ObsParams<R> {
    /// Number of environments `n`.
    pub num_envs: u32,
    /// Number of actuated joints `J`.
    pub num_joints: u32,
    /// Poses per environment, the stride between environments in a pose buffer.
    pub colliders_per_batch: u32,
    /// Link index of the base within an environment's poses.
    pub torso_link: u32,
    /// Policy observation dimension (rows of `obs`).
    pub obs_dim: u32,
    /// Critic observation dimension (rows of `critic_obs`).
    pub critic_obs_dim: u32,
    /// Forward world axis.
    pub fwd: u32,
    /// Lateral world axis.
    pub lat: u32,
    /// Up world axis.
    pub up: u32,
    /// Control timestep for the finite-difference velocities.
    pub control_dt: R,
    pub pad0: u32,
    pub pad1: u32,
    pub pad2: u32,
    pub pad3: u32,
    pub pad4: u32,
    pub pad5: u32,
}

impl<R: Copy> Copy for ObsParams<R> {

}

impl<R: Copy> Clone for ObsParams<R> {
    fn clone(&self) -> (r: Self)
        ensures
            r == *self,
    {
        *self
    }
}

/// Topology and default of one joint.
pub struct JointObsCfg<R> {
    /// Parent link index, within an environment's poses.
    pub parent_link: u32,
    /// Child (actuated) link index.
    pub child_link: u32,
    /// Default position, subtracted in the observation.
    pub default_pos: R,
    pub pad: R,
    /// Rest quaternion `(x, y, z, w)`, from parent to child at zero angle.
    pub rest_quat: [R; 4],
}

impl<R: Copy> Copy for JointObsCfg<R> {

}

impl<R: Copy> Clone for JointObsCfg<R> {
    fn clone(&self) -> (r: Self)
        ensures
            r == *self,
    {
        *self
    }
}

/// Everything that observations are assembled from.
pub struct ObsInputs<'a, R> {
    pub params: &'a ObsParams<R>,
    /// Current poses.
    pub poses: &'a [R],
    /// Poses one control step ago.
    pub prev_poses: &'a [R],
    /// `[J]` joints.
    pub joint_cfg: &'a [JointObsCfg<R>],
    /// `[3 x n]` commanded `vx`, `vy` and yaw rate.
    pub cmd: &'a [R],
    /// `[J x n]` last action.
    pub last_action: &'a [R],
    /// `[J x n]` joint angles one control step ago.
    pub prev_joint_pos: &'a [R],
    /// `[n]` flags: bit 0 says that there are previous poses, bit 1 that there are
    /// previous joint angles.
    pub flags: &'a [u32],
}

impl<'a, R: Scalar> ObsInputs<'a, R> {
    /// Number of environments.
    pub open spec fn n(self) -> int {
        self.params.num_envs as int
    }

    /// Number of joints.
    pub open spec fn joints(self) -> nat {
        self.params.num_joints as nat
    }

    /// Number of rows that the policy observation fills.
    pub open spec fn rows(self) -> nat {
        (3 * self.joints() + 7) as nat
    }

    /// Whether environment `e` has previous poses.
    pub open spec fn has_prev_pose(self, e: int) -> bool {
        self.flags@[e] & 1 != 0
    }

    /// Whether environment `e` has previous joint angles.
    pub open spec fn has_prev_joint_pos(self, e: int) -> bool {
        self.flags@[e] & 2 != 0
    }

    /// The motion of the base of environment `e`.
    pub open spec fn base(self, e: int) -> BaseMotion<R> {
        BaseMotion::observed(
            self.poses@,
            self.prev_poses@,
            e,
            self.params.torso_link as int,
            self.params.colliders_per_batch as int,
            self.has_prev_pose(e),
            self.params.control_dt,
        )
    }

    /// The angle of joint `k` of environment `e`.
    pub open spec fn angle_of(self, k: int, e: int) -> R {
        let cfg = self.joint_cfg@[k];
        hinge_angle(
            self.poses@,
            e,
            self.params.colliders_per_batch as int,
            cfg.parent_link as int,
            cfg.child_link as int,
            Quat::of(cfg.rest_quat@),
        )
    }

    /// The joint angles of environment `e`.
    pub open spec fn joint_pos(self, e: int) -> Seq<R> {
        Seq::new(self.joints(), |k: int| self.angle_of(k, e))
    }

    /// The last action of environment `e`.
    pub open spec fn action(self, e: int) -> Seq<R> {
        column(self.last_action@, self.joints(), self.n(), e)
    }

    /// The command of environment `e`: `vx`, `vy`, yaw rate and a zero.
    pub open spec fn command(self, e: int) -> Seq<R> {
        column(self.cmd@, 3, self.n(), e).push(zero())
    }

    /// The joint angles of environment `e` relative to their defaults.
    pub open spec fn joint_pos_rel(self, e: int) -> Seq<R> {
        Seq::new(
            self.joints(),
            |k: int| self.angle_of(k, e).minus(self.joint_cfg@[k].default_pos),
        )
    }

    /// The joint velocities of environment `e`: finite differences of the angles, or
    /// zero where there are no previous ones.
    pub open spec fn joint_vel(self, e: int) -> Seq<R> {
        Seq::new(
            self.joints(),
            |k: int|
                if self.has_prev_joint_pos(e) {
                    self.angle_of(k, e).minus(self.prev_joint_pos@[cell(k, self.n(), e)]).over(
                        self.params.control_dt,
                    )
                } else {
                    zero()
                },
        )
    }

    /// The policy observation of environment `e`.
    pub open spec fn observation(self, e: int) -> Seq<R> {
        self.action(e) + self.command(e) + self.joint_pos_rel(e) + self.joint_vel(e)
            + self.base(e).body_gravity(self.params.up as int).components()
    }

    /// The top `obs_dim` rows of column `e` of a policy buffer that held `obs` before
    /// the policy observation was written to it.
    pub open spec fn policy_rows(self, e: int, obs: Seq<R>) -> Seq<R> {
        Seq::new(
            self.params.obs_dim as nat,
            |d: int|
                if d < self.rows() {
                    self.observation(e)[d]
                } else {
                    obs[cell(d, self.n(), e)]
                },
        )
    }

    /// The critic observation of environment `e`.
    pub open spec fn critic_observation(self, e: int, obs: Seq<R>) -> Seq<R> {
        self.policy_rows(e, obs) + self.base(e).body_lin().components()
            + self.base(e).body_ang().components()
    }

    /// The inputs hold what environment `e` is assembled from.
    pub open spec fn has_env(self, e: int) -> bool {
        let cpb = self.params.colliders_per_batch as int;
        let torso = self.params.torso_link as int;
        let len = self.poses@.len() as int;
        &&& has_trans(len, e, torso, cpb)
        &&& self.has_prev_pose(e) ==> has_trans(self.prev_poses@.len() as int, e, torso, cpb)
        &&& forall|k: int|
            #![trigger self.joint_cfg@[k]]
            0 <= k < self.joints() ==> {
                &&& has_rot(len, e, self.joint_cfg@[k].parent_link as int, cpb)
                &&& has_rot(len, e, self.joint_cfg@[k].child_link as int, cpb)
            }
        &&& self.has_prev_joint_pos(e) ==> self.joints() * self.n() <= self.prev_joint_pos@.len()
    }

    /// The inputs have the documented shapes.
    pub open spec fn shaped(self) -> bool {
        &&& self.params.up < 3
        &&& self.n() <= self.flags@.len()
        &&& self.joints() <= self.joint_cfg@.len()
        &&& 3 * self.n() <= self.cmd@.len()
        &&& self.joints() * self.n() <= self.last_action@.len()
    }

    /// The inputs hold what every environment of thread `x` needs.
    pub open spec fn ready(self, x: int) -> bool {
        &&& self.shaped()
        &&& forall|e: int| owns(x, self.n(), e) ==> #[trigger] self.has_env(e)
    }

    /// The inputs hold what every environment needs.
    pub open spec fn complete(self) -> bool {
        &&& self.shaped()
        &&& forall|e: int| 0 <= e < self.n() ==> #[trigger] self.has_env(e)
    }

    /// Output buffers of the given lengths hold the observations.
    pub open spec fn outputs_fit(self, obs: int, critic_obs: int, joint_pos_out: int) -> bool {
        &&& self.rows() * self.n() <= obs
        &&& self.params.obs_dim * self.n() <= obs
        &&& (self.params.obs_dim + 6) * self.n() <= critic_obs
        &&& self.joints() * self.n() <= joint_pos_out
    }
}

/// Checks on the inputs.
impl<'a, R: Scalar> ObsInputs<'a, R> {
    /// Whether the inputs hold what environment `e` is assembled from.
    fn holds_env(&self, e: u32) -> (r: bool)
        requires
            e < self.n() <= self.flags@.len(),
            self.joints() <= self.joint_cfg@.len(),
        ensures
            r == self.has_env(e as int),
    {
        let p = self.params;
        let cpb: u32 = p.colliders_per_batch;
        let len: usize = self.poses.len();
        let fl: u32 = load(self.flags, e as usize);
        if !holds_trans(len, e, p.torso_link, cpb) {
            return false;
        }
        if (fl & 1) != 0 && !holds_trans(self.prev_poses.len(), e, p.torso_link, cpb) {
            return false;
        }
        if (fl & 2) != 0 && !matrix_fits(
            p.num_joints as u64,
            p.num_envs,
            self.prev_joint_pos.len(),
        ) {
            return false;
        }
        let mut k: u32 = 0;
        while k < p.num_joints
            invariant
                k <= p.num_joints,
                p == self.params,
                cpb == p.colliders_per_batch,
                len == self.poses@.len(),
                p.num_joints <= self.joint_cfg@.len(),
                forall|i: int|
                    #![trigger self.joint_cfg@[i]]
                    0 <= i < k ==> {
                        &&& has_rot(
                            len as int,
                            e as int,
                            self.joint_cfg@[i].parent_link as int,
                            cpb as int,
                        )
                        &&& has_rot(
                            len as int,
                            e as int,
                            self.joint_cfg@[i].child_link as int,
                            cpb as int,
                        )
                    },
            decreases p.num_joints - k,
        {
            let cfg = load(self.joint_cfg, k as usize);
            if !holds_rot(len, e, cfg.parent_link, cpb) || !holds_rot(len, e, cfg.child_link, cpb) {
                assert(self.joint_cfg@[k as int] == cfg);
                return false;
            }
            k = k + 1;
        }
        true
    }

    /// Whether the inputs have the documented shapes.
    fn is_shaped(&self) -> (r: bool)
        ensures
            r == self.shaped(),
    {
        let p = self.params;
        let n: u32 = p.num_envs;
        p.up < 3 && n as u64 <= self.flags.len() as u64 && p.num_joints as u64
            <= self.joint_cfg.len() as u64 && matrix_fits(3, n, self.cmd.len()) && matrix_fits(
            p.num_joints as u64,
            n,
            self.last_action.len(),
        )
    }

    /// Whether the inputs hold what every environment of thread `x` needs.
    pub fn is_ready(&self, x: u32) -> (r: bool)
        ensures
            r == self.ready(x as int),
    {
        if !self.is_shaped() {
            return false;
        }
        let n: u32 = self.params.num_envs;
        let mut e: u64 = x as u64;
        while e < n as u64
            invariant
                n == self.n(),
                x <= e < 0x2_0000_0000,
                (e - x) % (MAX_NUM_THREADS as int) == 0,
                self.shaped(),
                forall|i: int| owns(x as int, n as int, i) && i < e ==> #[trigger] self.has_env(i),
            decreases n + MAX_NUM_THREADS - e,
        {
            proof {
                lemma_stride(x as int, n as int, e as int);
            }
            if !self.holds_env(e as u32) {
                assert(owns(x as int, n as int, e as int));
                return false;
            }
            e = e + MAX_NUM_THREADS as u64;
        }
        true
    }

    /// Whether the inputs hold what every environment needs.
    pub fn is_complete(&self) -> (r: bool)
        ensures
            r == self.complete(),
    {
        if !self.is_shaped() {
            return false;
        }
        let n: u32 = self.params.num_envs;
        let mut e: u32 = 0;
        while e < n
            invariant
                e <= n,
                n == self.n(),
                self.shaped(),
                forall|i: int| 0 <= i < e ==> #[trigger] self.has_env(i),
            decreases n - e,
        {
            if !self.holds_env(e) {
                return false;
            }
            e = e + 1;
        }
        true
    }

    /// Whether output buffers of the given lengths hold the observations.
    pub fn outputs_are_fit(&self, obs: usize, critic_obs: usize, joint_pos_out: usize) -> (r: bool)
        ensures
            r == self.outputs_fit(obs as int, critic_obs as int, joint_pos_out as int),
    {
        let p = self.params;
        let n: u32 = p.num_envs;
        matrix_fits(3 * p.num_joints as u64 + 7, n, obs) && matrix_fits(p.obs_dim as u64, n, obs)
            && matrix_fits(p.obs_dim as u64 + 6, n, critic_obs) && matrix_fits(
            p.num_joints as u64,
            n,
            joint_pos_out,
        )
    }
}

/// Appends the components of `v` to the rows of column `e` that have been replaced, from
/// row `d` on.
fn put_vec3<R: Scalar>(
    buffer: &mut [R],
    d: usize,
    n: usize,
    e: usize,
    v: Vec3<R>,
    Ghost(base): Ghost<Seq<R>>,
    Ghost(col): Ghost<Seq<R>>,
)
    requires
        e < n,
        d == col.len(),
        (d + 3) * n <= base.len(),
        old(buffer)@ == with_column(base, n as int, e as int, col),
    ensures
        final(buffer)@ == with_column(base, n as int, e as int, col + v.components()),
{
    proof {
        lemma_cell_in(d as int, d + 3, n as int, e as int, base.len() as int);
        lemma_cell_in(d + 1, d + 3, n as int, e as int, base.len() as int);
        lemma_cell_in(d + 2, d + 3, n as int, e as int, base.len() as int);
        assert(buffer@.len() == buffer.len());
        assert(d + 3 <= (d + 3) * n) by (nonlinear_arith)
            requires
                1 <= n,
                0 <= d,
        ;
        assert(col.push(v.x).push(v.y).push(v.z) =~= col + v.components());
    }
    put_row(buffer, d, n, e, v.x, Ghost(base), Ghost(col));
    put_row(buffer, d + 1, n, e, v.y, Ghost(base), Ghost(col.push(v.x)));
    put_row(buffer, d + 2, n, e, v.z, Ghost(base), Ghost(col.push(v.x).push(v.y)));
}

/// Writes the last action and the command of environment `e`.
fn put_action_and_command<R: Scalar>(inputs: &ObsInputs<R>, e: usize, obs: &mut [R])
    requires
        inputs.shaped(),
        inputs.has_env(e as int),
        e < inputs.n(),
        inputs.rows() * inputs.n() <= old(obs)@.len(),
    ensures
        final(obs)@ == with_column(
            old(obs)@,
            inputs.n(),
            e as int,
            inputs.action(e as int) + inputs.command(e as int),
        ),
{
    let n: usize = inputs.params.num_envs as usize;
    let j: usize = inputs.params.num_joints as usize;
    let ghost obs0 = obs@;
    let ghost act = inputs.action(e as int);
    let ghost top = act + inputs.command(e as int);
    let ghost rows = inputs.rows() as int;
    proof {
        assert(obs@.len() == obs.len());
        lemma_rows_bounded(rows, n as int, obs0.len() as int);
        lemma_no_rows(obs0, n as int, e as int);
        assert(top.take(0) =~= Seq::empty());
    }
    let mut k: usize = 0;
    while k < j
        invariant
            k <= j,
            j == inputs.joints(),
            n == inputs.n(),
            e < n,
            rows == inputs.rows(),
            inputs.shaped(),
            inputs.has_env(e as int),
            rows * n <= obs0.len(),
            act == inputs.action(e as int),
            top == act + inputs.command(e as int),
            obs@ == with_column(obs0, n as int, e as int, top.take(k as int)),
        decreases j - k,
    {
        proof {
            lemma_cell_in(
                k as int,
                j as int,
                n as int,
                e as int,
                inputs.last_action@.len() as int,
            );
            lemma_cell_in(k as int, rows, n as int, e as int, obs0.len() as int);
        }
        let v = get(inputs.last_action, k, n, e);
        put_row(obs, k, n, e, v, Ghost(obs0), Ghost(top.take(k as int)));
        proof {
            assert(v == top[k as int]);
            assert(top.take(k as int).push(v) =~= top.take(k + 1));
        }
        k = k + 1;
    }
    proof {
        lemma_cell_in(0, 3, n as int, e as int, inputs.cmd@.len() as int);
        lemma_cell_in(1, 3, n as int, e as int, inputs.cmd@.len() as int);
        lemma_cell_in(2, 3, n as int, e as int, inputs.cmd@.len() as int);
        lemma_cell_in(j as int, rows, n as int, e as int, obs0.len() as int);
        lemma_cell_in(j + 1, rows, n as int, e as int, obs0.len() as int);
        lemma_cell_in(j + 2, rows, n as int, e as int, obs0.len() as int);
        lemma_cell_in(j + 3, rows, n as int, e as int, obs0.len() as int);
    }
    let vx = get(inputs.cmd, 0, n, e);
    let vy = get(inputs.cmd, 1, n, e);
    let yaw = get(inputs.cmd, 2, n, e);
    let z = R::from_bits(ZERO);
    proof {
        assert(top.take(j as int) =~= act);
        assert(act.push(vx).push(vy).push(yaw).push(z) =~= top);
    }
    put_row(obs, j, n, e, vx, Ghost(obs0), Ghost(act));
    put_row(obs, j + 1, n, e, vy, Ghost(obs0), Ghost(act.push(vx)));
    put_row(obs, j + 2, n, e, yaw, Ghost(obs0), Ghost(act.push(vx).push(vy)));
    put_row(obs, j + 3, n, e, z, Ghost(obs0), Ghost(act.push(vx).push(vy).push(yaw)));
}

/// Writes the joint angles of environment `e`, absolute to `joint_pos_out` and relative
/// to the policy observation.
fn put_joint_pos<R: Scalar>(
    inputs: &ObsInputs<R>,
    e: usize,
    obs: &mut [R],
    joint_pos_out: &mut [R],
    Ghost(obs0): Ghost<Seq<R>>,
    Ghost(top): Ghost<Seq<R>>,
)
    requires
        inputs.shaped(),
        inputs.has_env(e as int),
        e < inputs.n(),
        inputs.rows() * inputs.n() <= obs0.len(),
        inputs.joints() * inputs.n() <= old(joint_pos_out)@.len(),
        top.len() == inputs.joints() + 4,
        old(obs)@ == with_column(obs0, inputs.n(), e as int, top),
    ensures
        final(obs)@ == with_column(
            obs0,
            inputs.n(),
            e as int,
            top + inputs.joint_pos_rel(e as int),
        ),
        final(joint_pos_out)@ == with_column(
            old(joint_pos_out)@,
            inputs.n(),
            e as int,
            inputs.joint_pos(e as int),
        ),
{
    let n: usize = inputs.params.num_envs as usize;
    let j: usize = inputs.params.num_joints as usize;
    let cpb: usize = inputs.params.colliders_per_batch as usize;
    let ghost out0 = joint_pos_out@;
    let ghost rows = inputs.rows() as int;
    let ghost pos = inputs.joint_pos(e as int);
    let ghost rel = inputs.joint_pos_rel(e as int);
    proof {
        assert(obs@.len() == obs.len());
        lemma_rows_bounded(rows, n as int, obs0.len() as int);
        lemma_no_rows(out0, n as int, e as int);
        assert(pos.take(0) =~= Seq::empty());
        assert(top + rel.take(0) =~= top);
    }
    let mut k: usize = 0;
    while k < j
        invariant
            k <= j,
            j == inputs.joints(),
            n == inputs.n(),
            cpb == inputs.params.colliders_per_batch,
            e < n,
            rows == inputs.rows(),
            rows <= usize::MAX,
            inputs.shaped(),
            inputs.has_env(e as int),
            rows * n <= obs0.len(),
            j * n <= out0.len(),
            top.len() == j + 4,
            pos == inputs.joint_pos(e as int),
            rel == inputs.joint_pos_rel(e as int),
            obs@ == with_column(obs0, n as int, e as int, top + rel.take(k as int)),
            joint_pos_out@ == with_column(out0, n as int, e as int, pos.take(k as int)),
        decreases j - k,
    {
        proof {
            lemma_cell_in(k as int, j as int, n as int, e as int, out0.len() as int);
            lemma_cell_in(j + 4 + k, rows, n as int, e as int, obs0.len() as int);
        }
        let cfg = load(inputs.joint_cfg, k);
        let rest = Quat {
            x: cfg.rest_quat[0],
            y: cfg.rest_quat[1],
            z: cfg.rest_quat[2],
            w: cfg.rest_quat[3],
        };
        let theta = joint_angle(
            inputs.poses,
            e,
            cpb,
            cfg.parent_link as usize,
            cfg.child_link as usize,
            rest,
        );
        let r = theta.sub(cfg.default_pos);
        put_row(joint_pos_out, k, n, e, theta, Ghost(out0), Ghost(pos.take(k as int)));
        put_row(obs, j + 4 + k, n, e, r, Ghost(obs0), Ghost(top + rel.take(k as int)));
        proof {
            assert(theta == pos[k as int]);
            assert(r == rel[k as int]);
            assert(pos.take(k as int).push(theta) =~= pos.take(k + 1));
            assert((top + rel.take(k as int)).push(r) =~= top + rel.take(k + 1));
        }
        k = k + 1;
    }
    proof {
        assert(pos.take(j as int) =~= pos);
        assert(rel.take(j as int) =~= rel);
    }
}

/// Writes the joint velocities of environment `e` to the policy observation, given the
/// joint angles.
fn put_joint_vel<R: Scalar>(
    inputs: &ObsInputs<R>,
    e: usize,
    joint_pos: &[R],
    obs: &mut [R],
    Ghost(out0): Ghost<Seq<R>>,
    Ghost(obs0): Ghost<Seq<R>>,
    Ghost(top): Ghost<Seq<R>>,
)
    requires
        inputs.shaped(),
        inputs.has_env(e as int),
        e < inputs.n(),
        inputs.rows() * inputs.n() <= obs0.len(),
        inputs.joints() * inputs.n() <= out0.len(),
        joint_pos@ == with_column(out0, inputs.n(), e as int, inputs.joint_pos(e as int)),
        top.len() == 2 * inputs.joints() + 4,
        old(obs)@ == with_column(obs0, inputs.n(), e as int, top),
    ensures
        final(obs)@ == with_column(
            obs0,
            inputs.n(),
            e as int,
            top + inputs.joint_vel(e as int),
        ),
{
    let n: usize = inputs.params.num_envs as usize;
    let j: usize = inputs.params.num_joints as usize;
    let dt = inputs.params.control_dt;
    let has_prev = (load(inputs.flags, e) & 2) != 0;
    let ghost rows = inputs.rows() as int;
    let ghost vel = inputs.joint_vel(e as int);
    proof {
        assert(obs@.len() == obs.len());
        lemma_rows_bounded(rows, n as int, obs0.len() as int);
        assert(top + vel.take(0) =~= top);
    }
    let mut k: usize = 0;
    while k < j
        invariant
            k <= j,
            j == inputs.joints(),
            n == inputs.n(),
            dt == inputs.params.control_dt,
            e < n,
            rows == inputs.rows(),
            rows <= usize::MAX,
            inputs.shaped(),
            inputs.has_env(e as int),
            has_prev == inputs.has_prev_joint_pos(e as int),
            rows * n <= obs0.len(),
            j * n <= out0.len(),
            joint_pos@ == with_column(out0, n as int, e as int, inputs.joint_pos(e as int)),
            top.len() == 2 * j + 4,
            vel == inputs.joint_vel(e as int),
            obs@ == with_column(obs0, n as int, e as int, top + vel.take(k as int)),
        decreases j - k,
    {
        proof {
            lemma_cell_in(k as int, j as int, n as int, e as int, out0.len() as int);
            lemma_cell(k as int, n as int, e as int);
            lemma_cell_in(2 * j + 4 + k, rows, n as int, e as int, obs0.len() as int);
            if has_prev {
                lemma_cell_in(
                    k as int,
                    j as int,
                    n as int,
                    e as int,
                    inputs.prev_joint_pos@.len() as int,
                );
            }
        }
        let theta = get(joint_pos, k, n, e);
        let v = if has_prev {
            theta.sub(get(inputs.prev_joint_pos, k, n, e)).div(dt)
        } else {
            R::from_bits(ZERO)
        };
        put_row(obs, j + 4 + j + k, n, e, v, Ghost(obs0), Ghost(top + vel.take(k as int)));
        proof {
            assert(theta == inputs.joint_pos(e as int)[k as int]);
            assert(v == vel[k as int]);
            assert((top + vel.take(k as int)).push(v) =~= top + vel.take(k + 1));
        }
        k = k + 1;
    }
    proof {
        assert(vel.take(j as int) =~= vel);
    }
}

/// Writes the critic observation of environment `e`, given the policy observations.
fn put_critic<R: Scalar>(
    inputs: &ObsInputs<R>,
    e: usize,
    motion: &BaseMotion<R>,
    obs: &[R],
    critic_obs: &mut [R],
    Ghost(obs0): Ghost<Seq<R>>,
)
    requires
        inputs.shaped(),
        inputs.has_env(e as int),
        e < inputs.n(),
        *motion == inputs.base(e as int),
        inputs.params.obs_dim * inputs.n() <= obs0.len(),
        (inputs.params.obs_dim + 6) * inputs.n() <= old(critic_obs)@.len(),
        obs@ == with_column(obs0, inputs.n(), e as int, inputs.observation(e as int)),
    ensures
        final(critic_obs)@ == with_column(
            old(critic_obs)@,
            inputs.n(),
            e as int,
            inputs.critic_observation(e as int, obs0),
        ),
{
    let n: usize = inputs.params.num_envs as usize;
    let od: usize = inputs.params.obs_dim as usize;
    let ghost critic0 = critic_obs@;
    let ghost top = inputs.policy_rows(e as int, obs0);
    proof {
        assert(critic_obs@.len() == critic_obs.len());
        lemma_rows_bounded(od + 6, n as int, critic0.len() as int);
        lemma_no_rows(critic0, n as int, e as int);
        assert(top.take(0) =~= Seq::empty());
    }
    let mut d: usize = 0;
    while d < od
        invariant
            d <= od,
            od == inputs.params.obs_dim,
            n == inputs.n(),
            e < n,
            od * n <= obs0.len(),
            (od + 6) * n <= critic0.len(),
            obs@ == with_column(obs0, n as int, e as int, inputs.observation(e as int)),
            top == inputs.policy_rows(e as int, obs0),
            critic_obs@ == with_column(critic0, n as int, e as int, top.take(d as int)),
        decreases od - d,
    {
        proof {
            lemma_cell_in(d as int, od as int, n as int, e as int, obs0.len() as int);
            lemma_cell_in(d as int, od + 6, n as int, e as int, critic0.len() as int);
            lemma_cell(d as int, n as int, e as int);
        }
        let v = get(obs, d, n, e);
        put_row(critic_obs, d, n, e, v, Ghost(critic0), Ghost(top.take(d as int)));
        proof {
            assert(inputs.observation(e as int).len() == inputs.rows());
            assert(v == top[d as int]);
            assert(top.take(d as int).push(v) =~= top.take(d + 1));
        }
        d = d + 1;
    }
    let v_body = quat_rotate_inv(motion.rot, motion.lin);
    let w_body = quat_rotate_inv(motion.rot, motion.ang);
    proof {
        assert(top.take(od as int) =~= top);
        assert((od + 3) * n <= (od + 6) * n) by (nonlinear_arith)
            requires
                0 <= n,
        ;
    }
    put_vec3(critic_obs, od, n, e, v_body, Ghost(critic0), Ghost(top));
    put_vec3(
        critic_obs,
        od + 3,
        n,
        e,
        w_body,
        Ghost(critic0),
        Ghost(top + v_body.components()),
    );
}

/// Assembles the observations of environment `e`.
fn obs_env<R: Scalar>(
    inputs: &ObsInputs<R>,
    e: usize,
    obs: &mut [R],
    critic_obs: &mut [R],
    joint_pos_out: &mut [R],
)
    requires
        inputs.shaped(),
        inputs.has_env(e as int),
        e < inputs.n(),
        inputs.outputs_fit(
            old(obs)@.len() as int,
            old(critic_obs)@.len() as int,
            old(joint_pos_out)@.len() as int,
        ),
    ensures
        final(obs)@ == with_column(
            old(obs)@,
            inputs.n(),
            e as int,
            inputs.observation(e as int),
        ),
        final(critic_obs)@ == with_column(
            old(critic_obs)@,
            inputs.n(),
            e as int,
            inputs.critic_observation(e as int, old(obs)@),
        ),
        final(joint_pos_out)@ == with_column(
            old(joint_pos_out)@,
            inputs.n(),
            e as int,
            inputs.joint_pos(e as int),
        ),
{
    let p = inputs.params;
    let n: usize = p.num_envs as usize;
    let j: usize = p.num_joints as usize;
    let ghost obs0 = obs@;
    let ghost out0 = joint_pos_out@;
    let ghost rows = inputs.rows() as int;
    proof {
        assert(obs@.len() == obs.len());
        lemma_rows_bounded(rows, n as int, obs0.len() as int);
    }
    let has_prev_pose = (load(inputs.flags, e) & 1) != 0;
    let motion = base_motion(
        inputs.poses,
        inputs.prev_poses,
        e,
        p.torso_link as usize,
        p.colliders_per_batch as usize,
        has_prev_pose,
        p.control_dt,
    );
    let grav = quat_rotate_inv(motion.rot, down_basis(p.up as usize));
    let ghost c1 = inputs.action(e as int) + inputs.command(e as int);
    let ghost c2 = c1 + inputs.joint_pos_rel(e as int);
    let ghost c3 = c2 + inputs.joint_vel(e as int);
    put_action_and_command(inputs, e, obs);
    put_joint_pos(inputs, e, obs, joint_pos_out, Ghost(obs0), Ghost(c1));
    put_joint_vel(inputs, e, joint_pos_out, obs, Ghost(out0), Ghost(obs0), Ghost(c2));
    put_vec3(obs, j + 4 + j + j, n, e, grav, Ghost(obs0), Ghost(c3));
    put_critic(inputs, e, &motion, obs, critic_obs, Ghost(obs0));
}

/// The critic observation does not depend on what the policy buffer holds in the rows that
/// policy observations fill, and so not on which threads have run before.
pub proof fn law_critic_ignores_policy_rows<R: Scalar>(
    inputs: ObsInputs<R>,
    e: int,
    a: Seq<R>,
    b: Seq<R>,
)
    requires
        0 <= e < inputs.n(),
        inputs.params.obs_dim * inputs.n() <= b.len(),
        a.len() == b.len(),
        forall|i: int|
            0 <= i < b.len() && inputs.rows() <= i / inputs.n() ==> #[trigger] a[i] == b[i],
    ensures
        inputs.critic_observation(e, a) == inputs.critic_observation(e, b),
{
    let n = inputs.n();
    let od = inputs.params.obs_dim as int;
    assert forall|d: int| 0 <= d < od implies inputs.policy_rows(e, a)[d] == inputs.policy_rows(
        e,
        b,
    )[d] by {
        lemma_cell_in(d, od, n, e, b.len() as int);
        lemma_cell(d, n, e);
    }
    assert(inputs.policy_rows(e, a) =~= inputs.policy_rows(e, b));
}

/// Assembles the policy and the critic observation of every environment of a thread.
///
/// Also writes this step's joint angles to `joint_pos_out`, to be handed in as the next
/// step's `prev_joint_pos`.
pub fn gpu_obs<R: Scalar>(
    invocation_id: InvocationId,
    params: &ObsParams<R>,
    poses: &[R],
    prev_poses: &[R],
    joint_cfg: &[JointObsCfg<R>],
    cmd: &[R],
    last_action: &[R],
    prev_joint_pos: &[R],
    flags: &[u32],
    obs: &mut [R],
    critic_obs: &mut [R],
    joint_pos_out: &mut [R],
)
    requires
        invocation_id.x < params.num_envs ==> ({
            let inputs = ObsInputs {
                params,
                poses,
                prev_poses,
                joint_cfg,
                cmd,
                last_action,
                prev_joint_pos,
                flags,
            };
            &&& inputs.ready(invocation_id.x as int)
            &&& inputs.outputs_fit(
                old(obs)@.len() as int,
                old(critic_obs)@.len() as int,
                old(joint_pos_out)@.len() as int,
            )
        }),
    ensures
        ({
            let inputs = ObsInputs {
                params,
                poses,
                prev_poses,
                joint_cfg,
                cmd,
                last_action,
                prev_joint_pos,
                flags,
            };
            let (n, x) = (params.num_envs as int, invocation_id.x as int);
            &&& final(obs)@ == after_thread(old(obs)@, n, x, |e: int| inputs.observation(e))
            &&& final(critic_obs)@ == after_thread(
                old(critic_obs)@,
                n,
                x,
                |e: int| inputs.critic_observation(e, old(obs)@),
            )
            &&& final(joint_pos_out)@ == after_thread(
                old(joint_pos_out)@,
                n,
                x,
                |e: int| inputs.joint_pos(e),
            )
        }),
{
    let inputs = ObsInputs {
        params,
        poses,
        prev_poses,
        joint_cfg,
        cmd,
        last_action,
        prev_joint_pos,
        flags,
    };
    let ghost n = params.num_envs as int;
    let ghost x = invocation_id.x as int;
    let ghost obs0 = obs@;
    let ghost critic0 = critic_obs@;
    let ghost out0 = joint_pos_out@;
    let ghost col = |e: int| inputs.observation(e);
    let ghost critic = |e: int| inputs.critic_observation(e, obs0);
    let ghost pos = |e: int| inputs.joint_pos(e);
    proof {
        lemma_thread_start(obs0, n, x, col);
        lemma_thread_start(critic0, n, x, critic);
        lemma_thread_start(out0, n, x, pos);
    }
    let mut e: u64 = invocation_id.x as u64;
    while e < params.num_envs as u64
        invariant
            x == invocation_id.x,
            n == params.num_envs,
            n == inputs.n(),
            x <= e < 0x2_0000_0000,
            (e - x) % (MAX_NUM_THREADS as int) == 0,
            x < n ==> inputs.ready(x) && inputs.outputs_fit(
                obs0.len() as int,
                critic0.len() as int,
                out0.len() as int,
            ),
            col == (|e: int| inputs.observation(e)),
            critic == (|e: int| inputs.critic_observation(e, obs0)),
            pos == (|e: int| inputs.joint_pos(e)),
            obs@ == within_thread(obs0, n, x, e as int, col),
            critic_obs@ == within_thread(critic0, n, x, e as int, critic),
            joint_pos_out@ == within_thread(out0, n, x, e as int, pos),
        decreases params.num_envs + MAX_NUM_THREADS - e,
    {
        proof {
            assert(owns(x, n, e as int));
            lemma_stride(x, n, e as int);
            lemma_thread_step(obs0, n, x, e as int, col);
            lemma_thread_step(critic0, n, x, e as int, critic);
            lemma_thread_step(out0, n, x, e as int, pos);
            law_critic_ignores_policy_rows(inputs, e as int, obs@, obs0);
        }
        obs_env(&inputs, e as usize, obs, critic_obs, joint_pos_out);
        e = e + MAX_NUM_THREADS as u64;
    }
    proof {
        lemma_thread_end(obs0, n, x, e as int, col);
        lemma_thread_end(critic0, n, x, e as int, critic);
        lemma_thread_end(out0, n, x, e as int, pos);
    }
}

/// Observation assembly for all environments, launched on the host.
#[derive(Clone, Copy, Debug)]
pub struct Obs {}

impl Obs {
    /// Assembles the observations of all environments: runs one thread per environment,
    /// rounded up to whole workgroups, one after the other.
    pub fn assemble<R: Scalar>(
        &self,
        params: &ObsParams<R>,
        poses: &[R],
        prev_poses: &[R],
        joint_cfg: &[JointObsCfg<R>],
        cmd: &[R],
        last_action: &[R],
        prev_joint_pos: &[R],
        flags: &[u32],
        obs: &mut [R],
        critic_obs: &mut [R],
        joint_pos_out: &mut [R],
    )
        requires
            0 < params.num_envs ==> ({
                let inputs = ObsInputs {
                    params,
                    poses,
                    prev_poses,
                    joint_cfg,
                    cmd,
                    last_action,
                    prev_joint_pos,
                    flags,
                };
                &&& inputs.complete()
                &&& inputs.outputs_fit(
                    old(obs)@.len() as int,
                    old(critic_obs)@.len() as int,
                    old(joint_pos_out)@.len() as int,
                )
            }),
        ensures
            ({
                let inputs = ObsInputs {
                    params,
                    poses,
                    prev_poses,
                    joint_cfg,
                    cmd,
                    last_action,
                    prev_joint_pos,
                    flags,
                };
                let n = params.num_envs as int;
                &&& final(obs)@ == after_launch(old(obs)@, n, |e: int| inputs.observation(e))
                &&& final(critic_obs)@ == after_launch(
                    old(critic_obs)@,
                    n,
                    |e: int| inputs.critic_observation(e, old(obs)@),
                )
                &&& final(joint_pos_out)@ == after_launch(
                    old(joint_pos_out)@,
                    n,
                    |e: int| inputs.joint_pos(e),
                )
            }),
    {
        let ghost inputs = ObsInputs {
            params,
            poses,
            prev_poses,
            joint_cfg,
            cmd,
            last_action,
            prev_joint_pos,
            flags,
        };
        let ghost n = params.num_envs as int;
        let ghost obs0 = obs@;
        let ghost critic0 = critic_obs@;
        let ghost out0 = joint_pos_out@;
        let ghost col = |e: int| inputs.observation(e);
        let ghost critic = |e: int| inputs.critic_observation(e, obs0);
        let ghost pos = |e: int| inputs.joint_pos(e);
        let total: u64 = threads_started(params.num_envs);
        proof {
            lemma_threads_start(obs0, n, col);
            lemma_threads_start(critic0, n, critic);
            lemma_threads_start(out0, n, pos);
        }
        let mut x: u64 = 0;
        while x < total
            invariant
                x <= total <= 0x1_0000_0000,
                n == params.num_envs,
                n == inputs.n(),
                inputs == (ObsInputs {
                    params,
                    poses,
                    prev_poses,
                    joint_cfg,
                    cmd,
                    last_action,
                    prev_joint_pos,
                    flags,
                }),
                0 < n ==> inputs.complete() && inputs.outputs_fit(
                    obs0.len() as int,
                    critic0.len() as int,
                    out0.len() as int,
                ),
                col == (|e: int| inputs.observation(e)),
                critic == (|e: int| inputs.critic_observation(e, obs0)),
                pos == (|e: int| inputs.joint_pos(e)),
                obs@ == after_threads(obs0, n, x as int, col),
                critic_obs@ == after_threads(critic0, n, x as int, critic),
                joint_pos_out@ == after_threads(out0, n, x as int, pos),
            decreases total - x,
        {
            let ghost now = obs@;
            let ghost again = |e: int| inputs.critic_observation(e, now);
            proof {
                assert forall|e: int| 0 <= e < n implies #[trigger] again(e) == critic(e) by {
                    law_critic_ignores_policy_rows(inputs, e, now, obs0);
                }
                lemma_threads_step(obs0, n, x as int, col, col);
                lemma_threads_step(critic0, n, x as int, critic, again);
                lemma_threads_step(out0, n, x as int, pos, pos);
            }
            let id = InvocationId { x: x as u32, y: 0, z: 0 };
            gpu_obs(
                id,
                params,
                poses,
                prev_poses,
                joint_cfg,
                cmd,
                last_action,
                prev_joint_pos,
                flags,
                obs,
                critic_obs,
                joint_pos_out,
            );
            x = x + 1;
        }
        proof {
            lemma_threads_end(obs0, n, n, col);
            lemma_threads_end(critic0, n, n, critic);
            lemma_threads_end(out0, n, n, pos);
        }
    }
}

/// The policy observation is laid out as
/// `[last_action(J), command(4), joint_pos_rel(J), joint_vel(J), proj_gravity(3)]`.
pub proof fn law_obs_layout<R: Scalar>(inputs: ObsInputs<R>, e: int)
    ensures
        ({
            let j = inputs.joints() as int;
            let o = inputs.observation(e);
            &&& o.len() == 3 * j + 7
            &&& o.subrange(0, j) == inputs.action(e)
            &&& o.subrange(j, j + 4) == inputs.command(e)
            &&& o.subrange(j + 4, 2 * j + 4) == inputs.joint_pos_rel(e)
            &&& o.subrange(2 * j + 4, 3 * j + 4) == inputs.joint_vel(e)
            &&& o.subrange(3 * j + 4, 3 * j + 7) == inputs.base(e).body_gravity(
                inputs.params.up as int,
            ).components()
        }),
{
    let j = inputs.joints() as int;
    let o = inputs.observation(e);
    assert(o.subrange(0, j) =~= inputs.action(e));
    assert(o.subrange(j, j + 4) =~= inputs.command(e));
    assert(o.subrange(j + 4, 2 * j + 4) =~= inputs.joint_pos_rel(e));
    assert(o.subrange(2 * j + 4, 3 * j + 4) =~= inputs.joint_vel(e));
    assert(o.subrange(3 * j + 4, 3 * j + 7) =~= inputs.base(e).body_gravity(
        inputs.params.up as int,
    ).components());
}

/// With `obs_dim` rows of policy observation, the critic observation is the policy
/// observation followed by the base's linear and angular velocity in the body frame,
/// whatever the policy buffer held before.
pub proof fn law_critic_appends_velocities<R: Scalar>(inputs: ObsInputs<R>, e: int, obs: Seq<R>)
    requires
        inputs.params.obs_dim == inputs.rows(),
    ensures
        inputs.critic_observation(e, obs) == inputs.observation(e)
            + inputs.base(e).body_lin().components() + inputs.base(e).body_ang().components(),
        inputs.critic_observation(e, obs).len() == inputs.params.obs_dim + 6,
{
    assert(inputs.policy_rows(e, obs) =~= inputs.observation(e));
}

/// The first step after a reset has no velocities: without previous poses the base does
/// not move, and without previous joint angles neither do the joints.
pub proof fn law_no_history_no_velocity<R: Scalar>(inputs: ObsInputs<R>, e: int, k: int)
    requires
        0 <= k < inputs.joints(),
    ensures
        !inputs.has_prev_pose(e) ==> inputs.base(e).lin == Vec3::<R>::null() && inputs.base(e).ang
            == Vec3::<R>::null(),
        !inputs.has_prev_joint_pos(e) ==> inputs.joint_vel(e)[k] == zero::<R>(),
        !inputs.has_prev_joint_pos(e) ==> inputs.observation(e)[2 * inputs.joints() + 4 + k]
            == zero::<R>(),
{
}

/// Without previous poses the six velocity rows of the critic observation are zero, where
/// the rotation of the base is finite.
pub proof fn law_no_history_no_velocity_rows<R: Scalar>(
    num: spec_fn(R) -> R,
    inputs: ObsInputs<R>,
    e: int,
    obs: Seq<R>,
    d: int,
)
    requires
        numeric(num),
        finite_quat(num, inputs.base(e).rot),
        !inputs.has_prev_pose(e),
        0 <= d < 6,
    ensures
        num(inputs.critic_observation(e, obs)[inputs.params.obs_dim + d]) == num(zero()),
{
    law_null_vector_stays_null(num, inputs.base(e).rot);
    let (v, w) = (inputs.base(e).body_lin(), inputs.base(e).body_ang());
    let null = Vec3::<R>::null();
    assert(same_vec(num, v, null) && same_vec(num, w, null));
    assert(v.components()[0] == v.x && v.components()[1] == v.y && v.components()[2] == v.z);
    assert(w.components()[0] == w.x && w.components()[1] == w.y && w.components()[2] == w.z);
}

/// Two sets of inputs are the same, but for history that the flags of environment `e` say
/// is not there, and for flag bits that mean nothing.
pub open spec fn same_but_unused_history<R: Scalar>(
    a: ObsInputs<R>,
    b: ObsInputs<R>,
    e: int,
) -> bool {
    &&& a.params == b.params
    &&& a.poses@ == b.poses@
    &&& a.joint_cfg@ == b.joint_cfg@
    &&& a.cmd@ == b.cmd@
    &&& a.last_action@ == b.last_action@
    &&& a.flags@[e] & 3 == b.flags@[e] & 3
    &&& a.has_prev_pose(e) ==> a.prev_poses@ == b.prev_poses@
    &&& a.has_prev_joint_pos(e) ==> a.prev_joint_pos@ == b.prev_joint_pos@
}

/// History that the flags say is not there is not read: without bit 0 no output depends on
/// the previous poses, without bit 1 none depends on the previous joint angles, and the
/// other bits change nothing.
pub proof fn law_unused_history_is_unread<R: Scalar>(
    a: ObsInputs<R>,
    b: ObsInputs<R>,
    e: int,
    obs: Seq<R>,
)
    requires
        same_but_unused_history(a, b, e),
    ensures
        a.observation(e) == b.observation(e),
        a.critic_observation(e, obs) == b.critic_observation(e, obs),
        a.joint_pos(e) == b.joint_pos(e),
{
    lemma_flag_bits(a.flags@[e], b.flags@[e]);
    assert(a.base(e) == b.base(e));
    assert(a.joint_pos(e) =~= b.joint_pos(e));
    assert(a.joint_pos_rel(e) =~= b.joint_pos_rel(e));
    assert(a.joint_vel(e) =~= b.joint_vel(e));
    assert(a.action(e) =~= b.action(e));
    assert(a.command(e) =~= b.command(e));
    assert(a.policy_rows(e, obs) =~= b.policy_rows(e, obs));
}

/// Words that agree on the lowest two bits agree on each of them.
pub proof fn lemma_flag_bits(f: u32, g: u32)
    requires
        f & 3 == g & 3,
    ensures
        f & 1 == g & 1,
        f & 2 == g & 2,
{
    assert(f & 3 == g & 3 ==> f & 1 == g & 1 && f & 2 == g & 2) by (bit_vector);
}

/// The joint rows of the policy observation and the joint angles that the step writes fit
/// together: the position row is the angle minus the default, and the velocity row is the
/// difference of the angle and the previous one over the timestep, if there is one.
pub proof fn law_joint_rows<R: Scalar>(inputs: ObsInputs<R>, e: int, k: int)
    requires
        0 <= k < inputs.joints(),
    ensures
        inputs.observation(e)[inputs.joints() + 4 + k] == inputs.joint_pos(e)[k].minus(
            inputs.joint_cfg@[k].default_pos,
        ),
        inputs.has_prev_joint_pos(e) ==> inputs.observation(e)[2 * inputs.joints() + 4 + k]
            == inputs.joint_pos(e)[k].minus(
            inputs.prev_joint_pos@[cell(k, inputs.n(), e)],
        ).over(inputs.params.control_dt),
{
}

/// The joint angles that one step writes are those that the next step differentiates
/// against: its joint velocities are the differences of the two steps' angles over the
/// timestep.
pub proof fn law_joint_pos_feeds_next_step<R: Scalar>(
    now: ObsInputs<R>,
    next: ObsInputs<R>,
    buf: Seq<R>,
    e: int,
    k: int,
)
    requires
        next.n() == now.n(),
        next.joints() == now.joints(),
        0 <= e < now.n(),
        0 <= k < now.joints(),
        now.joints() * now.n() <= buf.len(),
        next.prev_joint_pos@ == after_launch(buf, now.n(), |c: int| now.joint_pos(c)),
        next.has_prev_joint_pos(e),
    ensures
        next.joint_vel(e)[k] == next.angle_of(k, e).minus(now.angle_of(k, e)).over(
            next.params.control_dt,
        ),
{
    lemma_cell(k, now.n(), e);
    lemma_cell_in(k, now.joints() as int, now.n(), e, buf.len() as int);
}

/// Joints do not move while the poses stay the same: a second step on the same poses, handed
/// the joint angles of the first, writes the same angles and observes zero velocities,
/// wherever an angle minus itself over the timestep is zero.
pub proof fn law_unchanged_poses_have_no_joint_velocity<R: Scalar>(
    now: ObsInputs<R>,
    next: ObsInputs<R>,
    buf: Seq<R>,
    e: int,
    k: int,
)
    requires
        next.n() == now.n(),
        next.joints() == now.joints(),
        next.params.colliders_per_batch == now.params.colliders_per_batch,
        next.poses@ == now.poses@,
        next.joint_cfg@ == now.joint_cfg@,
        0 <= e < now.n(),
        0 <= k < now.joints(),
        now.joints() * now.n() <= buf.len(),
        next.prev_joint_pos@ == after_launch(buf, now.n(), |c: int| now.joint_pos(c)),
        next.has_prev_joint_pos(e),
        now.angle_of(k, e).minus(now.angle_of(k, e)).over(next.params.control_dt) == zero::<R>(),
    ensures
        next.joint_vel(e)[k] == zero::<R>(),
        next.observation(e)[2 * next.joints() + 4 + k] == zero::<R>(),
        next.joint_pos(e) == now.joint_pos(e),
{
    law_joint_pos_feeds_next_step(now, next, buf, e, k);
    assert(next.joint_pos(e) =~= now.joint_pos(e));
}

/// Giving the previous rotation of the base by the negated quaternion changes no output of
/// the environment: the policy observation and the joint angles are the same, and so is
/// every row of the critic observation in the reading `num`. The scalar part of the
/// relative rotation must not be zero, so that exactly one of it and its negation is at
/// least zero.
pub proof fn law_negated_previous_torso<R: Scalar>(
    num: spec_fn(R) -> R,
    a: ObsInputs<R>,
    b: ObsInputs<R>,
    e: int,
    obs: Seq<R>,
    d: int,
)
    requires
        numeric(num),
        a.params == b.params,
        a.poses@ == b.poses@,
        a.joint_cfg@ == b.joint_cfg@,
        a.cmd@ == b.cmd@,
        a.last_action@ == b.last_action@,
        a.prev_joint_pos@ == b.prev_joint_pos@,
        a.flags@[e] == b.flags@[e],
        ({
            let (torso, cpb) = (
                a.params.torso_link as int,
                a.params.colliders_per_batch as int,
            );
            let before = rot_at(a.prev_poses@, e, torso, cpb);
            let dq = rot_at(a.poses@, e, torso, cpb).product(before.conjugate());
            &&& rot_at(b.prev_poses@, e, torso, cpb) == before.negated()
            &&& trans_at(b.prev_poses@, e, torso, cpb) == trans_at(a.prev_poses@, e, torso, cpb)
            &&& zero::<R>().at_most(dq.w) != zero::<R>().at_most(dq.w.opposite())
        }),
        0 <= d < a.params.obs_dim + 6,
    ensures
        a.observation(e) == b.observation(e),
        a.joint_pos(e) == b.joint_pos(e),
        d < a.params.obs_dim + 3 ==> a.critic_observation(e, obs)[d] == b.critic_observation(
            e,
            obs,
        )[d],
        num(a.critic_observation(e, obs)[d]) == num(b.critic_observation(e, obs)[d]),
{
    law_negated_previous_rotation(
        num,
        a.poses@,
        a.prev_poses@,
        b.prev_poses@,
        e,
        a.params.torso_link as int,
        a.params.colliders_per_batch as int,
        a.has_prev_pose(e),
        a.params.control_dt,
    );
    assert(a.joint_pos(e) =~= b.joint_pos(e));
    assert(a.joint_pos_rel(e) =~= b.joint_pos_rel(e));
    assert(a.joint_vel(e) =~= b.joint_vel(e));
    assert(a.policy_rows(e, obs) =~= b.policy_rows(e, obs));
    let (v, w) = (a.base(e).body_ang(), b.base(e).body_ang());
    assert(v.components()[0] == v.x && v.components()[1] == v.y && v.components()[2] == v.z);
    assert(w.components()[0] == w.x && w.components()[1] == w.y && w.components()[2] == w.z);
}

/// Two sets of inputs agree on environment `e`: on its poses, and on its own column of
/// everything else.
pub open spec fn same_env<R: Scalar>(a: ObsInputs<R>, b: ObsInputs<R>, e: int) -> bool {
    let cpb = a.params.colliders_per_batch as int;
    &&& a.params == b.params
    &&& a.joint_cfg@ == b.joint_cfg@
    &&& a.flags@[e] & 3 == b.flags@[e] & 3
    &&& same_poses(a.poses@, b.poses@, e, cpb)
    &&& a.has_prev_pose(e) ==> same_poses(a.prev_poses@, b.prev_poses@, e, cpb)
    &&& a.command(e) == b.command(e)
    &&& a.action(e) == b.action(e)
    &&& a.has_prev_joint_pos(e) ==> column(a.prev_joint_pos@, a.joints(), a.n(), e) == column(
        b.prev_joint_pos@,
        a.joints(),
        a.n(),
        e,
    )
}

/// An environment is observed from its own data alone: where all links lie within the
/// environment's poses, the other environments make no difference, neither to the policy
/// nor to the critic observation.
pub proof fn law_observation_is_local<R: Scalar>(
    a: ObsInputs<R>,
    b: ObsInputs<R>,
    e: int,
    obs: Seq<R>,
    obs2: Seq<R>,
)
    requires
        same_env(a, b, e),
        a.params.torso_link < a.params.colliders_per_batch,
        forall|k: int|
            #![trigger a.joint_cfg@[k]]
            0 <= k < a.joints() ==> a.joint_cfg@[k].parent_link < a.params.colliders_per_batch
                && a.joint_cfg@[k].child_link < a.params.colliders_per_batch,
        column(obs, a.params.obs_dim as nat, a.n(), e) == column(
            obs2,
            a.params.obs_dim as nat,
            a.n(),
            e,
        ),
    ensures
        a.base(e) == b.base(e),
        a.joint_pos(e) == b.joint_pos(e),
        a.observation(e) == b.observation(e),
        a.critic_observation(e, obs) == b.critic_observation(e, obs2),
{
    let cpb = a.params.colliders_per_batch as int;
    let torso = a.params.torso_link as int;
    let od = a.params.obs_dim as nat;
    lemma_flag_bits(a.flags@[e], b.flags@[e]);
    lemma_same_pose(a.poses@, b.poses@, e, torso, cpb);
    if a.has_prev_pose(e) {
        lemma_same_pose(a.prev_poses@, b.prev_poses@, e, torso, cpb);
    }
    assert forall|k: int| 0 <= k < a.joints() implies a.angle_of(k, e) == b.angle_of(k, e) by {
        let cfg = a.joint_cfg@[k];
        lemma_same_pose(a.poses@, b.poses@, e, cfg.parent_link as int, cpb);
        lemma_same_pose(a.poses@, b.poses@, e, cfg.child_link as int, cpb);
    }
    assert(a.joint_pos(e) =~= b.joint_pos(e));
    assert(a.joint_pos_rel(e) =~= b.joint_pos_rel(e));
    assert forall|k: int| 0 <= k < a.joints() implies a.joint_vel(e)[k] == b.joint_vel(e)[k] by {
        assert(a.angle_of(k, e) == b.angle_of(k, e));
        if a.has_prev_joint_pos(e) {
            assert(column(a.prev_joint_pos@, a.joints(), a.n(), e)[k] == column(
                b.prev_joint_pos@,
                a.joints(),
                a.n(),
                e,
            )[k]);
        }
    }
    assert(a.joint_vel(e) =~= b.joint_vel(e));
    assert forall|d: int| 0 <= d < od implies a.policy_rows(e, obs)[d] == b.policy_rows(
        e,
        obs2,
    )[d] by {
        assert(column(obs, od, a.n(), e)[d] == column(obs2, od, a.n(), e)[d]);
    }
    assert(a.policy_rows(e, obs) =~= b.policy_rows(e, obs2));
}

/// What the inputs must hold, by places in the buffers: the base's whole pose, before and after
/// where there is a before, the rotations of both links of every joint, and the matrices of
/// commands, actions and previous angles.
pub proof fn law_what_observations_need<R: Scalar>(inputs: ObsInputs<R>, e: int)
    ensures
        ({
            let p = inputs.params;
            let (n, j, cpb) = (p.num_envs, p.num_joints, p.colliders_per_batch);
            let base_end = (e * cpb + p.torso_link) * 8 + 7;
            &&& inputs.shaped() == (p.up < 3 && n <= inputs.flags@.len() && j
                <= inputs.joint_cfg@.len() && 3 * n <= inputs.cmd@.len() && j * n
                <= inputs.last_action@.len())
            &&& inputs.has_env(e) == (base_end <= inputs.poses@.len() && (inputs.flags@[e] & 1 != 0
                ==> base_end <= inputs.prev_poses@.len()) && (inputs.flags@[e] & 2 != 0 ==> j * n
                <= inputs.prev_joint_pos@.len()) && forall|k: int|
                0 <= k < j ==> (e * cpb + (#[trigger] inputs.joint_cfg@[k]).parent_link) * 8 + 4
                    <= inputs.poses@.len() && (e * cpb + inputs.joint_cfg@[k].child_link) * 8 + 4
                    <= inputs.poses@.len())
        }),
{
}

/// Inputs that are complete are ready for every thread, and inputs that are ready for every
/// thread are complete.
pub proof fn law_complete_is_ready_for_all<R: Scalar>(inputs: ObsInputs<R>)
    ensures
        inputs.complete() ==> forall|x: int| 0 <= x ==> #[trigger] inputs.ready(x),
        (forall|x: int| 0 <= x < MAX_NUM_THREADS ==> #[trigger] inputs.ready(x))
            ==> inputs.complete(),
{
    if forall|x: int| 0 <= x < MAX_NUM_THREADS ==> #[trigger] inputs.ready(x) {
        assert(inputs.ready(0));
        assert forall|e: int| 0 <= e < inputs.n() implies #[trigger] inputs.has_env(e) by {
            let x = e % (MAX_NUM_THREADS as int);
            law_one_thread_per_column(inputs.n(), e);
            assert(inputs.ready(x));
            assert(owns(x, inputs.n(), e));
        }
    }
}

/// What the output buffers must hold: the policy observation and `obs_dim` rows of it, six rows
/// more for the critic, and an angle for each joint, each for every environment.
pub proof fn law_observation_outputs<R: Scalar>(
    inputs: ObsInputs<R>,
    obs: int,
    critic_obs: int,
    joint_pos_out: int,
)
    ensures
        ({
            let p = inputs.params;
            let (n, j) = (p.num_envs, p.num_joints);
            inputs.outputs_fit(obs, critic_obs, joint_pos_out) == ((3 * j + 7) * n <= obs
                && p.obs_dim * n <= obs && (p.obs_dim + 6) * n <= critic_obs && j * n
                <= joint_pos_out)
        }),
{
}

} // verus!
