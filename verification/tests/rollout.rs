use vortx_rollout::geometry::{
    joint_angle, quat_conj, quat_mul, quat_rotate, quat_rotate_inv, Quat, Vec3,
};
use vortx_rollout::launch::{threads_started, InvocationId};
use vortx_rollout::obs::{gpu_obs, JointObsCfg, Obs, ObsInputs, ObsParams};
use vortx_rollout::ppo::{
    actor_shapes_fit, gpu_ppo_actor_grad, gpu_ppo_stage_batch, gpu_ppo_value_grad, stage_fits,
    PpoActorParams, PpoStageParams, PpoValueParams,
};
use vortx_rollout::reward::{gpu_reward, Reward, RewardInputs, RewardJointCfg, RewardParams};
use vortx_rollout::rng::{counter_u32, mix};
use vortx_rollout::sample::{
    cpu_sample, gpu_sample_gaussian, noise_z, sample_shapes_fit, u01, SampleParams, Sampler,
};
use vortx_rollout::scalar::Scalar;

#[derive(Clone, Copy, Debug, PartialEq)]
struct F(f32);

impl Scalar for F {
    fn literal(bits: u32) -> F {
        F(f32::from_bits(bits))
    }
    fn counted(n: u32) -> F {
        F(n as f32)
    }
    fn opposite(self) -> F {
        F(-self.0)
    }
    fn plus(self, rhs: F) -> F {
        F(self.0 + rhs.0)
    }
    fn minus(self, rhs: F) -> F {
        F(self.0 - rhs.0)
    }
    fn times(self, rhs: F) -> F {
        F(self.0 * rhs.0)
    }
    fn over(self, rhs: F) -> F {
        F(self.0 / rhs.0)
    }
    fn magnitude(self) -> F {
        F(self.0.abs())
    }
    fn lesser(self, rhs: F) -> F {
        F(self.0.min(rhs.0))
    }
    fn greater(self, rhs: F) -> F {
        F(self.0.max(rhs.0))
    }
    fn exponential(self) -> F {
        F(self.0.exp())
    }
    fn logarithm(self) -> F {
        F(self.0.ln())
    }
    fn root(self) -> F {
        F(self.0.sqrt())
    }
    fn sine(self) -> F {
        F(self.0.sin())
    }
    fn cosine(self) -> F {
        F(self.0.cos())
    }
    fn arc_cosine(self) -> F {
        F(self.0.acos())
    }
    fn angle(self, x: F) -> F {
        F(self.0.atan2(x.0))
    }
    fn below(self, rhs: F) -> bool {
        self.0 < rhs.0
    }
    fn at_most(self, rhs: F) -> bool {
        self.0 <= rhs.0
    }
    fn same(self, rhs: F) -> bool {
        self.0 == rhs.0
    }
    fn from_bits(bits: u32) -> F {
        F::literal(bits)
    }
    fn from_u32(n: u32) -> F {
        F::counted(n)
    }
    fn neg(self) -> F {
        self.opposite()
    }
    fn add(self, rhs: F) -> F {
        self.plus(rhs)
    }
    fn sub(self, rhs: F) -> F {
        self.minus(rhs)
    }
    fn mul(self, rhs: F) -> F {
        self.times(rhs)
    }
    fn div(self, rhs: F) -> F {
        self.over(rhs)
    }
    fn abs(self) -> F {
        self.magnitude()
    }
    fn min(self, rhs: F) -> F {
        self.lesser(rhs)
    }
    fn max(self, rhs: F) -> F {
        self.greater(rhs)
    }
    fn exp(self) -> F {
        self.exponential()
    }
    fn ln(self) -> F {
        self.logarithm()
    }
    fn sqrt(self) -> F {
        self.root()
    }
    fn sin(self) -> F {
        self.sine()
    }
    fn cos(self) -> F {
        self.cosine()
    }
    fn acos(self) -> F {
        self.arc_cosine()
    }
    fn atan2(self, x: F) -> F {
        self.angle(x)
    }
    fn lt(self, rhs: F) -> bool {
        self.below(rhs)
    }
    fn le(self, rhs: F) -> bool {
        self.at_most(rhs)
    }
    fn eq(self, rhs: F) -> bool {
        self.same(rhs)
    }
}

fn lift(v: &[f32]) -> Vec<F> {
    v.iter().map(|x| F(*x)).collect()
}

fn bits(v: &[F]) -> Vec<u32> {
    v.iter().map(|x| x.0.to_bits()).collect()
}

/// A number in `[-1, 1)` that depends on `tag` and `i`.
fn rnd(tag: u32, i: usize) -> f32 {
    counter_u32(77, tag, i as u32, 0, 0) as f32 / 2147483648.0 - 1.0
}

fn rnds(tag: u32, len: usize) -> Vec<f32> {
    (0..len).map(|i| rnd(tag, i)).collect()
}

// The kernels written out in plain `f32`, one environment at a time.

fn cross(a: [f32; 3], b: [f32; 3]) -> [f32; 3] {
    [a[1] * b[2] - a[2] * b[1], a[2] * b[0] - a[0] * b[2], a[0] * b[1] - a[1] * b[0]]
}

fn rotate(q: [f32; 4], v: [f32; 3]) -> [f32; 3] {
    let u = [q[0], q[1], q[2]];
    let t = cross(u, v);
    let t = [t[0] + q[3] * v[0], t[1] + q[3] * v[1], t[2] + q[3] * v[2]];
    let s = cross(u, t);
    [v[0] + 2.0 * s[0], v[1] + 2.0 * s[1], v[2] + 2.0 * s[2]]
}

fn conj(q: [f32; 4]) -> [f32; 4] {
    [-q[0], -q[1], -q[2], q[3]]
}

fn hamilton(a: [f32; 4], b: [f32; 4]) -> [f32; 4] {
    [
        a[3] * b[0] + a[0] * b[3] + a[1] * b[2] - a[2] * b[1],
        a[3] * b[1] - a[0] * b[2] + a[1] * b[3] + a[2] * b[0],
        a[3] * b[2] + a[0] * b[1] - a[1] * b[0] + a[2] * b[3],
        a[3] * b[3] - a[0] * b[0] - a[1] * b[1] - a[2] * b[2],
    ]
}

fn rot(poses: &[f32], e: usize, link: usize, cpb: usize) -> [f32; 4] {
    let b = (e * cpb + link) * 8;
    [poses[b], poses[b + 1], poses[b + 2], poses[b + 3]]
}

fn trans(poses: &[f32], e: usize, link: usize, cpb: usize) -> [f32; 3] {
    let b = (e * cpb + link) * 8;
    [poses[b + 4], poses[b + 5], poses[b + 6]]
}

fn hinge(poses: &[f32], e: usize, cpb: usize, parent: u32, child: u32, rest: [f32; 4]) -> f32 {
    let qp = rot(poses, e, parent as usize, cpb);
    let qc = rot(poses, e, child as usize, cpb);
    let rel = hamilton(hamilton(conj(rest), conj(qp)), qc);
    2.0 * rel[2].atan2(rel[3])
}

/// Base orientation, position, linear and angular velocity.
fn motion(
    poses: &[f32],
    prev: &[f32],
    e: usize,
    torso: usize,
    cpb: usize,
    has_prev: bool,
    dt: f32,
) -> ([f32; 4], [f32; 3], [f32; 3], [f32; 3]) {
    let r = rot(poses, e, torso, cpb);
    let t = trans(poses, e, torso, cpb);
    if !has_prev {
        return (r, t, [0.0; 3], [0.0; 3]);
    }
    let pr = rot(prev, e, torso, cpb);
    let pt = trans(prev, e, torso, cpb);
    let dq = hamilton(r, conj(pr));
    let s = if dq[3] >= 0.0 { 1.0 } else { -1.0 };
    (
        r,
        t,
        [(t[0] - pt[0]) / dt, (t[1] - pt[1]) / dt, (t[2] - pt[2]) / dt],
        [2.0 * s * dq[0] / dt, 2.0 * s * dq[1] / dt, 2.0 * s * dq[2] / dt],
    )
}

const N: usize = 5;
const J: usize = 4;
const CPB: usize = 7;
const TORSO: usize = 2;
const DT: f32 = 0.02;
const LINKS: [(u32, u32); J] = [(2, 0), (0, 1), (2, 3), (3, 4)];

/// Poses with unit rotations; two sets with different tags differ a little.
fn poses(tag: u32) -> Vec<f32> {
    let mut v = vec![0.0; N * CPB * 8];
    for p in 0..N * CPB {
        let mut q = [0.0f32; 4];
        for c in 0..4 {
            q[c] = rnd(1, p * 8 + c) + 0.05 * rnd(tag, p * 8 + c);
        }
        let norm = (q[0] * q[0] + q[1] * q[1] + q[2] * q[2] + q[3] * q[3]).sqrt();
        for c in 0..4 {
            v[p * 8 + c] = q[c] / norm;
        }
        for c in 4..7 {
            v[p * 8 + c] = rnd(1, p * 8 + c) + 0.05 * rnd(tag, p * 8 + c);
        }
        v[p * 8 + 7] = 9.0;
    }
    v
}

fn rest(k: usize) -> [f32; 4] {
    [0.1 * k as f32, 0.2, -0.1, 0.9]
}

/// Every combination of the two history flags, and one environment with unrelated bits.
fn flags() -> Vec<u32> {
    vec![0, 1, 2, 3, 7]
}

fn obs_params(obs_dim: u32) -> ObsParams<F> {
    ObsParams {
        num_envs: N as u32,
        num_joints: J as u32,
        colliders_per_batch: CPB as u32,
        torso_link: TORSO as u32,
        obs_dim,
        critic_obs_dim: obs_dim + 6,
        fwd: 0,
        lat: 1,
        up: 2,
        control_dt: F(DT),
        pad0: 0,
        pad1: 0,
        pad2: 0,
        pad3: 0,
        pad4: 0,
        pad5: 0,
    }
}

fn obs_joints() -> Vec<JointObsCfg<F>> {
    (0..J)
        .map(|k| JointObsCfg {
            parent_link: LINKS[k].0,
            child_link: LINKS[k].1,
            default_pos: F(0.25 * k as f32),
            pad: F(0.0),
            rest_quat: [F(rest(k)[0]), F(rest(k)[1]), F(rest(k)[2]), F(rest(k)[3])],
        })
        .collect()
}

/// Policy observation, base velocities in the body frame and joint angles of one
/// environment.
fn plain_obs(
    e: usize,
    poses: &[f32],
    prev: &[f32],
    cmd: &[f32],
    act: &[f32],
    prev_jp: &[f32],
    fl: u32,
) -> (Vec<f32>, Vec<f32>, Vec<f32>) {
    let (r, _, lin, ang) = motion(poses, prev, e, TORSO, CPB, fl & 1 != 0, DT);
    let mut o = vec![];
    for k in 0..J {
        o.push(act[k * N + e]);
    }
    for d in 0..3 {
        o.push(cmd[d * N + e]);
    }
    o.push(0.0);
    let jp: Vec<f32> =
        (0..J).map(|k| hinge(poses, e, CPB, LINKS[k].0, LINKS[k].1, rest(k))).collect();
    for k in 0..J {
        o.push(jp[k] - 0.25 * k as f32);
    }
    for k in 0..J {
        o.push(if fl & 2 != 0 { (jp[k] - prev_jp[k * N + e]) / DT } else { 0.0 });
    }
    o.extend(rotate(conj(r), [0.0, 0.0, -1.0]));
    let mut v = rotate(conj(r), lin).to_vec();
    v.extend(rotate(conj(r), ang));
    (o, v, jp)
}

#[test]
fn observations_match_plain_arithmetic() {
    let rows = 3 * J + 7;
    let p = obs_params(rows as u32);
    let (now, prev) = (poses(2), poses(3));
    let (cmd, act, pjp) = (rnds(4, 3 * N), rnds(5, J * N), rnds(6, J * N));
    let mut obs = vec![F(-7.0); rows * N];
    let mut critic = vec![F(-7.0); (rows + 6) * N];
    let mut out = vec![F(-7.0); J * N];
    Obs {}.assemble(
        &p,
        &lift(&now),
        &lift(&prev),
        &obs_joints(),
        &lift(&cmd),
        &lift(&act),
        &lift(&pjp),
        &flags(),
        &mut obs,
        &mut critic,
        &mut out,
    );
    for e in 0..N {
        let (o, v, jp) = plain_obs(e, &now, &prev, &cmd, &act, &pjp, flags()[e]);
        assert_eq!(o.len(), rows);
        for d in 0..rows {
            assert_eq!(obs[d * N + e].0.to_bits(), o[d].to_bits());
            assert_eq!(critic[d * N + e].0.to_bits(), o[d].to_bits());
        }
        for d in 0..6 {
            assert_eq!(critic[(rows + d) * N + e].0.to_bits(), v[d].to_bits());
        }
        for k in 0..J {
            assert_eq!(out[k * N + e].0.to_bits(), jp[k].to_bits());
        }
    }
}

#[test]
fn critic_keeps_rows_beyond_the_policy_observation() {
    // Two more rows than the policy observation fills: they are copied as they are.
    let rows = 3 * J + 7;
    let p = obs_params(rows as u32 + 2);
    let now = lift(&poses(2));
    let (cmd, act) = (lift(&rnds(4, 3 * N)), lift(&rnds(5, J * N)));
    let mut obs = vec![F(0.5); (rows + 2) * N];
    let mut critic = vec![F(0.0); (rows + 8) * N];
    let mut out = vec![F(0.0); J * N];
    let no_flags = vec![0u32; N];
    Obs {}.assemble(
        &p, &now, &[], &obs_joints(), &cmd, &act, &[], &no_flags, &mut obs, &mut critic, &mut out,
    );
    for e in 0..N {
        assert_eq!(obs[rows * N + e], F(0.5));
        assert_eq!(critic[rows * N + e], F(0.5));
        assert_eq!(critic[(rows + 1) * N + e], F(0.5));
        // No previous poses: no velocity.
        for d in 0..6 {
            assert_eq!(critic[(rows + 2 + d) * N + e].0, 0.0);
        }
    }
}

#[test]
fn observation_of_a_rigid_upright_robot() {
    // One environment, two identical upright links half a unit apart, one joint.
    let p = ObsParams { num_envs: 1, num_joints: 1, colliders_per_batch: 2, torso_link: 0, ..obs_params(10) };
    let pose = |x: f32| [F(0.0), F(0.0), F(0.0), F(1.0), F(x), F(0.0), F(1.0), F(0.0)];
    let now: Vec<F> = [pose(0.25), pose(0.75)].concat();
    let prev: Vec<F> = [pose(0.0), pose(0.5)].concat();
    let cfg = [JointObsCfg {
        parent_link: 0,
        child_link: 1,
        default_pos: F(0.5),
        pad: F(0.0),
        rest_quat: [F(0.0), F(0.0), F(0.0), F(1.0)],
    }];
    let mut obs = vec![F(9.0); 10];
    let mut critic = vec![F(9.0); 16];
    let mut out = vec![F(9.0); 1];
    let p = ObsParams { control_dt: F(0.5), ..p };
    gpu_obs(
        InvocationId { x: 0, y: 0, z: 0 },
        &p,
        &now,
        &prev,
        &cfg,
        &lift(&[1.0, 2.0, 3.0]),
        &[F(4.0)],
        &[F(-1.0)],
        &[3],
        &mut obs,
        &mut critic,
        &mut out,
    );
    let expected = lift(&[4.0, 1.0, 2.0, 3.0, 0.0, -0.5, 2.0, 0.0, 0.0, -1.0]);
    assert_eq!(obs, expected);
    assert_eq!(critic[..10], expected[..]);
    assert_eq!(critic[10..], lift(&[0.5, 0.0, 0.0, 0.0, 0.0, 0.0])[..]);
    assert_eq!(out, [F(0.0)]);
}

#[test]
fn joint_angles_feed_the_next_step() {
    let p = obs_params(19);
    let (first, second) = (lift(&poses(2)), lift(&poses(3)));
    let (cmd, act) = (lift(&rnds(4, 3 * N)), lift(&rnds(5, J * N)));
    let mut obs = vec![F(0.0); 19 * N];
    let mut critic = vec![F(0.0); 25 * N];
    let mut jp1 = vec![F(0.0); J * N];
    let mut jp2 = vec![F(0.0); J * N];
    Obs {}.assemble(
        &p, &first, &[], &obs_joints(), &cmd, &act, &[], &[0; N], &mut obs, &mut critic, &mut jp1,
    );
    Obs {}.assemble(
        &p, &second, &first, &obs_joints(), &cmd, &act, &jp1, &[3; N], &mut obs, &mut critic, &mut jp2,
    );
    for e in 0..N {
        for k in 0..J {
            let vel = (jp2[k * N + e].0 - jp1[k * N + e].0) / DT;
            assert_eq!(obs[(2 * J + 4 + k) * N + e].0, vel);
        }
    }
}

#[test]
fn idle_thread_observes_nothing() {
    let p = obs_params(19);
    let mut obs = vec![F(1.0); 3];
    gpu_obs(
        InvocationId { x: N as u32, y: 0, z: 0 },
        &p, &[], &[], &[], &[], &[], &[], &[], &mut obs, &mut [], &mut [],
    );
    assert_eq!(obs, [F(1.0); 3]);
}

#[test]
fn observation_inputs_are_checked() {
    let p = obs_params(19);
    let (now, joints) = (lift(&poses(2)), obs_joints());
    let (cmd, act) = (lift(&rnds(4, 3 * N)), lift(&rnds(5, J * N)));
    let fl = flags();
    let none = vec![0u32; N];
    let full = ObsInputs {
        params: &p,
        poses: &now,
        prev_poses: &now,
        joint_cfg: &joints,
        cmd: &cmd,
        last_action: &act,
        prev_joint_pos: &act,
        flags: &fl,
    };
    assert!(full.is_complete());
    assert!(full.outputs_are_fit(19 * N, 25 * N, J * N));
    assert!(!full.outputs_are_fit(19 * N - 1, 25 * N, J * N));
    assert!(!full.outputs_are_fit(19 * N, 25 * N - 1, J * N));
    assert!(!full.outputs_are_fit(19 * N, 25 * N, J * N - 1));
    assert!(!ObsInputs { cmd: &cmd[1..], ..full }.is_complete());
    assert!(!ObsInputs { last_action: &act[1..], ..full }.is_complete());
    assert!(!ObsInputs { flags: &fl[1..], ..full }.is_complete());
    assert!(!ObsInputs { joint_cfg: &joints[1..], ..full }.is_complete());
    assert!(!ObsInputs { poses: &now[..200], ..full }.is_complete());
    // History is needed only where a flag says that there is some.
    assert!(!ObsInputs { prev_poses: &[], ..full }.is_complete());
    assert!(!ObsInputs { prev_joint_pos: &[], ..full }.is_complete());
    assert!(ObsInputs { prev_poses: &[], prev_joint_pos: &[], flags: &none, ..full }.is_complete());
    // A thread needs the poses of its own environment only.
    let first = ObsInputs { poses: &now[..CPB * 8], ..full };
    assert!(!first.is_complete() && first.is_ready(0) && !first.is_ready(1));
    assert!(first.is_ready(N as u32));
    let tilted = ObsParams { up: 3, ..obs_params(19) };
    assert!(!ObsInputs { params: &tilted, ..full }.is_complete());
}

const WEIGHTS: [f32; 36] = [
    DT, 1.5, 0.75, 0.5, 0.4, 0.3, 0.7, 0.35, -0.01, -0.02, -0.05, -1.0, -2.0, -0.001, -10.0, 2.0, -0.6,
    0.45, -0.15, -0.8, 0.1, -0.9, -0.33, -0.22, 0.2, 0.5, 0.6, 0.2, 0.3, 0.9, 0.05, -0.5, 0.2, 0.9,
    0.1, 0.9,
];

fn reward_params(num_feet: u32, w: [f32; 36]) -> RewardParams<F> {
    RewardParams {
        num_envs: N as u32,
        num_joints: J as u32,
        num_feet,
        colliders_per_batch: CPB as u32,
        torso_link: TORSO as u32,
        fwd: 0,
        lat: 1,
        up: 2,
        foot_link0: 1,
        foot_link1: 4,
        pad_u0: 0,
        pad_u1: 0,
        control_dt: F(w[0]),
        w_track_lin: F(w[1]),
        w_track_ang: F(w[2]),
        w_upright: F(w[3]),
        w_base_height: F(w[4]),
        base_height_target: F(w[5]),
        w_pose: F(w[6]),
        w_bilateral: F(w[7]),
        w_action_rate: F(w[8]),
        w_action_rate_hip: F(w[9]),
        w_body_ang_vel: F(w[10]),
        w_lin_vel_z: F(w[11]),
        w_dof_pos_limits: F(w[12]),
        w_dof_vel: F(w[13]),
        w_termination: F(w[14]),
        w_air_time: F(w[15]),
        w_flight: F(w[16]),
        w_single_support: F(w[17]),
        w_foot_slip: F(w[18]),
        w_foot_clearance: F(w[19]),
        foot_clearance_target: F(w[20]),
        w_foot_orientation: F(w[21]),
        w_feet_yaw_mean: F(w[22]),
        w_feet_distance: F(w[23]),
        feet_distance_ref: F(w[24]),
        std_lin_vel: F(w[25]),
        std_ang_vel: F(w[26]),
        std_upright: F(w[27]),
        std_base_height: F(w[28]),
        std_pose: F(w[29]),
        contact_z: F(w[30]),
        min_base_height: F(w[31]),
        tilt_cos: F(w[32]),
        standing_speed: F(w[33]),
        air_cap: F(w[34]),
        limit_scale: F(w[35]),
        pad_f0: F(0.0),
        pad_f1: F(0.0),
    }
}

const LIMITS: [(f32, f32); J] = [(-0.5, 0.5), (-0.1, 2.0), (-1.0, 0.2), (-2.0, 2.0)];

fn reward_joints() -> Vec<RewardJointCfg<F>> {
    (0..J)
        .map(|k| RewardJointCfg {
            parent_link: LINKS[k].0,
            child_link: LINKS[k].1,
            default_pos: F(0.25 * k as f32),
            pos_lo: F(LIMITS[k].0),
            pos_hi: F(LIMITS[k].1),
            sym_partner: (k as u32 + 2) % 4,
            sym_sign: F(if k == 0 { 1.0 } else { -1.0 }),
            sym_active: if k < 2 { 1 } else { 0 },
            is_hip: if k % 2 == 0 { 1 } else { 0 },
            pad0: 0,
            pad1: 0,
            pad2: 0,
            rest_quat: [F(rest(k)[0]), F(rest(k)[1]), F(rest(k)[2]), F(rest(k)[3])],
        })
        .collect()
}

/// Reward, fall flag and air times of one environment.
fn plain_reward(
    e: usize,
    nf: usize,
    w: [f32; 36],
    poses: &[f32],
    prev: &[f32],
    cmd: &[f32],
    act: &[f32],
    air_in: &[f32],
    soles: &[f32],
    fl: u32,
) -> (f32, u32, Vec<f32>) {
    let dt = w[0];
    let (r, t, lin, ang) = motion(poses, prev, e, TORSO, CPB, fl & 1 != 0, dt);
    let v = rotate(conj(r), lin);
    let om = rotate(conj(r), ang);
    let g = rotate(conj(r), [0.0, 0.0, -1.0]);
    let h = t[2];
    let (cx, cy, cw) = (cmd[e], cmd[N + e], cmd[2 * N + e]);
    let standing = (cx * cx + cy * cy + cw * cw).sqrt() < w[33];
    let bell = |weight: f32, err: f32, std: f32| weight * (-err / (std * std)).exp() * dt;
    let lin_err = (cx - v[0]) * (cx - v[0]) + (cy - v[1]) * (cy - v[1]);
    let mut parts = vec![
        bell(w[1], lin_err, w[25]),
        bell(w[2], (cw - om[2]) * (cw - om[2]), w[26]),
        bell(w[3], g[0] * g[0] + g[1] * g[1], w[27]),
        bell(w[4], (h - w[5]) * (h - w[5]), w[28]),
    ];
    let (mut pose, mut sym, mut lim, mut jv2, mut da2, mut hip) = (0.0, 0.0, 0.0, 0.0, 0.0, 0.0);
    let angle = |p: &[f32], k: usize| hinge(p, e, CPB, LINKS[k].0, LINKS[k].1, rest(k));
    for k in 0..J {
        let q = angle(poses, k);
        let d = q - 0.25 * k as f32;
        pose += d * d;
        if k < 2 {
            let de = q - (if k == 0 { 1.0 } else { -1.0 }) * angle(poses, (k + 2) % 4);
            sym += de * de;
        }
        lim += (q - LIMITS[k].1 * w[35]).max(0.0) + (LIMITS[k].0 * w[35] - q).max(0.0);
        let jv = if fl & 2 != 0 { (q - angle(prev, k)) / dt } else { 0.0 };
        jv2 += jv * jv;
        let da = act[k * N + e] - act[(J + k) * N + e];
        da2 += da * da;
        if k % 2 == 0 {
            hip += da * da;
        }
    }
    parts.push(if standing { bell(w[6], pose, w[29]) } else { 0.0 });
    parts.push(w[7] * (-sym).exp() * dt);
    parts.push(w[8] * da2 * dt);
    parts.push(w[9] * hip * dt);
    parts.push(w[10] * (om[0] * om[0] + om[1] * om[1]) * dt);
    parts.push(w[11] * v[2] * v[2] * dt);
    parts.push(w[12] * lim * dt);
    parts.push(w[13] * jv2 * dt);
    let (mut air, mut contacts, mut slip, mut clr, mut tilt2, mut yaw2) =
        (0.0, 0, 0.0, 0.0, 0.0, 0.0);
    let mut feet = vec![];
    let mut new_air = vec![];
    for i in 0..nf {
        let link = if i == 0 { 1 } else { 4 };
        let fp = trans(poses, e, link, CPB);
        let fr = rot(poses, e, link, CPB);
        feet.push(fp);
        let speed = if fl & 1 != 0 {
            let pp = trans(prev, e, link, CPB);
            let (dx, dy) = ((fp[0] - pp[0]) / dt, (fp[1] - pp[1]) / dt);
            (dx * dx + dy * dy).sqrt()
        } else {
            0.0
        };
        let sole = [soles[i * 3 * N + e], soles[(i * 3 + 1) * N + e], soles[(i * 3 + 2) * N + e]];
        let tilt = rotate(fr, sole)[2].abs().min(1.0).max(0.0).acos();
        let toe = rotate(hamilton(conj(r), fr), [1.0, 0.0, 0.0]);
        let yaw = toe[1].atan2(toe[0]);
        let before = air_in[i * N + e];
        if fp[2] < w[30] {
            new_air.push(0.0);
            contacts += 1;
            slip += speed * speed;
            tilt2 += tilt * tilt;
            if before > 0.0 {
                air += if before < w[34] { before } else { w[34] };
            }
        } else {
            new_air.push(before + dt);
            clr += (fp[2] - w[20]) * (fp[2] - w[20]) * speed;
        }
        yaw2 += yaw * yaw;
    }
    parts.push(if standing { 0.0 } else { w[15] * air * dt });
    parts.push(if contacts == 0 { w[16] * dt } else { 0.0 });
    parts.push(if !standing && contacts == 1 { w[17] * dt } else { 0.0 });
    parts.push(w[18] * slip * dt);
    parts.push(w[19] * clr * dt);
    parts.push(w[21] * tilt2 * dt);
    parts.push(w[22] * yaw2 * dt);
    parts.push(if nf == 2 {
        let (dx, dy) = (feet[0][0] - feet[1][0], feet[0][1] - feet[1][1]);
        let yaw = (2.0 * (r[3] * r[2] + r[0] * r[1])).atan2(1.0 - 2.0 * (r[1] * r[1] + r[2] * r[2]));
        let lateral = -yaw.sin() * dx + yaw.cos() * dy;
        w[23] * (lateral.abs() - w[24]).abs() * dt
    } else {
        0.0
    });
    let mut total = parts[0];
    for part in &parts[1..] {
        total += *part;
    }
    assert_eq!(parts.len(), 20);
    let up = rotate(r, [0.0, 0.0, 1.0])[2];
    let fell = (h - h) != 0.0 || h < w[31] || up < w[32];
    if fell {
        total += w[14];
    }
    (total, fell as u32, new_air)
}

fn check_reward(nf: usize, w: [f32; 36], now: &[f32], tag: u32) -> Vec<u32> {
    let p = reward_params(nf as u32, w);
    let prev = poses(3);
    let (cmd, act) = (rnds(tag, 3 * N), rnds(5, 2 * J * N));
    let air: Vec<f32> = rnds(tag + 1, nf * N).iter().map(|a| a.max(0.0)).collect();
    let soles = rnds(9, 3 * nf * N);
    let mut reward = vec![F(-7.0); N];
    let mut fell = vec![9u32; N];
    let mut new_air = vec![F(-7.0); nf * N];
    Reward {}.evaluate(
        &p,
        &lift(now),
        &lift(&prev),
        &reward_joints(),
        &lift(&cmd),
        &lift(&act),
        &lift(&air),
        &lift(&soles),
        &flags(),
        &mut reward,
        &mut fell,
        &mut new_air,
    );
    for e in 0..N {
        let (r, f, a) =
            plain_reward(e, nf, w, now, &prev, &cmd, &act, &air, &soles, flags()[e]);
        assert_eq!(reward[e].0.to_bits(), r.to_bits());
        assert_eq!(fell[e], f);
        for i in 0..nf {
            assert_eq!(new_air[i * N + e].0.to_bits(), a[i].to_bits());
        }
    }
    fell
}

#[test]
fn rewards_match_plain_arithmetic() {
    let mut seen = vec![];
    for tag in 20..40 {
        for nf in 0..4 {
            seen.extend(check_reward(nf, WEIGHTS, &poses(tag), tag));
        }
    }
    // Both outcomes of the fall test came up.
    assert!(seen.contains(&0) && seen.contains(&1));
}

#[test]
fn standing_rewards_match_plain_arithmetic() {
    let mut w = WEIGHTS;
    w[33] = 100.0;
    check_reward(2, w, &poses(2), 20);
    w[33] = 0.0;
    check_reward(2, w, &poses(2), 20);
}

#[test]
fn grounded_and_flying_rewards_match_plain_arithmetic() {
    let mut w = WEIGHTS;
    w[30] = 100.0;
    check_reward(2, w, &poses(2), 20);
    w[30] = -100.0;
    check_reward(2, w, &poses(2), 20);
}

#[test]
fn height_that_is_not_finite_falls() {
    let mut w = WEIGHTS;
    w[31] = -1000.0;
    w[32] = -1000.0;
    let mut now = poses(2);
    assert_eq!(check_reward(2, w, &now, 20), [0; N]);
    now[(CPB + TORSO) * 8 + 6] = f32::INFINITY;
    let fell = check_reward_flags(w, &now);
    assert_eq!(fell, [0, 1, 0, 0, 0]);
    now[(CPB + TORSO) * 8 + 6] = f32::NAN;
    assert_eq!(check_reward_flags(w, &now), [0, 1, 0, 0, 0]);
}

fn check_reward_flags(w: [f32; 36], now: &[f32]) -> Vec<u32> {
    let p = reward_params(0, w);
    let mut reward = vec![F(0.0); N];
    let mut fell = vec![9u32; N];
    Reward {}.evaluate(
        &p,
        &lift(now),
        &[],
        &reward_joints(),
        &lift(&rnds(4, 3 * N)),
        &lift(&rnds(5, 2 * J * N)),
        &[],
        &[],
        &[0; N],
        &mut reward,
        &mut fell,
        &mut [],
    );
    fell
}

/// A robot that stands still and upright at its target, with one foot: every term is known.
fn still_robot(foot_z: f32, air: f32, cmd_x: f32, w_x: usize) -> (f32, u32, f32) {
    let mut w = [0.0f32; 36];
    w[0] = 0.5;
    w[w_x] = 4.0;
    w[5] = 1.0;
    for std in 25..30 {
        w[std] = 1.0;
    }
    w[14] = -100.0;
    w[30] = 0.1;
    w[31] = 0.5;
    w[32] = 0.5;
    w[33] = 0.25;
    w[34] = 0.75;
    w[35] = 1.0;
    let p = RewardParams {
        num_envs: 1,
        num_joints: 0,
        colliders_per_batch: 2,
        torso_link: 0,
        ..reward_params(1, w)
    };
    let pose = |z: f32| [F(0.0), F(0.0), F(0.0), F(1.0), F(0.0), F(0.0), F(z), F(0.0)];
    let now: Vec<F> = [pose(1.0), pose(foot_z)].concat();
    let (mut reward, mut fell, mut new_air) = ([F(9.0)], [9u32], [F(9.0)]);
    gpu_reward(
        InvocationId { x: 0, y: 0, z: 0 },
        &p,
        &now,
        &now,
        &[],
        &lift(&[cmd_x, 0.0, 0.0]),
        &[],
        &[F(air)],
        &lift(&[0.0, 0.0, 1.0]),
        &[3],
        &mut reward,
        &mut fell,
        &mut new_air,
    );
    (reward[0].0, fell[0], new_air[0].0)
}

#[test]
fn reward_terms_of_a_still_robot() {
    // Perfect tracking: the whole weight, times the timestep.
    assert_eq!(still_robot(0.0, 0.0, 0.0, 1), (2.0, 0, 0.0));
    assert_eq!(still_robot(0.0, 0.0, 0.0, 2), (2.0, 0, 0.0));
    assert_eq!(still_robot(0.0, 0.0, 0.0, 3), (2.0, 0, 0.0));
    assert_eq!(still_robot(0.0, 0.0, 0.0, 4), (2.0, 0, 0.0));
    // The default pose is paid while standing only.
    assert_eq!(still_robot(0.0, 0.0, 0.0, 6), (2.0, 0, 0.0));
    assert_eq!(still_robot(0.0, 0.0, 1.0, 6), (0.0, 0, 0.0));
    // Landing after half a second in the air is paid while moving only.
    assert_eq!(still_robot(0.0, 0.5, 1.0, 15), (1.0, 0, 0.0));
    assert_eq!(still_robot(0.0, 0.5, 0.0, 15), (0.0, 0, 0.0));
    // The air time that is paid for is capped.
    assert_eq!(still_robot(0.0, 3.0, 1.0, 15), (1.5, 0, 0.0));
    // Flight while the foot is up, single support while it is down.
    assert_eq!(still_robot(0.5, 0.5, 1.0, 16), (2.0, 0, 1.0));
    assert_eq!(still_robot(0.0, 0.5, 1.0, 16), (0.0, 0, 0.0));
    assert_eq!(still_robot(0.5, 0.5, 1.0, 17), (0.0, 0, 1.0));
    assert_eq!(still_robot(0.0, 0.5, 1.0, 17), (2.0, 0, 0.0));
}

#[test]
fn falling_pays_the_termination_weight() {
    let mut w = WEIGHTS;
    w[31] = -100.0;
    w[32] = -100.0;
    let now = poses(2);
    let up = run_rewards(w, &now);
    w[31] = 100.0;
    let down = run_rewards(w, &now);
    assert_eq!(up.1, [0; N]);
    assert_eq!(down.1, [1; N]);
    for e in 0..N {
        assert_eq!(down.0[e].0, up.0[e].0 + w[14]);
    }
}

fn run_rewards(w: [f32; 36], now: &[f32]) -> (Vec<F>, Vec<u32>) {
    let mut reward = vec![F(0.0); N];
    let mut fell = vec![9u32; N];
    let mut air = vec![F(0.0); 2 * N];
    Reward {}.evaluate(
        &reward_params(2, w),
        &lift(now),
        &lift(&poses(3)),
        &reward_joints(),
        &lift(&rnds(4, 3 * N)),
        &lift(&rnds(5, 2 * J * N)),
        &lift(&rnds(6, 2 * N)),
        &lift(&rnds(7, 6 * N)),
        &flags(),
        &mut reward,
        &mut fell,
        &mut air,
    );
    (reward, fell)
}

#[test]
fn air_time_feeds_the_next_step() {
    // In the air for two steps, then on the ground for two: the landing is paid once.
    let up1 = still_robot(0.5, 0.0, 1.0, 15);
    let up2 = still_robot(0.5, up1.2, 1.0, 15);
    let down1 = still_robot(0.0, up2.2, 1.0, 15);
    let down2 = still_robot(0.0, down1.2, 1.0, 15);
    assert_eq!((up1.0, up1.2), (0.0, 0.5));
    assert_eq!((up2.0, up2.2), (0.0, 1.0));
    assert_eq!((down1.0, down1.2), (1.5, 0.0));
    assert_eq!((down2.0, down2.2), (0.0, 0.0));
}

#[test]
fn other_environments_make_no_difference() {
    let now = poses(2);
    let whole = run_rewards(WEIGHTS, &now);
    let mut changed = now.clone();
    for i in 0..CPB * 8 {
        changed[2 * CPB * 8 + i] = rnd(50, i);
    }
    let other = run_rewards(WEIGHTS, &changed);
    for e in [0, 1, 3, 4] {
        assert_eq!(whole.0[e].0.to_bits(), other.0[e].0.to_bits());
    }
    assert_ne!(whole.0[2].0.to_bits(), other.0[2].0.to_bits());
}

#[test]
fn idle_thread_rewards_nothing() {
    let mut reward = [F(1.0)];
    gpu_reward(
        InvocationId { x: N as u32, y: 0, z: 0 },
        &reward_params(2, WEIGHTS),
        &[], &[], &[], &[], &[], &[], &[], &[], &mut reward, &mut [], &mut [],
    );
    assert_eq!(reward, [F(1.0)]);
}

#[test]
fn reward_inputs_are_checked() {
    let p = reward_params(2, WEIGHTS);
    let (now, joints, fl) = (lift(&poses(2)), reward_joints(), flags());
    let (cmd, act) = (lift(&rnds(4, 3 * N)), lift(&rnds(5, 2 * J * N)));
    let (air, soles) = (lift(&rnds(6, 2 * N)), lift(&rnds(7, 6 * N)));
    let none = vec![0u32; N];
    let full = RewardInputs {
        params: &p,
        poses: &now,
        prev_poses: &now,
        joint_cfg: &joints,
        cmd: &cmd,
        action2: &act,
        air_time_in: &air,
        sole_local: &soles,
        flags: &fl,
    };
    assert!(full.is_complete());
    assert!(full.outputs_are_fit(N, N, 2 * N));
    assert!(!full.outputs_are_fit(N - 1, N, 2 * N));
    assert!(!full.outputs_are_fit(N, N - 1, 2 * N));
    assert!(!full.outputs_are_fit(N, N, 2 * N - 1));
    assert!(!RewardInputs { cmd: &cmd[1..], ..full }.is_complete());
    assert!(!RewardInputs { action2: &act[1..], ..full }.is_complete());
    assert!(!RewardInputs { air_time_in: &air[1..], ..full }.is_complete());
    assert!(!RewardInputs { sole_local: &soles[1..], ..full }.is_complete());
    assert!(!RewardInputs { flags: &fl[1..], ..full }.is_complete());
    assert!(!RewardInputs { joint_cfg: &joints[..3], ..full }.is_complete());
    assert!(!RewardInputs { poses: &now[..200], ..full }.is_complete());
    assert!(!RewardInputs { prev_poses: &[], ..full }.is_complete());
    assert!(RewardInputs { prev_poses: &[], flags: &none, ..full }.is_complete());
    let first = RewardInputs { poses: &now[..CPB * 8], ..full };
    assert!(!first.is_complete() && first.is_ready(0) && !first.is_ready(1));
    let mut odd = reward_joints();
    odd[1].sym_partner = 4;
    assert!(!RewardInputs { joint_cfg: &odd, ..full }.is_complete());
    odd[1].sym_active = 0;
    assert!(RewardInputs { joint_cfg: &odd, ..full }.is_complete());
}

#[test]
fn words_of_known_counters() {
    assert_eq!(mix(0), 0);
    assert_eq!(mix(1), 0x688990c0);
    assert_eq!(mix(2), 0xd1132181);
    assert_eq!(mix(0xffffffff), 0x6768824a);
    assert_eq!(mix(0x12345678), 0xf5e71c96);
    assert_eq!(counter_u32(0, 0, 0, 0, 0), 0x41f39e5e);
    assert_eq!(counter_u32(1, 2, 3, 4, 5), 0x6e37e786);
    assert_eq!(counter_u32(u32::MAX, u32::MAX, u32::MAX, u32::MAX, u32::MAX), 0xb73469b2);
}

#[test]
fn neighbouring_counters_give_different_words() {
    let word = counter_u32(1, 2, 3, 4, 5);
    assert_ne!(word, counter_u32(2, 2, 3, 4, 5));
    assert_ne!(word, counter_u32(1, 3, 3, 4, 5));
    assert_ne!(word, counter_u32(1, 2, 4, 4, 5));
    assert_ne!(word, counter_u32(1, 2, 3, 5, 5));
    assert_ne!(word, counter_u32(1, 2, 3, 4, 6));
    assert_ne!(mix(8), mix(9));
}

#[test]
fn unit_interval_by_the_upper_bits() {
    assert_eq!(u01::<F>(0), F(0.0));
    assert_eq!(u01::<F>(255), F(0.0));
    assert_eq!(u01::<F>(256), F(1.0 / 16777216.0));
    assert_eq!(u01::<F>(0x80000000), F(0.5));
    assert_eq!(u01::<F>(u32::MAX), F(0.99999994));
}

fn sample_params(pin_mode: u32) -> SampleParams {
    SampleParams { num_envs: 4, action_dim: 3, seed: 42, step: 7, pin_mode, pad0: 0, pad1: 0, pad2: 0 }
}

#[test]
fn noise_of_each_mode() {
    assert_eq!(noise_z::<F>(&sample_params(1), 3, 1), F(0.0));
    assert_eq!(noise_z::<F>(&sample_params(2), 3, 1), F(10839718.0 / 16777216.0 - 0.5));
    for mode in [0, 3, u32::MAX] {
        let u0 = (counter_u32(42, 3, 1, 7, 0) >> 8) as f32 / 16777216.0;
        let u1 = (counter_u32(42, 3, 1, 7, 1) >> 8) as f32 / 16777216.0;
        let z = (-2.0 * u0.ln()).sqrt() * (6.2831855f32 * u1).cos();
        assert_eq!(noise_z::<F>(&sample_params(mode), 3, 1), F(z));
    }
}

#[test]
fn noise_ignores_the_batch_around_it() {
    let wide = SampleParams { num_envs: 1000, action_dim: 99, ..sample_params(2) };
    assert_eq!(noise_z::<F>(&wide, 3, 1), noise_z::<F>(&sample_params(2), 3, 1));
}

/// Actions and log-probabilities, environment after environment.
fn plain_sample(p: &SampleParams, means: &[f32], log_std: &[f32]) -> (Vec<f32>, Vec<f32>) {
    let a = p.action_dim as usize;
    let (mut actions, mut logp) = (vec![], vec![]);
    for env in 0..p.num_envs as usize {
        let mut lp = 0.0;
        for d in 0..a {
            let z = noise_z::<F>(p, env as u32, d as u32).0;
            actions.push(means[env * a + d] + log_std[d].exp() * z);
            lp += -0.5 * z * z - log_std[d] - 0.9189385f32;
        }
        logp.push(lp);
    }
    (actions, logp)
}

#[test]
fn samples_match_plain_arithmetic() {
    for mode in 0..4 {
        let p = sample_params(mode);
        let (means, log_std) = (rnds(11, 12), rnds(12, 3));
        let (actions, logp) = plain_sample(&p, &means, &log_std);
        let mut a = vec![F(-7.0); 14];
        let mut l = vec![F(-7.0); 5];
        cpu_sample(&p, &lift(&means), &lift(&log_std), &mut a, &mut l);
        assert_eq!(bits(&a[..12]), bits(&lift(&actions)));
        assert_eq!(bits(&l[..4]), bits(&lift(&logp)));
        // Nothing past the last environment is touched.
        assert_eq!(a[12..], [F(-7.0); 2]);
        assert_eq!(l[4], F(-7.0));
    }
}

#[test]
fn launch_matches_host_reference() {
    for mode in 0..3 {
        let p = sample_params(mode);
        let (means, log_std) = (lift(&rnds(11, 12)), lift(&rnds(12, 3)));
        let (mut a, mut l) = (vec![F(0.0); 12], vec![F(0.0); 4]);
        let (mut b, mut m) = (vec![F(0.0); 12], vec![F(0.0); 4]);
        Sampler {}.sample(4, &p, &means, &log_std, &mut a, &mut l);
        cpu_sample(&p, &means, &log_std, &mut b, &mut m);
        assert_eq!(bits(&a), bits(&b));
        assert_eq!(bits(&l), bits(&m));
        assert_ne!(a[0], F(0.0));
    }
}

#[test]
fn mean_mode_returns_the_means() {
    let means = lift(&rnds(11, 12));
    let (mut a, mut l) = (vec![F(0.0); 12], vec![F(0.0); 4]);
    cpu_sample(&sample_params(1), &means, &lift(&[0.0, 0.5, -0.5]), &mut a, &mut l);
    assert_eq!(a, means);
    let c = 0.9189385f32;
    let lp = ((0.0 + (0.0 - 0.0 - c)) + (0.0 - 0.5 - c)) + (0.0 + 0.5 - c);
    assert_eq!(l, [F(lp); 4]);
}

#[test]
fn launch_rounds_up_to_workgroups() {
    assert_eq!(threads_started(0), 0);
    assert_eq!(threads_started(1), 256);
    assert_eq!(threads_started(256), 256);
    assert_eq!(threads_started(257), 512);
    assert_eq!(threads_started(u32::MAX), 0x1_0000_0000);
    // A launch for one environment still starts a whole workgroup, and samples all four.
    let p = sample_params(2);
    let (means, log_std) = (lift(&rnds(11, 12)), lift(&rnds(12, 3)));
    let (mut a, mut l) = (vec![F(9.0); 12], vec![F(9.0); 4]);
    Sampler {}.sample(1, &p, &means, &log_std, &mut a, &mut l);
    assert_ne!(l[3], F(9.0));
    // A launch for none starts nothing.
    let (mut a, mut l) = (vec![F(9.0); 12], vec![F(9.0); 4]);
    Sampler {}.sample(0, &p, &[], &[], &mut a, &mut l);
    assert_eq!(l, [F(9.0); 4]);
    assert_eq!(a, [F(9.0); 12]);
}

#[test]
fn a_thread_samples_its_own_environment() {
    let p = sample_params(2);
    let (means, log_std) = (lift(&rnds(11, 12)), lift(&rnds(12, 3)));
    let (mut a, mut l) = (vec![F(9.0); 12], vec![F(9.0); 4]);
    gpu_sample_gaussian(InvocationId { x: 2, y: 5, z: 6 }, &p, &means, &log_std, &mut a, &mut l);
    assert_eq!(a[..6], [F(9.0); 6]);
    assert_eq!(a[9..], [F(9.0); 3]);
    assert_ne!(a[6], F(9.0));
    assert_eq!((l[0], l[1], l[3]), (F(9.0), F(9.0), F(9.0)));
    gpu_sample_gaussian(InvocationId { x: 4, y: 0, z: 0 }, &p, &[], &[], &mut a, &mut l);
    assert_eq!(l[3], F(9.0));
}

#[test]
fn sample_buffers_are_checked() {
    let p = sample_params(0);
    assert!(sample_shapes_fit(&p, 12, 3, 12, 4));
    assert!(!sample_shapes_fit(&p, 11, 3, 12, 4));
    assert!(!sample_shapes_fit(&p, 12, 2, 12, 4));
    assert!(!sample_shapes_fit(&p, 12, 3, 11, 4));
    assert!(!sample_shapes_fit(&p, 12, 3, 12, 3));
    // The product of the two counts does not wrap around.
    let huge = SampleParams { num_envs: 0x10000, action_dim: 0x10000, ..p };
    assert!(!sample_shapes_fit(&huge, 0, 0x10000, 0, 0x10000));
}

fn actor_params(num_cols: u32) -> PpoActorParams<F> {
    PpoActorParams {
        clip: F(0.2),
        entropy_coef: F(0.25),
        scale: F(0.5),
        log_sqrt_2pi: F(0.9189385),
        action_dim: 2,
        num_cols,
        pad0: 0,
        pad1: 0,
    }
}

#[test]
fn actor_gradients_match_plain_arithmetic() {
    let n = 40;
    let p = actor_params(n as u32);
    let (mean, action) = (rnds(60, 2 * n), rnds(61, 2 * n));
    let (log_std, adv) = (rnds(62, 2), rnds(63, n));
    let mut flat = 0;
    let mut logp_old = vec![];
    for m in 0..n {
        logp_old.push(-2.0 + rnd(64, m));
    }
    let (mut gm, mut gl) = (vec![F(9.0); 2 * n], vec![F(9.0); 2 * n]);
    assert!(actor_shapes_fit(
        &p, &lift(&mean), &lift(&action), &lift(&log_std), &lift(&adv), &lift(&logp_old), 2 * n, 2 * n,
    ));
    for x in 0..n as u32 + 3 {
        gpu_ppo_actor_grad(
            InvocationId { x, y: 0, z: 0 },
            &p,
            &lift(&mean),
            &lift(&action),
            &lift(&log_std),
            &lift(&adv),
            &lift(&logp_old),
            &mut gm,
            &mut gl,
        );
    }
    for m in 0..n {
        let mut logp = 0.0f32;
        for k in 0..2 {
            let d = (action[k * n + m] - mean[k * n + m]) / log_std[k].exp();
            logp += -0.5 * d * d - log_std[k] - 0.9189385f32;
        }
        let ratio = (logp - logp_old[m]).exp();
        let clipped =
            (adv[m] >= 0.0 && ratio > 1.0 + 0.2f32) || (adv[m] < 0.0 && ratio < 1.0 - 0.2f32);
        for k in 0..2 {
            let (mut a, mut b) = (0.0f32, -0.25f32 * 0.5);
            if !clipped {
                let inv_var = (-2.0 * log_std[k]).exp();
                let d = action[k * n + m] - mean[k * n + m];
                a = -(adv[m] * ratio * d * inv_var) * 0.5;
                b = (-(adv[m] * ratio * (d * d * inv_var - 1.0)) - 0.25) * 0.5;
            }
            assert_eq!(gm[k * n + m].0.to_bits(), a.to_bits());
            assert_eq!(gl[k * n + m].0.to_bits(), b.to_bits());
        }
        if clipped {
            flat += 1;
        }
    }
    assert!(0 < flat && flat < n);
}

#[test]
fn clipped_sample_has_no_mean_gradient() {
    // The action is at the mean, so the new log-probability is known; the old one is far
    // below it, and the advantage pushes further up.
    let p = actor_params(1);
    let (mut gm, mut gl) = (vec![F(9.0); 2], vec![F(9.0); 2]);
    let zeros = [F(0.0); 2];
    gpu_ppo_actor_grad(
        InvocationId { x: 0, y: 0, z: 0 }, &p, &zeros, &zeros, &zeros, &[F(1.0)], &[F(-10.0)],
        &mut gm, &mut gl,
    );
    assert_eq!(gm, [F(0.0); 2]);
    assert_eq!(gl, [F(-0.125); 2]);
    // The other way round it is not clipped: the deviation is pushed up, ratio `exp(c)`.
    gpu_ppo_actor_grad(
        InvocationId { x: 0, y: 0, z: 0 }, &p, &zeros, &zeros, &zeros, &[F(-1.0)], &[F(-10.0)],
        &mut gm, &mut gl,
    );
    let logp = (0.0f32 - 0.9189385) + (0.0 - 0.9189385);
    let ratio = (logp + 10.0f32).exp();
    assert_eq!(gl, [F((-(-1.0 * ratio * (0.0 - 1.0)) - 0.25) * 0.5); 2]);
}

#[test]
fn actor_buffers_are_checked() {
    let p = actor_params(3);
    let v = [F(0.0); 6];
    assert!(actor_shapes_fit(&p, &v, &v, &v[..2], &v[..3], &v[..3], 6, 6));
    assert!(!actor_shapes_fit(&p, &v[1..], &v, &v, &v, &v, 6, 6));
    assert!(!actor_shapes_fit(&p, &v, &v[1..], &v, &v, &v, 6, 6));
    assert!(!actor_shapes_fit(&p, &v, &v, &v[..1], &v, &v, 6, 6));
    assert!(!actor_shapes_fit(&p, &v, &v, &v, &v[..2], &v, 6, 6));
    assert!(!actor_shapes_fit(&p, &v, &v, &v, &v, &v[..2], 6, 6));
    assert!(!actor_shapes_fit(&p, &v, &v, &v, &v, &v, 5, 6));
    assert!(!actor_shapes_fit(&p, &v, &v, &v, &v, &v, 6, 5));
}

fn value_grad(v: f32, old: f32, ret: f32) -> f32 {
    let p = PpoValueParams {
        clip: F(0.5),
        value_coef: F(2.0),
        scale: F(0.25),
        num_cols: 2,
        pad0: 0,
        pad1: 0,
        pad2: 0,
        pad3: 0,
    };
    let mut g = [F(9.0); 2];
    gpu_ppo_value_grad(
        InvocationId { x: 1, y: 0, z: 0 },
        &p,
        &lift(&[7.0, v]),
        &lift(&[7.0, old]),
        &lift(&[7.0, ret]),
        &mut g,
    );
    assert_eq!(g[0], F(9.0));
    g[1].0
}

#[test]
fn value_gradients_of_known_predictions() {
    // Within the clip range: `2·(v - ret)` times coefficient and scale.
    assert_eq!(value_grad(1.25, 1.0, 0.0), 1.25);
    // Above it: the clipped prediction 1.5 is nearer to the return, so the raw error counts.
    assert_eq!(value_grad(3.0, 1.0, 0.0), 3.0);
    // Above it, return higher still: the clipped prediction is further off.
    assert_eq!(value_grad(3.0, 1.0, 4.0), -2.5);
    // Below it, in both directions.
    assert_eq!(value_grad(-1.0, 1.0, 4.0), -5.0);
    assert_eq!(value_grad(-1.0, 1.0, -4.0), 4.5);
}

fn stage_params(step_select: u32, col_offset: u32) -> PpoStageParams {
    PpoStageParams { dim: 2, n: 3, steps: 4, total_cols: 26, col_offset, step_select, pad1: 0, pad2: 0 }
}

fn stage(p: &PpoStageParams, raw: &[F], perm: &[u32], sign: &[F], out: &mut [F], backwards: bool) {
    let (mean, inv_std) = (lift(&[0.5, -0.25]), lift(&[2.0, 8.0]));
    // More threads than there is work, in either order.
    for k in 0..16 * 3u32 {
        let k = if backwards { 47 - k } else { k };
        let id = InvocationId { x: k % 16, y: k / 16, z: 0 };
        assert!(stage_fits(id, p, raw, &mean, &inv_std, perm, sign, out.len()));
        gpu_ppo_stage_batch(id, p, raw, &mean, &inv_std, perm, sign, out);
    }
}

fn staged(raw: f32, d: usize) -> f32 {
    ((raw - [0.5, -0.25][d]) * [2.0, 8.0][d]).max(-5.0).min(5.0)
}

#[test]
fn batch_is_staged_environment_after_environment() {
    let raw = lift(&rnds(70, 4 * 2 * 3));
    let (identity, ones) = ([0, 1], [F(1.0); 2]);
    let (mirror, signs) = ([1, 0], [F(-1.0), F(1.0)]);
    let mut out = vec![F(9.0); 52];
    stage(&stage_params(0, 1), &raw, &identity, &ones, &mut out, false);
    stage(&stage_params(0, 13), &raw, &mirror, &signs, &mut out, false);
    for d in 0..2 {
        assert_eq!(out[d * 26], F(9.0));
        assert_eq!(out[d * 26 + 25], F(9.0));
        for e in 0..3 {
            for t in 0..4 {
                let col = e * 4 + t;
                let here = raw[(t * 2 + d) * 3 + e].0;
                let there = raw[(t * 2 + (1 - d)) * 3 + e].0;
                let sign = if d == 0 { -1.0 } else { 1.0 };
                assert_eq!(out[d * 26 + 1 + col], F(staged(here, d)));
                assert_eq!(out[d * 26 + 13 + col], F(staged(there * sign, d)));
            }
        }
    }
    // The order of the threads and of the halves makes no difference.
    let mut again = vec![F(9.0); 52];
    stage(&stage_params(0, 13), &raw, &mirror, &signs, &mut again, true);
    stage(&stage_params(0, 1), &raw, &identity, &ones, &mut again, true);
    assert_eq!(out, again);
}

#[test]
fn single_step_stages_one_step_of_the_batch() {
    let raw = lift(&rnds(70, 4 * 2 * 3));
    let (mirror, signs) = ([1, 0], [F(-1.0), F(1.0)]);
    let mut batch = vec![F(9.0); 52];
    stage(&stage_params(0, 0), &raw, &mirror, &signs, &mut batch, false);
    for t in 0..4 {
        let mut out = vec![F(9.0); 52];
        stage(&stage_params(t + 1, 0), &raw, &mirror, &signs, &mut out, false);
        for d in 0..2 {
            for e in 0..3 {
                assert_eq!(out[d * 26 + e], batch[d * 26 + e * 4 + t as usize]);
            }
            assert_eq!(out[d * 26 + 3], F(9.0));
        }
    }
}

#[test]
fn staged_features_are_clamped() {
    let p = PpoStageParams { dim: 1, n: 2, steps: 1, total_cols: 2, ..stage_params(0, 0) };
    let raw = lift(&[100.0, -100.0]);
    let mut out = [F(0.0); 2];
    for x in 0..2 {
        gpu_ppo_stage_batch(
            InvocationId { x, y: 0, z: 0 }, &p, &raw, &[F(0.0)], &[F(1.0)], &[0], &[F(1.0)], &mut out,
        );
    }
    assert_eq!(out, [F(5.0), F(-5.0)]);
}

#[test]
fn staging_bounds_are_checked() {
    let p = stage_params(0, 1);
    let raw = lift(&rnds(70, 24));
    let v = [F(1.0); 2];
    let id = |x: u32, y: u32| InvocationId { x, y, z: 0 };
    assert!(stage_fits(id(11, 1), &p, &raw, &v, &v, &[0, 1], &v, 39));
    assert!(!stage_fits(id(11, 1), &p, &raw, &v, &v, &[0, 1], &v, 38));
    assert!(!stage_fits(id(11, 1), &p, &raw[..23], &v, &v, &[0, 1], &v, 39));
    assert!(!stage_fits(id(11, 1), &p, &raw, &v[1..], &v, &[0, 1], &v, 39));
    assert!(!stage_fits(id(11, 1), &p, &raw, &v, &v[1..], &[0, 1], &v, 39));
    assert!(!stage_fits(id(11, 1), &p, &raw, &v, &v, &[0], &v, 39));
    assert!(!stage_fits(id(11, 1), &p, &raw, &v, &v, &[0, 1], &v[1..], 39));
    assert!(!stage_fits(id(11, 1), &p, &raw, &v, &v, &[0, 2], &v, 39));
    // A thread without work needs nothing, and a batch without steps has no columns.
    assert!(stage_fits(id(12, 1), &p, &[], &v, &v, &[], &v, 0));
    assert!(stage_fits(id(0, 2), &p, &[], &v, &v, &[], &v, 0));
    let none = PpoStageParams { steps: 0, ..p };
    assert!(stage_fits(id(0, 0), &none, &[], &v, &v, &[], &v, 0));
}

fn vec3(tag: u32) -> Vec3<F> {
    Vec3 { x: F(rnd(tag, 0)), y: F(rnd(tag, 1)), z: F(rnd(tag, 2)) }
}

fn unit(tag: u32) -> Quat<F> {
    let c = rnds(tag, 4);
    let n = (c[0] * c[0] + c[1] * c[1] + c[2] * c[2] + c[3] * c[3]).sqrt();
    Quat { x: F(c[0] / n), y: F(c[1] / n), z: F(c[2] / n), w: F(c[3] / n) }
}

fn close(a: Vec3<F>, b: Vec3<F>) -> bool {
    let d = [a.x.0 - b.x.0, a.y.0 - b.y.0, a.z.0 - b.z.0];
    d.iter().all(|x| x.abs() < 1e-5)
}

#[test]
fn rotations_keep_their_laws_up_to_rounding() {
    for tag in 100..120 {
        let (a, b, v) = (unit(tag), unit(tag + 50), vec3(tag + 100));
        let r = quat_rotate(a, v);
        let len = |v: Vec3<F>| (v.x.0 * v.x.0 + v.y.0 * v.y.0 + v.z.0 * v.z.0).sqrt();
        assert!((len(r) - len(v)).abs() < 1e-5);
        assert!(close(quat_rotate_inv(a, r), v));
        assert!(close(quat_rotate(a, quat_rotate_inv(a, v)), v));
        assert!(close(quat_rotate(quat_mul(a, b), v), quat_rotate(a, quat_rotate(b, v))));
        let one = quat_mul(a, quat_conj(a));
        assert!((one.w.0 - 1.0).abs() < 1e-5 && one.x.0.abs() < 1e-5);
        // Negation goes through without any rounding.
        let m = Quat { x: F(-a.x.0), y: F(-a.y.0), z: F(-a.z.0), w: F(-a.w.0) };
        let s = quat_rotate(m, v);
        assert_eq!((s.x, s.y, s.z), (r.x, r.y, r.z));
        let id = Quat { x: F(0.0), y: F(0.0), z: F(0.0), w: F(1.0) };
        let same = quat_rotate(id, v);
        assert_eq!((same.x, same.y, same.z), (v.x, v.y, v.z));
    }
}

#[test]
fn quaternion_products_do_not_commute() {
    let i = Quat { x: F(1.0), y: F(0.0), z: F(0.0), w: F(0.0) };
    let j = Quat { x: F(0.0), y: F(1.0), z: F(0.0), w: F(0.0) };
    let (k, m) = (quat_mul(i, j), quat_mul(j, i));
    assert_eq!((k.x, k.y, k.z, k.w), (F(0.0), F(0.0), F(1.0), F(0.0)));
    assert_eq!((m.x, m.y, m.z, m.w), (F(0.0), F(0.0), F(-1.0), F(0.0)));
}

fn observe(now: &[f32], prev: &[f32], pjp: &[f32], fl: &[u32]) -> (Vec<F>, Vec<F>, Vec<F>) {
    let mut obs = vec![F(0.0); 19 * N];
    let mut critic = vec![F(0.0); 25 * N];
    let mut out = vec![F(0.0); J * N];
    Obs {}.assemble(
        &obs_params(19),
        &lift(now),
        &lift(prev),
        &obs_joints(),
        &lift(&rnds(4, 3 * N)),
        &lift(&rnds(5, J * N)),
        &lift(pjp),
        fl,
        &mut obs,
        &mut critic,
        &mut out,
    );
    (obs, critic, out)
}

#[test]
fn unused_history_is_not_read() {
    let (now, pjp) = (poses(2), rnds(6, J * N));
    let bare = observe(&now, &[], &[], &[0; N]);
    assert_eq!(bare, observe(&now, &poses(3), &pjp, &[0; N]));
    assert_eq!(bare, observe(&now, &poses(3), &pjp, &[12; N]));
    assert_ne!(bare, observe(&now, &poses(3), &pjp, &[3; N]));
    let only = observe(&now, &poses(3), &[], &[1; N]);
    assert_eq!(only, observe(&now, &poses(3), &pjp, &[5; N]));
}

#[test]
fn unchanged_poses_have_no_joint_velocity() {
    let now = poses(2);
    let first = observe(&now, &[], &[], &[0; N]);
    let angles: Vec<f32> = first.2.iter().map(|a| a.0).collect();
    let second = observe(&now, &now, &angles, &[3; N]);
    assert_eq!(second.2, first.2);
    for i in (2 * J + 4) * N..(3 * J + 4) * N {
        assert_eq!(second.0[i].0, 0.0);
    }
}

#[test]
fn negated_previous_torso_changes_nothing() {
    let (now, pjp) = (poses(2), rnds(6, J * N));
    let mut flipped = poses(3);
    for e in 0..N {
        for c in 0..4 {
            flipped[(e * CPB + TORSO) * 8 + c] *= -1.0;
        }
    }
    assert_eq!(observe(&now, &poses(3), &pjp, &[3; N]), observe(&now, &flipped, &pjp, &[3; N]));
}

#[test]
fn exchanged_actions_change_no_reward() {
    let run = |act: &[f32]| {
        let mut reward = vec![F(0.0); N];
        let (mut fell, mut air) = (vec![9u32; N], vec![F(0.0); 2 * N]);
        Reward {}.evaluate(
            &reward_params(2, WEIGHTS),
            &lift(&poses(2)),
            &lift(&poses(3)),
            &reward_joints(),
            &lift(&rnds(4, 3 * N)),
            &lift(act),
            &lift(&rnds(6, 2 * N)),
            &lift(&rnds(7, 6 * N)),
            &flags(),
            &mut reward,
            &mut fell,
            &mut air,
        );
        (reward, fell, air)
    };
    let act = rnds(5, 2 * J * N);
    let swapped = [&act[J * N..], &act[..J * N]].concat();
    assert_ne!(act, swapped);
    assert_eq!(run(&act), run(&swapped));
}

#[test]
fn zero_weights_pay_nothing() {
    let mut w = WEIGHTS;
    for i in [1, 2, 3, 4, 6, 7, 8, 9, 10, 11, 12, 13, 15, 16, 17, 18, 19, 21, 22, 23] {
        w[i] = 0.0;
    }
    let (reward, fell) = run_rewards(w, &poses(2));
    for e in 0..N {
        assert_eq!(reward[e].0, if fell[e] == 1 { w[14] } else { 0.0 });
    }
}

#[test]
fn sampler_threads_may_run_in_any_order() {
    let p = sample_params(0);
    let (means, log_std) = (lift(&rnds(11, 12)), lift(&rnds(12, 3)));
    let run = |order: [u32; 4]| {
        let (mut a, mut l) = (vec![F(9.0); 12], vec![F(9.0); 4]);
        for x in order {
            gpu_sample_gaussian(InvocationId { x, y: 0, z: 0 }, &p, &means, &log_std, &mut a, &mut l);
        }
        (a, l)
    };
    assert_eq!(run([0, 1, 2, 3]), run([3, 1, 0, 2]));
}

#[test]
fn parameters_can_be_copied() {
    let (a, v) = (actor_params(3), reward_params(2, WEIGHTS));
    let (b, w, o) = (a, v, obs_params(19));
    let c = o;
    assert_eq!((a.num_cols, b.num_cols), (3, 3));
    assert_eq!((v.w_flight, w.w_flight), (F(-0.6), F(-0.6)));
    assert_eq!((o.obs_dim, c.obs_dim), (19, 19));
}

#[test]
fn noise_stays_in_its_range() {
    for step in 0..2000 {
        let uniform = SampleParams { step, ..sample_params(2) };
        let z = noise_z::<F>(&uniform, 3, 1).0;
        assert!((-0.5..0.5).contains(&z));
        assert_eq!(F(z + 0.5), u01::<F>(counter_u32(42, 3, 1, step, 0)));
        let gaussian = SampleParams { step, ..sample_params(0) };
        let z = noise_z::<F>(&gaussian, 3, 1).0;
        assert!(z.is_finite() && z.abs() < 5.68);
    }
}

/// Rewards under the given weights, commands and air times, on the same poses.
fn rewards_with(w: [f32; 36], cmd: f32, air: f32) -> (Vec<F>, Vec<u32>) {
    let mut reward = vec![F(0.0); N];
    let mut fell = vec![9u32; N];
    let mut new_air = vec![F(0.0); 2 * N];
    Reward {}.evaluate(
        &reward_params(2, w),
        &lift(&poses(2)),
        &lift(&poses(3)),
        &reward_joints(),
        &vec![F(cmd); 3 * N],
        &lift(&rnds(5, 2 * J * N)),
        &vec![F(air); 2 * N],
        &lift(&rnds(7, 6 * N)),
        &flags(),
        &mut reward,
        &mut fell,
        &mut new_air,
    );
    (reward, fell)
}

#[test]
fn standing_ignores_gait_and_moving_ignores_pose() {
    let mut gait = WEIGHTS;
    gait[15] = 9.0;
    gait[17] = 9.0;
    gait[34] = 9.0;
    let mut pose = WEIGHTS;
    pose[6] = 9.0;
    pose[29] = 9.0;
    // All feet on the ground, so that every landing would be paid.
    for w in [&mut gait, &mut pose] {
        w[30] = 100.0;
    }
    let mut base = WEIGHTS;
    base[30] = 100.0;
    assert_eq!(rewards_with(base, 0.0, 0.5), rewards_with(gait, 0.0, 0.25));
    assert_ne!(rewards_with(base, 1.0, 0.5), rewards_with(gait, 1.0, 0.25));
    assert_eq!(rewards_with(base, 1.0, 0.5), rewards_with(pose, 1.0, 0.5));
    assert_ne!(rewards_with(base, 0.0, 0.5), rewards_with(pose, 0.0, 0.5));
}

#[test]
fn kernels_run_in_any_order() {
    let p = obs_params(19);
    let run = |order: [u32; N]| {
        let mut obs = vec![F(0.0); 19 * N];
        let mut critic = vec![F(0.0); 25 * N];
        let mut out = vec![F(0.0); J * N];
        for x in order {
            gpu_obs(
                InvocationId { x, y: 0, z: 0 },
                &p,
                &lift(&poses(2)),
                &lift(&poses(3)),
                &obs_joints(),
                &lift(&rnds(4, 3 * N)),
                &lift(&rnds(5, J * N)),
                &lift(&rnds(6, J * N)),
                &flags(),
                &mut obs,
                &mut critic,
                &mut out,
            );
        }
        (obs, critic, out)
    };
    assert_eq!(run([0, 1, 2, 3, 4]), run([4, 2, 0, 3, 1]));
}

#[test]
fn hinge_angle_of_a_turned_child() {
    let (parent, rest) = (unit(200), unit(201));
    for angle in [-2.0f32, -0.5, 0.0, 0.75, 1.5] {
        let turn = Quat { x: F(0.0), y: F(0.0), z: F((angle / 2.0).sin()), w: F((angle / 2.0).cos()) };
        let child = quat_mul(quat_mul(parent, rest), turn);
        let poses = [
            [parent.x, parent.y, parent.z, parent.w, F(0.0), F(0.0), F(0.0), F(0.0)],
            [child.x, child.y, child.z, child.w, F(0.0), F(0.0), F(0.0), F(0.0)],
        ]
        .concat();
        let seen = joint_angle(&poses, 0, 2, 0, 1, rest);
        assert!((seen.0 - angle).abs() < 1e-5);
    }
}

#[test]
fn mirror_comes_before_the_clamp() {
    // Feature 1 is saturated at its own place, but not where the mirror puts it.
    let p = PpoStageParams { dim: 2, n: 1, steps: 1, total_cols: 1, ..stage_params(0, 0) };
    let raw = lift(&[0.0, 20.0]);
    let (mean, inv_std) = (lift(&[18.0, 0.0]), lift(&[1.0, 1.0]));
    let mut straight = [F(9.0); 2];
    let mut mirrored = [F(9.0); 2];
    for y in 0..2 {
        let id = InvocationId { x: 0, y, z: 0 };
        let ones = [F(1.0); 2];
        gpu_ppo_stage_batch(id, &p, &raw, &mean, &inv_std, &[0, 1], &ones, &mut straight);
        gpu_ppo_stage_batch(id, &p, &raw, &mean, &inv_std, &[1, 0], &ones, &mut mirrored);
    }
    assert_eq!(straight, [F(-5.0), F(5.0)]);
    // Exchanging the staged values would give 5 and -5.
    assert_eq!(mirrored, [F(2.0), F(0.0)]);
}
