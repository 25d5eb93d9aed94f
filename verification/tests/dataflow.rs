use vortx_rollout::digest::Digest;
use vortx_rollout::geometry::{
    component, cross, down_basis, holds_rot, holds_trans, pose_rot, pose_trans, quat_conj, quat_mul,
    quat_rotate, quat_rotate_inv, up_basis, Quat, Vec3,
};
use vortx_rollout::rng::counter_u32;
use vortx_rollout::sample::{noise_z, u01, SampleParams};
use vortx_rollout::scalar::{Scalar, HALF, MINUS_ONE, ONE, TWO, TWO_POW_MINUS_24, ZERO};

fn d(n: u32) -> Digest {
    Digest(n)
}

fn v(x: u32) -> Vec3<Digest> {
    Vec3 { x: d(x), y: d(x + 1), z: d(x + 2) }
}

fn q(x: u32) -> Quat<Digest> {
    Quat { x: d(x), y: d(x + 1), z: d(x + 2), w: d(x + 3) }
}

#[test]
fn digests_tell_operations_and_operands() {
    let (a, b, c) = (d(1), d(2), d(3));
    assert_eq!(a.add(b), a.add(b));
    assert_ne!(a.add(b), b.add(a));
    assert_ne!(a.add(b), a.sub(b));
    assert_ne!(a.mul(b), a.div(b));
    assert_ne!(a.min(b), a.max(b));
    assert_ne!(a.add(b), a.add(c));
    assert_ne!(a.add(b).add(c), a.add(b.add(c)));
    assert_ne!(a.sin(), a.cos());
    assert_ne!(a.exp(), a.ln());
    assert_ne!(a.abs(), a.neg());
    assert_ne!(a.sqrt(), a.acos());
    assert_ne!(a.atan2(b), b.atan2(a));
    assert_ne!(Digest::from_u32(1), Digest::from_bits(1));
    assert!(a.lt(b) && !b.lt(a) && a.le(a) && !b.le(a));
    assert!(Scalar::eq(a, a) && !Scalar::eq(a, b));
}

#[test]
fn cross_product_by_components() {
    let (a, b) = (v(10), v(20));
    let c = cross(a, b);
    assert_eq!(c.x, a.y.mul(b.z).sub(a.z.mul(b.y)));
    assert_eq!(c.y, a.z.mul(b.x).sub(a.x.mul(b.z)));
    assert_eq!(c.z, a.x.mul(b.y).sub(a.y.mul(b.x)));
}

#[test]
fn rotation_by_its_formula() {
    let (r, a) = (q(10), v(20));
    let u = Vec3 { x: r.x, y: r.y, z: r.z };
    let c = cross(u, a);
    let t = Vec3 { x: c.x.add(r.w.mul(a.x)), y: c.y.add(r.w.mul(a.y)), z: c.z.add(r.w.mul(a.z)) };
    let s = cross(u, t);
    let two = Digest::from_bits(TWO);
    let out = quat_rotate(r, a);
    assert_eq!(out.x, a.x.add(two.mul(s.x)));
    assert_eq!(out.y, a.y.add(two.mul(s.y)));
    assert_eq!(out.z, a.z.add(two.mul(s.z)));
    let back = quat_rotate_inv(r, a);
    let same = quat_rotate(quat_conj(r), a);
    assert_eq!((back.x, back.y, back.z), (same.x, same.y, same.z));
}

#[test]
fn product_by_components() {
    let (a, b) = (q(10), q(20));
    let p = quat_mul(a, b);
    assert_eq!(p.x, a.w.mul(b.x).add(a.x.mul(b.w)).add(a.y.mul(b.z)).sub(a.z.mul(b.y)));
    assert_eq!(p.y, a.w.mul(b.y).sub(a.x.mul(b.z)).add(a.y.mul(b.w)).add(a.z.mul(b.x)));
    assert_eq!(p.z, a.w.mul(b.z).add(a.x.mul(b.y)).sub(a.y.mul(b.x)).add(a.z.mul(b.w)));
    assert_eq!(p.w, a.w.mul(b.w).sub(a.x.mul(b.x)).sub(a.y.mul(b.y)).sub(a.z.mul(b.z)));
    let c = quat_conj(a);
    assert_eq!((c.x, c.y, c.z, c.w), (a.x.neg(), a.y.neg(), a.z.neg(), a.w));
}

#[test]
fn basis_vectors_and_components() {
    for i in 0..3 {
        let (up, down) = (up_basis::<Digest>(i), down_basis::<Digest>(i));
        for c in 0..3 {
            let (one, minus) = if c == i { (ONE, MINUS_ONE) } else { (ZERO, ZERO) };
            assert_eq!(component(up, c), Digest(one));
            assert_eq!(component(down, c), Digest(minus));
        }
    }
}

#[test]
fn poses_are_read_by_stride() {
    let buffer: Vec<Digest> = (0..48).map(Digest).collect();
    // Environment 1 of 2, link 2 of 3: the last of six poses.
    let r = pose_rot(&buffer, 1, 2, 3);
    assert_eq!((r.x, r.y, r.z, r.w), (d(40), d(41), d(42), d(43)));
    let t = pose_trans(&buffer, 1, 2, 3);
    assert_eq!((t.x, t.y, t.z), (d(44), d(45), d(46)));
    assert!(holds_rot(44, 1, 2, 3) && !holds_rot(43, 1, 2, 3));
    assert!(holds_trans(47, 1, 2, 3) && !holds_trans(46, 1, 2, 3));
    assert!(!holds_trans(usize::MAX, u32::MAX, u32::MAX, u32::MAX) || usize::BITS > 64);
}

#[test]
fn uniform_noise_by_its_formula() {
    let p = SampleParams { num_envs: 1, action_dim: 1, seed: 5, step: 6, pin_mode: 2, pad0: 0, pad1: 0, pad2: 0 };
    let word = counter_u32(5, 7, 8, 6, 0);
    let u = Digest::from_u32(word >> 8).mul(Digest::from_bits(TWO_POW_MINUS_24));
    assert_eq!(u01::<Digest>(word), u);
    assert_eq!(noise_z::<Digest>(&p, 7, 8), u.sub(Digest::from_bits(HALF)));
}
