//! What sampling, staging and the policy gradients compute, in real numbers.
//!
//! As for the reward, the operand of a quotient, an exponential, a minimum or a maximum is a
//! parameter of the law, which says how it reads.

use crate::exact::{
    lemma_constant, lemma_minus, lemma_spread, lemma_turn, orders_exactly, reads_exactly,
};
use crate::ppo::{value_gradient, ActorBatch, PpoStageParams, PpoValueParams, StageSource};
use crate::sample::{action, log_prob, noise, SampleParams};
use crate::scalar::{
    one, zero, Scalar, FIVE, HALF_LN_2PI, MINUS_FIVE, MINUS_HALF, MINUS_TWO,
};
use vstd::prelude::*;

verus! {

/// A sampled action is the mean plus the deviation `e^log_std` times the noise, for every
/// mean, deviation and noise: taking the mean away leaves the scaled noise. In exact
/// arithmetic.
pub proof fn law_action_is_mean_plus_noise<R: Scalar>(
    val: spec_fn(R) -> real,
    p: SampleParams,
    means: Seq<R>,
    log_std: Seq<R>,
    env: int,
    d: int,
)
    requires
        reads_exactly(val),
        0 <= d < p.action_dim,
    ensures
        action(p, means, log_std, env).len() == p.action_dim,
        val(action(p, means, log_std, env)[d]) - val(means[env * p.action_dim + d]) == val(
            log_std[d].exponential(),
        ) * val(noise::<R>(p, env as u32, d as u32)),
{
}

/// Half of minus one, times a square.
proof fn lemma_minus_half(h: real, z: real)
    requires
        2real * h == 0real - 1real,
    ensures
        2real * ((h * z) * z) == 0real - z * z,
{
    let y = z * z;
    lemma_turn(h, z, z);
    lemma_spread(y, h, h);
    lemma_turn(y, h, h);
    lemma_turn(y, h + h, h);
    assert(h + h == 0real - 1real);
    lemma_minus(1real, y);
    lemma_constant(y);
}

/// The log-probability of a sampled action is that of independent Gaussians: no dimension
/// counts nothing, and twice what dimension `k` adds is `-z² - 2·log_std - ln(2π)`. In exact
/// arithmetic.
pub proof fn law_sampled_log_prob_adds_up<R: Scalar>(
    val: spec_fn(R) -> real,
    p: SampleParams,
    log_std: Seq<R>,
    env: int,
    k: int,
)
    requires
        reads_exactly(val),
        2real * val(R::literal(MINUS_HALF)) == 0real - 1real,
        0 <= k,
    ensures
        ({
            let z = val(noise::<R>(p, env as u32, k as u32));
            let (before, after) = (
                val(log_prob(p, log_std, env, k)),
                val(log_prob(p, log_std, env, k + 1)),
            );
            &&& val(log_prob(p, log_std, env, 0)) == 0real
            &&& 2real * (after - before) == 0real - z * z - 2real * val(log_std[k]) - 2real * val(
                R::literal(HALF_LN_2PI),
            )
        }),
{
    let z = val(noise::<R>(p, env as u32, k as u32));
    lemma_minus_half(val(R::literal(MINUS_HALF)), z);
}

/// The log-probability of a batch action under the current policy: no dimension counts
/// nothing, and twice what dimension `k` adds is `-d² - 2·log_std - 2·c`, where `d` is the
/// action less the mean over the deviation. In exact arithmetic.
pub proof fn law_batch_log_prob_adds_up<R: Scalar>(
    val: spec_fn(R) -> real,
    b: ActorBatch<R>,
    m: int,
    k: int,
    off: R,
)
    requires
        reads_exactly(val),
        2real * val(R::literal(MINUS_HALF)) == 0real - 1real,
        0 <= k,
        val(off) == val(b.action[k * b.params.num_cols + m]) - val(
            b.mean[k * b.params.num_cols + m],
        ),
    ensures
        ({
            let d = val(off.over(b.log_std[k].exponential()));
            let (before, after) = (val(b.log_prob(m, k)), val(b.log_prob(m, k + 1)));
            &&& val(b.log_prob(m, 0)) == 0real
            &&& 2real * (after - before) == 0real - d * d - 2real * val(b.log_std[k]) - 2real * val(
                b.params.log_sqrt_2pi,
            )
        }),
{
    let i = k * b.params.num_cols + m;
    assert(val(b.action[i].minus(b.mean[i])) == val(off));
    assert(b.offset(k, m) == off);
    let d = val(off.over(b.log_std[k].exponential()));
    lemma_minus_half(val(R::literal(MINUS_HALF)), d);
}

/// The ratio of a sample is `e^(logp - logp_old)`, and a sample is clipped exactly where its
/// ratio has left `1 ± clip` on the side that its advantage favours. In exact arithmetic.
pub proof fn law_ratio_and_clipping<R: Scalar>(
    val: spec_fn(R) -> real,
    b: ActorBatch<R>,
    m: int,
    gain: R,
    hi: R,
    lo: R,
)
    requires
        reads_exactly(val),
        val(gain) == val(b.log_prob(m, b.params.action_dim as int)) - val(b.logp_old[m]),
        val(hi) == 1real + val(b.params.clip),
        val(lo) == 1real - val(b.params.clip),
    ensures
        b.ratio(m) == gain.exponential(),
        b.clipped(m) == ((zero::<R>().at_most(b.adv[m]) && hi.below(gain.exponential())) || (
        b.adv[m].below(zero()) && gain.exponential().below(lo))),
{
    let n = b.params.action_dim as int;
    assert(val(b.log_prob(m, n).minus(b.logp_old[m])) == val(gain));
    assert(val(one::<R>().plus(b.params.clip)) == val(hi));
    assert(val(one::<R>().minus(b.params.clip)) == val(lo));
}

/// The gradients of a sample that is not clipped: by the mean `-adv·ratio·d / σ²`, and by
/// `log_std` `-adv·ratio·(d² / σ² - 1) - entropy`, both times the averaging factor, where `d`
/// is the action less the mean and `1 / σ²` is `e^(-2·log_std)`. In exact arithmetic, with the
/// advantage and the ratio as they are.
pub proof fn law_sample_gradients<R: Scalar>(
    val: spec_fn(R) -> real,
    b: ActorBatch<R>,
    m: int,
    k: int,
    exponent: R,
)
    requires
        reads_exactly(val),
        val(R::literal(MINUS_TWO)) == 0real - 2real,
        0 <= k < b.params.action_dim,
        val(exponent) == 0real - 2real * val(b.log_std[k]),
    ensures
        ({
            let i = k * b.params.num_cols + m;
            let d = val(b.action[i]) - val(b.mean[i]);
            let pull = val(b.adv[m]) * val(b.ratio(m));
            let precision = val(exponent.exponential());
            let scale = val(b.params.scale);
            let entropy = val(b.params.entropy_coef);
            &&& b.mean_gradient(m).len() == b.params.action_dim
            &&& b.log_std_gradient(m).len() == b.params.action_dim
            &&& !b.clipped(m) ==> val(b.mean_gradient(m)[k]) == (0real - pull * d * precision)
                * scale
            &&& !b.clipped(m) ==> val(b.log_std_gradient(m)[k]) == (0real - pull * (d * d
                * precision - 1real) - entropy) * scale
            &&& b.clipped(m) ==> val(b.mean_gradient(m)[k]) == 0real
            &&& b.clipped(m) ==> val(b.log_std_gradient(m)[k]) == (0real - entropy) * scale
        }),
{
    let ls = b.log_std[k];
    lemma_minus(2real, val(ls));
    assert(val(R::literal(MINUS_TWO).times(ls)) == val(exponent));
    assert(b.inverse_variance(k) == exponent.exponential());
}

/// A factor passes through a product that is negated and scaled.
proof fn lemma_factor(t: real, a: real, r: real, q: real, s: real)
    ensures
        (0real - ((t * a) * r) * q) * s == t * ((0real - (a * r) * q) * s),
{
    let p = (a * r) * q;
    lemma_turn(t, a, r);
    lemma_turn(t, a * r, q);
    lemma_minus(t * p, s);
    lemma_minus(p, s);
    lemma_turn(t, p, s);
    lemma_minus(t, p * s);
}

/// A sample pulls in proportion to its advantage: where two batches differ in their advantages
/// alone and a sample is clipped in neither, `t` times the advantage gives `t` times the
/// gradient by the mean, and `t` times the gradient by `log_std` but for the entropy. In exact
/// arithmetic, for advantages of any size.
pub proof fn law_gradient_is_proportional_to_advantage<R: Scalar>(
    val: spec_fn(R) -> real,
    b: ActorBatch<R>,
    c: ActorBatch<R>,
    m: int,
    k: int,
    t: real,
)
    requires
        reads_exactly(val),
        val(R::literal(MINUS_TWO)) == 0real - 2real,
        c == (ActorBatch { adv: c.adv, ..b }),
        val(c.adv[m]) == t * val(b.adv[m]),
        !b.clipped(m),
        !c.clipped(m),
        0 <= k < b.params.action_dim,
    ensures
        ({
            let bonus = val(b.params.entropy_coef) * val(b.params.scale);
            &&& val(c.mean_gradient(m)[k]) == t * val(b.mean_gradient(m)[k])
            &&& val(c.log_std_gradient(m)[k]) + bonus == t * (val(b.log_std_gradient(m)[k]) + bonus)
        }),
{
    lemma_same_log_prob(b, c, m, b.params.action_dim as int);
    let x = R::literal(MINUS_TWO).times(b.log_std[k]);
    lemma_minus(2real, val(b.log_std[k]));
    law_sample_gradients(val, b, m, k, x);
    law_sample_gradients(val, c, m, k, x);
    let i = k * b.params.num_cols + m;
    let d = val(b.action[i]) - val(b.mean[i]);
    let (a, r) = (val(b.adv[m]), val(b.ratio(m)));
    let v = val(x.exponential());
    let s = val(b.params.scale);
    let ent = val(b.params.entropy_coef);
    lemma_turn(a * r, d, v);
    lemma_turn((t * a) * r, d, v);
    lemma_factor(t, a, r, d * v, s);
    let q = d * d * v - 1real;
    lemma_factor(t, a, r, q, s);
    let (f, g) = ((a * r) * q, ((t * a) * r) * q);
    lemma_spread(s, 0real - f, ent);
    lemma_spread(s, 0real - g, ent);
    lemma_turn(s, 0real - f, s);
    lemma_turn(s, 0real - g, s);
    lemma_turn(s, 0real - f - ent, s);
    lemma_turn(s, 0real - g - ent, s);
    lemma_turn(s, ent, s);
}

/// The advantage has no part in the log-probability.
proof fn lemma_same_log_prob<R: Scalar>(b: ActorBatch<R>, c: ActorBatch<R>, m: int, dims: int)
    requires
        c == (ActorBatch { adv: c.adv, ..b }),
    ensures
        b.log_prob(m, dims) == c.log_prob(m, dims),
    decreases dims,
{
    if dims > 0 {
        lemma_same_log_prob(b, c, m, dims - 1);
        assert(b.offset(dims - 1, m) == c.offset(dims - 1, m));
    }
}

/// Only differences of values matter: where the value, the old value and the return all move by
/// the same amount, the gradient stays as it is. In exact arithmetic.
pub proof fn law_value_gradient_ignores_shift<R: Scalar>(
    val: spec_fn(R) -> real,
    p: PpoValueParams<R>,
    v: R,
    old_v: R,
    ret: R,
    w: R,
    old_w: R,
    moved_ret: R,
    by: real,
)
    requires
        reads_exactly(val),
        val(w) == val(v) + by,
        val(old_w) == val(old_v) + by,
        val(moved_ret) == val(ret) + by,
    ensures
        value_gradient(p, w, old_w, moved_ret) == value_gradient(p, v, old_v, ret),
{
    assert(val(v.minus(old_v)) == val(w.minus(old_w)));
    assert(val(v.minus(ret)) == val(w.minus(moved_ret)));
    let (diff, low) = (v.minus(old_v), p.clip.opposite());
    assert(val(old_v.plus(p.clip).minus(ret)) == val(old_w.plus(p.clip).minus(moved_ret)));
    assert(val(old_v.plus(low).minus(ret)) == val(old_w.plus(low).minus(moved_ret)));
    assert(val(old_v.plus(diff).minus(ret)) == val(old_w.plus(diff).minus(moved_ret)));
}

/// The value gradient is `coef·2·err·scale`, where `err` is the error of the value or, if its
/// square is larger, that of the value moved back to within `clip` of the old one. In exact
/// arithmetic.
pub proof fn law_value_gradient<R: Scalar>(
    val: spec_fn(R) -> real,
    p: PpoValueParams<R>,
    v: R,
    old_v: R,
    ret: R,
    diff: R,
    low: R,
    err: R,
    held_err: R,
    sq: R,
    held_sq: R,
)
    requires
        reads_exactly(val),
        val(diff) == val(v) - val(old_v),
        val(low) == 0real - val(p.clip),
        val(err) == val(v) - val(ret),
        val(held_err) == (if p.clip.below(diff) {
            val(old_v) + val(p.clip)
        } else if diff.below(low) {
            val(old_v) - val(p.clip)
        } else {
            val(v)
        }) - val(ret),
        val(sq) == val(err) * val(err),
        val(held_sq) == val(held_err) * val(held_err),
    ensures
        val(value_gradient(p, v, old_v, ret)) == val(p.value_coef) * (2real * val(
            if sq.below(held_sq) {
                held_err
            } else {
                err
            },
        )) * val(p.scale),
{
    assert(val(v.minus(old_v)) == val(diff));
    assert(val(p.clip.opposite()) == val(low));
    assert(val(v.minus(ret)) == val(err));
    let held = if p.clip.below(diff) {
        p.clip
    } else if diff.below(low) {
        low
    } else {
        diff
    };
    assert(val(old_v.plus(held).minus(ret)) == val(held_err));
    assert(val(err.times(err)) == val(sq));
    assert(val(held_err.times(held_err)) == val(held_sq));
}

/// A value within `clip` of the old one has the plain squared-error gradient
/// `coef·2·(v - ret)·scale`. One beyond it has either that or the gradient of the nearest value
/// within `clip`, whichever error is larger. In exact and exactly ordered arithmetic.
pub proof fn law_value_is_held_within_clip<R: Scalar>(
    val: spec_fn(R) -> real,
    p: PpoValueParams<R>,
    v: R,
    old_v: R,
    ret: R,
)
    requires
        reads_exactly(val),
        orders_exactly(val),
        0real <= val(p.clip),
    ensures
        ({
            let (x, o, r, c) = (val(v), val(old_v), val(ret), val(p.clip));
            let held = if x > o + c {
                o + c
            } else if x < o - c {
                o - c
            } else {
                x
            };
            let g = val(value_gradient(p, v, old_v, ret));
            let plain = val(p.value_coef) * (2real * (x - r)) * val(p.scale);
            let kept = val(p.value_coef) * (2real * (held - r)) * val(p.scale);
            &&& o - c <= x <= o + c ==> g == plain
            &&& g == (if (x - r) * (x - r) < (held - r) * (held - r) {
                kept
            } else {
                plain
            })
        }),
{
    let diff = v.minus(old_v);
    let low = p.clip.opposite();
    let err = v.minus(ret);
    let held = if p.clip.below(diff) {
        p.clip
    } else if diff.below(low) {
        low
    } else {
        diff
    };
    let held_err = old_v.plus(held).minus(ret);
    law_value_gradient(
        val,
        p,
        v,
        old_v,
        ret,
        diff,
        low,
        err,
        held_err,
        err.times(err),
        held_err.times(held_err),
    );
}

/// A staged feature is the mirrored raw number, `(raw·sign - mean)·inv_std`, held between `-5`
/// and `5`; nothing is held back before the scaling. The number comes from the step and the
/// environment of the column: column `x` of a batch is step `x mod T` of environment `x div T`,
/// column `x` of a single step is environment `x`. In exact arithmetic.
pub proof fn law_staged_feature<R: Scalar>(
    val: spec_fn(R) -> real,
    src: StageSource<R>,
    p: PpoStageParams,
    x: int,
    d: int,
    feature: R,
)
    requires
        reads_exactly(val),
        ({
            let (t, e) = if p.step_select == 0 {
                (x % (p.steps as int), x / (p.steps as int))
            } else {
                (p.step_select - 1, x)
            };
            let raw = val(src.raw[(t * p.dim + src.perm[d]) * p.n + e]);
            val(feature) == (raw * val(src.sign[d]) - val(src.mean[d])) * val(src.inv_std[d])
        }),
    ensures
        src.staged(p, x, d) == feature.greater(R::literal(MINUS_FIVE)).lesser(R::literal(FIVE)),
        feature.greater(R::literal(MINUS_FIVE)) == feature && feature.lesser(R::literal(FIVE))
            == feature ==> src.staged(p, x, d) == feature,
{
    let (t, e) = (p.step_of(x), p.env_of(x));
    let raw = src.raw[(t * p.dim + src.perm[d]) * p.n + e];
    let y = raw.times(src.sign[d]).minus(src.mean[d]).times(src.inv_std[d]);
    assert(val(y) == val(feature));
}

/// A feature between `-5` and `5` is staged as it is, one beyond them as the nearer bound. In
/// exact and exactly ordered arithmetic, for every scale.
pub proof fn law_feature_in_range_is_kept<R: Scalar>(
    val: spec_fn(R) -> real,
    src: StageSource<R>,
    p: PpoStageParams,
    x: int,
    d: int,
)
    requires
        reads_exactly(val),
        orders_exactly(val),
        val(R::literal(FIVE)) == 5real,
        val(R::literal(MINUS_FIVE)) == 0real - 5real,
    ensures
        ({
            let (t, e) = if p.step_select == 0 {
                (x % (p.steps as int), x / (p.steps as int))
            } else {
                (p.step_select - 1, x)
            };
            let raw = val(src.raw[(t * p.dim + src.perm[d]) * p.n + e]);
            let y = (raw * val(src.sign[d]) - val(src.mean[d])) * val(src.inv_std[d]);
            &&& 0real - 5real <= y <= 5real ==> val(src.staged(p, x, d)) == y
            &&& y > 5real ==> val(src.staged(p, x, d)) == 5real
            &&& y < 0real - 5real ==> val(src.staged(p, x, d)) == 0real - 5real
        }),
{
    let (t, e) = (p.step_of(x), p.env_of(x));
    let raw = src.raw[(t * p.dim + src.perm[d]) * p.n + e];
    let y = raw.times(src.sign[d]).minus(src.mean[d]).times(src.inv_std[d]);
    law_staged_feature(val, src, p, x, d, y);
}

/// A launch has a column for every environment of the selected step, or for every step of every
/// environment, and a row for every feature.
pub proof fn law_stage_grid(p: PpoStageParams, x: int, d: int)
    ensures
        p.in_range(x, d) == (0 <= d < p.dim && 0 <= x && (if p.step_select == 0 {
            x < p.steps * p.n
        } else {
            x < p.n
        })),
        p.out_index(x, d) == d * p.total_cols + p.col_offset + x,
{
}

} // verus!
