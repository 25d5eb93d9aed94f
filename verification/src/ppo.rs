//! PPO loss gradients and batch staging.
//!
//! Every per-sample tensor is row-major `[rows x M]` with one column per sample; a
//! thread takes whole columns.

use crate::buffer::{
    cell, get, lemma_cell, lemma_cell_in, lemma_cell_of_index, lemma_no_rows, load, matrix_fits,
    put_row, store, with_column, with_entries,
};
use crate::launch::{
    after_thread, lemma_all_touched, lemma_stride, lemma_thread_end, lemma_thread_start,
    lemma_thread_step, lemma_touched_step, owns, started, touched, within_thread, InvocationId,
    MAX_NUM_THREADS,
};
use crate::sample::{log_prob, noise, SampleParams};
use crate::scalar::{
    one, square, two, zero, Scalar, FIVE, HALF_LN_2PI, MINUS_FIVE, MINUS_HALF, MINUS_TWO, ONE, TWO,
    ZERO,
};
use vstd::prelude::*;

verus! {

/// Scalar parameters of the actor gradient.
pub struct PpoActorParams<R> {
    /// PPO clip epsilon.
    pub clip: R,
    /// Entropy bonus coefficient, subtracted from the `log_std` gradient.
    pub entropy_coef: R,
    /// Per-sample averaging factor `1 / minibatch_size`.
    pub scale: R,
    /// `0.5·ln(2π)`, the normalisation constant of the Gaussian log-probability.
    pub log_sqrt_2pi: R,
    /// Number of action dimensions (rows).
    pub action_dim: u32,
    /// Number of samples (columns).
    pub num_cols: u32,
    pub pad0: u32,
    pub pad1: u32,
}

impl<R: Copy> Copy for PpoActorParams<R> {

}

impl<R: Copy> Clone for PpoActorParams<R> {
    fn clone(&self) -> (r: Self)
        ensures
            r == *self,
    {
        *self
    }
}

/// Scalar parameters of the value gradient.
pub struct PpoValueParams<R> {
    /// PPO clip epsilon, the range of the value clipping.
    pub clip: R,
    /// Value-loss coefficient.
    pub value_coef: R,
    /// Per-sample averaging factor `1 / minibatch_size`.
    pub scale: R,
    /// Number of samples (columns).
    pub num_cols: u32,
    pub pad0: u32,
    pub pad1: u32,
    pub pad2: u32,
    pub pad3: u32,
}

impl<R: Copy> Copy for PpoValueParams<R> {

}

impl<R: Copy> Clone for PpoValueParams<R> {
    fn clone(&self) -> (r: Self)
        ensures
            r == *self,
    {
        *self
    }
}

/// What the actor gradient is computed from.
pub struct ActorBatch<R> {
    pub params: PpoActorParams<R>,
    pub mean: Seq<R>,
    pub action: Seq<R>,
    pub log_std: Seq<R>,
    pub adv: Seq<R>,
    pub logp_old: Seq<R>,
}

impl<R: Scalar> ActorBatch<R> {
    /// The batch that a kernel is handed.
    pub open spec fn of(
        params: &PpoActorParams<R>,
        mean: &[R],
        action: &[R],
        log_std: &[R],
        adv: &[R],
        logp_old: &[R],
    ) -> ActorBatch<R> {
        ActorBatch {
            params: *params,
            mean: mean@,
            action: action@,
            log_std: log_std@,
            adv: adv@,
            logp_old: logp_old@,
        }
    }

    /// Distance of action dimension `k` of sample `m` from its mean.
    pub open spec fn offset(self, k: int, m: int) -> R {
        let i = cell(k, self.params.num_cols as int, m);
        self.action[i].minus(self.mean[i])
    }

    /// The log-probability of the first `dims` action dimensions of sample `m` under
    /// the current policy, summed in order.
    pub open spec fn log_prob(self, m: int, dims: int) -> R
        decreases dims,
    {
        if dims <= 0 {
            zero()
        } else {
            let ls = self.log_std[dims - 1];
            let d = self.offset(dims - 1, m).over(ls.exponential());
            self.log_prob(m, dims - 1).plus(
                R::literal(MINUS_HALF).times(d).times(d).minus(ls).minus(self.params.log_sqrt_2pi),
            )
        }
    }

    /// The importance ratio `exp(logp - logp_old)` of sample `m`.
    pub open spec fn ratio(self, m: int) -> R {
        self.log_prob(m, self.params.action_dim as int).minus(self.logp_old[m]).exponential()
    }

    /// Whether the clipped surrogate is flat at sample `m`: the ratio is past the clip
    /// range on the side that the advantage pushes it to.
    pub open spec fn clipped(self, m: int) -> bool {
        let (adv, ratio, clip) = (self.adv[m], self.ratio(m), self.params.clip);
        ||| zero::<R>().at_most(adv) && one::<R>().plus(clip).below(ratio)
        ||| adv.below(zero()) && ratio.below(one::<R>().minus(clip))
    }

    /// `1/σ²` of action dimension `k`.
    pub open spec fn inverse_variance(self, k: int) -> R {
        R::literal(MINUS_TWO).times(self.log_std[k]).exponential()
    }

    /// The gradient of the mean of sample `m`.
    pub open spec fn mean_gradient(self, m: int) -> Seq<R> {
        Seq::new(
            self.params.action_dim as nat,
            |k: int|
                if self.clipped(m) {
                    zero()
                } else {
                    self.adv[m].times(self.ratio(m)).times(self.offset(k, m)).times(
                        self.inverse_variance(k),
                    ).opposite().times(self.params.scale)
                },
        )
    }

    /// The contribution of sample `m` to the gradient of `log_std`.
    pub open spec fn log_std_gradient(self, m: int) -> Seq<R> {
        Seq::new(
            self.params.action_dim as nat,
            |k: int|
                if self.clipped(m) {
                    self.params.entropy_coef.opposite().times(self.params.scale)
                } else {
                    let d = self.offset(k, m);
                    let s = self.adv[m].times(self.ratio(m)).times(
                        d.times(d).times(self.inverse_variance(k)).minus(one()),
                    );
                    s.opposite().minus(self.params.entropy_coef).times(self.params.scale)
                },
        )
    }

    /// The buffers hold `[action_dim x num_cols]` means and actions, `[action_dim]`
    /// deviations, and one advantage and one old log-probability per sample; `out` is
    /// the length of a buffer that the gradients go to.
    pub open spec fn fits(self, out: int) -> bool {
        let p = self.params;
        &&& p.action_dim * p.num_cols <= self.mean.len()
        &&& p.action_dim * p.num_cols <= self.action.len()
        &&& p.action_dim <= self.log_std.len()
        &&& p.num_cols <= self.adv.len()
        &&& p.num_cols <= self.logp_old.len()
        &&& p.action_dim * p.num_cols <= out
    }
}

/// Whether the buffers have the shapes that the actor gradient needs.
pub fn actor_shapes_fit<R: Scalar>(
    params: &PpoActorParams<R>,
    mean: &[R],
    action: &[R],
    log_std: &[R],
    adv: &[R],
    logp_old: &[R],
    g_mean: usize,
    g_logstd: usize,
) -> (r: bool)
    ensures
        r == (ActorBatch::of(params, mean, action, log_std, adv, logp_old).fits(g_mean as int)
            && params.action_dim * params.num_cols <= g_logstd),
{
    let rows: u64 = params.action_dim as u64;
    let n: u32 = params.num_cols;
    matrix_fits(rows, n, mean.len()) && matrix_fits(rows, n, action.len()) && rows
        <= log_std.len() as u64 && n as u64 <= adv.len() as u64 && n as u64
        <= logp_old.len() as u64 && matrix_fits(rows, n, g_mean) && matrix_fits(rows, n, g_logstd)
}

/// Computes the two gradients of sample `m`.
fn actor_grad_sample<R: Scalar>(
    params: &PpoActorParams<R>,
    m: usize,
    mean: &[R],
    action: &[R],
    log_std: &[R],
    adv: &[R],
    logp_old: &[R],
    g_mean: &mut [R],
    g_logstd: &mut [R],
)
    requires
        m < params.num_cols,
        ActorBatch::of(params, mean, action, log_std, adv, logp_old).fits(
            old(g_mean)@.len() as int,
        ),
        params.action_dim * params.num_cols <= old(g_logstd)@.len(),
    ensures
        ({
            let b = ActorBatch::of(params, mean, action, log_std, adv, logp_old);
            let n = params.num_cols as int;
            &&& final(g_mean)@ == with_column(old(g_mean)@, n, m as int, b.mean_gradient(m as int))
            &&& final(g_logstd)@ == with_column(
                old(g_logstd)@,
                n,
                m as int,
                b.log_std_gradient(m as int),
            )
        }),
{
    let ghost b = ActorBatch::of(params, mean, action, log_std, adv, logp_old);
    let a: usize = params.action_dim as usize;
    let n: usize = params.num_cols as usize;
    let mut logp = R::from_bits(ZERO);
    let mut k: usize = 0;
    while k < a
        invariant
            k <= a,
            a == params.action_dim,
            n == params.num_cols,
            m < n,
            b.params == *params,
            b.mean == mean@,
            b.action == action@,
            b.log_std == log_std@,
            b.fits(g_mean@.len() as int),
            logp == b.log_prob(m as int, k as int),
        decreases a - k,
    {
        proof {
            lemma_cell_in(k as int, a as int, n as int, m as int, mean@.len() as int);
            lemma_cell_in(k as int, a as int, n as int, m as int, action@.len() as int);
        }
        let ls = load(log_std, k);
        let std = ls.exp();
        let d = get(action, k, n, m).sub(get(mean, k, n, m)).div(std);
        logp = logp.add(R::from_bits(MINUS_HALF).mul(d).mul(d).sub(ls).sub(params.log_sqrt_2pi));
        k = k + 1;
    }
    let ratio = logp.sub(load(logp_old, m)).exp();
    let av = load(adv, m);
    let clipped = (R::from_bits(ZERO).le(av) && R::from_bits(ONE).add(params.clip).lt(ratio)) || (
    av.lt(R::from_bits(ZERO)) && ratio.lt(R::from_bits(ONE).sub(params.clip)));
    let ghost g_mean0 = g_mean@;
    let ghost g_logstd0 = g_logstd@;
    let ghost col_mean = b.mean_gradient(m as int);
    let ghost col_logstd = b.log_std_gradient(m as int);
    proof {
        lemma_no_rows(g_mean0, n as int, m as int);
        lemma_no_rows(g_logstd0, n as int, m as int);
        assert(col_mean.take(0) =~= Seq::empty());
        assert(col_logstd.take(0) =~= Seq::empty());
    }
    k = 0;
    while k < a
        invariant
            k <= a,
            a == params.action_dim,
            n == params.num_cols,
            m < n,
            b.params == *params,
            b.mean == mean@,
            b.action == action@,
            b.log_std == log_std@,
            b.adv == adv@,
            b.fits(g_mean0.len() as int),
            params.action_dim * params.num_cols <= g_logstd0.len(),
            ratio == b.ratio(m as int),
            av == b.adv[m as int],
            clipped == b.clipped(m as int),
            col_mean == b.mean_gradient(m as int),
            col_logstd == b.log_std_gradient(m as int),
            g_mean@ == with_column(g_mean0, n as int, m as int, col_mean.take(k as int)),
            g_logstd@ == with_column(g_logstd0, n as int, m as int, col_logstd.take(k as int)),
        decreases a - k,
    {
        proof {
            lemma_cell_in(k as int, a as int, n as int, m as int, mean@.len() as int);
            lemma_cell_in(k as int, a as int, n as int, m as int, action@.len() as int);
            lemma_cell_in(k as int, a as int, n as int, m as int, g_mean0.len() as int);
            lemma_cell_in(k as int, a as int, n as int, m as int, g_logstd0.len() as int);
        }
        let ls = load(log_std, k);
        let inv_var = R::from_bits(MINUS_TWO).mul(ls).exp();
        let (gm, gl) = if clipped {
            (R::from_bits(ZERO), params.entropy_coef.neg().mul(params.scale))
        } else {
            let d = get(action, k, n, m).sub(get(mean, k, n, m));
            let gm = av.mul(ratio).mul(d).mul(inv_var).neg().mul(params.scale);
            let dls = av.mul(ratio).mul(d.mul(d).mul(inv_var).sub(R::from_bits(ONE)));
            (gm, dls.neg().sub(params.entropy_coef).mul(params.scale))
        };
        put_row(g_mean, k, n, m, gm, Ghost(g_mean0), Ghost(col_mean.take(k as int)));
        put_row(g_logstd, k, n, m, gl, Ghost(g_logstd0), Ghost(col_logstd.take(k as int)));
        proof {
            assert(gm == col_mean[k as int]);
            assert(gl == col_logstd[k as int]);
            assert(col_mean.take(k as int).push(gm) =~= col_mean.take(k + 1));
            assert(col_logstd.take(k as int).push(gl) =~= col_logstd.take(k + 1));
        }
        k = k + 1;
    }
    proof {
        assert(col_mean.take(a as int) =~= col_mean);
        assert(col_logstd.take(a as int) =~= col_logstd);
    }
}

/// Clipped-surrogate actor gradient and `log_std` gradient contribution, per sample.
///
/// Where the surrogate is not clipped, `g_mean = -(adv·ratio·d/σ²)·scale` and
/// `g_logstd = (-adv·ratio·(d²/σ² - 1) - entropy_coef)·scale`; where it is, `g_mean`
/// is zero and only the entropy bonus is left in `g_logstd`.
pub fn gpu_ppo_actor_grad<R: Scalar>(
    invocation_id: InvocationId,
    params: &PpoActorParams<R>,
    mean: &[R],
    action: &[R],
    log_std: &[R],
    adv: &[R],
    logp_old: &[R],
    g_mean: &mut [R],
    g_logstd: &mut [R],
)
    requires
        invocation_id.x < params.num_cols ==> {
            &&& ActorBatch::of(params, mean, action, log_std, adv, logp_old).fits(
                old(g_mean)@.len() as int,
            )
            &&& params.action_dim * params.num_cols <= old(g_logstd)@.len()
        },
    ensures
        ({
            let b = ActorBatch::of(params, mean, action, log_std, adv, logp_old);
            let (n, x) = (params.num_cols as int, invocation_id.x as int);
            &&& final(g_mean)@ == after_thread(
                old(g_mean)@,
                n,
                x,
                |m: int| b.mean_gradient(m),
            )
            &&& final(g_logstd)@ == after_thread(
                old(g_logstd)@,
                n,
                x,
                |m: int| b.log_std_gradient(m),
            )
        }),
{
    let ghost b = ActorBatch::of(params, mean, action, log_std, adv, logp_old);
    let ghost n = params.num_cols as int;
    let ghost x = invocation_id.x as int;
    let ghost col_mean = |m: int| b.mean_gradient(m);
    let ghost col_logstd = |m: int| b.log_std_gradient(m);
    let ghost g_mean0 = g_mean@;
    let ghost g_logstd0 = g_logstd@;
    proof {
        lemma_thread_start(g_mean0, n, x, col_mean);
        lemma_thread_start(g_logstd0, n, x, col_logstd);
    }
    let mut m: u64 = invocation_id.x as u64;
    while m < params.num_cols as u64
        invariant
            x == invocation_id.x,
            n == params.num_cols,
            x <= m < 0x2_0000_0000,
            (m - x) % (MAX_NUM_THREADS as int) == 0,
            b == ActorBatch::of(params, mean, action, log_std, adv, logp_old),
            col_mean == (|m: int| b.mean_gradient(m)),
            col_logstd == (|m: int| b.log_std_gradient(m)),
            x < n ==> b.fits(g_mean0.len() as int) && params.action_dim * params.num_cols
                <= g_logstd0.len(),
            g_mean@ == within_thread(g_mean0, n, x, m as int, col_mean),
            g_logstd@ == within_thread(g_logstd0, n, x, m as int, col_logstd),
        decreases params.num_cols + MAX_NUM_THREADS - m,
    {
        proof {
            lemma_stride(x, n, m as int);
            lemma_thread_step(g_mean0, n, x, m as int, col_mean);
            lemma_thread_step(g_logstd0, n, x, m as int, col_logstd);
        }
        actor_grad_sample(
            params,
            m as usize,
            mean,
            action,
            log_std,
            adv,
            logp_old,
            g_mean,
            g_logstd,
        );
        m = m + MAX_NUM_THREADS as u64;
    }
    proof {
        lemma_thread_end(g_mean0, n, x, m as int, col_mean);
        lemma_thread_end(g_logstd0, n, x, m as int, col_logstd);
    }
}

/// The gradient of the clipped value loss at a prediction `v`, with old prediction
/// `old_v` and return `ret`: that of whichever of the clipped and the unclipped squared
/// error is larger, where the clipped prediction stays within `clip` of the old one.
pub open spec fn value_gradient<R: Scalar>(p: PpoValueParams<R>, v: R, old_v: R, ret: R) -> R {
    let diff = v.minus(old_v);
    let clamped = if p.clip.below(diff) {
        p.clip
    } else if diff.below(p.clip.opposite()) {
        p.clip.opposite()
    } else {
        diff
    };
    let err = v.minus(ret);
    let err_clipped = old_v.plus(clamped).minus(ret);
    let err_used = if square(err).below(square(err_clipped)) {
        err_clipped
    } else {
        err
    };
    p.value_coef.times(two::<R>().times(err_used)).times(p.scale)
}

/// Clipped value-loss gradient, per sample.
pub fn gpu_ppo_value_grad<R: Scalar>(
    invocation_id: InvocationId,
    params: &PpoValueParams<R>,
    v_pred: &[R],
    value_old: &[R],
    ret: &[R],
    g_v: &mut [R],
)
    requires
        invocation_id.x < params.num_cols ==> {
            &&& params.num_cols <= v_pred@.len()
            &&& params.num_cols <= value_old@.len()
            &&& params.num_cols <= ret@.len()
            &&& params.num_cols <= old(g_v)@.len()
        },
    ensures
        final(g_v)@ == with_entries(
            old(g_v)@,
            |m: int| owns(invocation_id.x as int, params.num_cols as int, m),
            |m: int| value_gradient(*params, v_pred@[m], value_old@[m], ret@[m]),
        ),
{
    let ghost n = params.num_cols as int;
    let ghost x = invocation_id.x as int;
    let ghost value = |m: int| value_gradient(*params, v_pred@[m], value_old@[m], ret@[m]);
    let ghost g_v0 = g_v@;
    let clip = params.clip;
    let mut i: u64 = invocation_id.x as u64;
    proof {
        assert(g_v@ =~= with_entries(g_v0, |m: int| owns(x, n, m) && m < i, value));
    }
    while i < params.num_cols as u64
        invariant
            x == invocation_id.x,
            n == params.num_cols,
            clip == params.clip,
            x <= i < 0x2_0000_0000,
            (i - x) % (MAX_NUM_THREADS as int) == 0,
            value == (|m: int| value_gradient(*params, v_pred@[m], value_old@[m], ret@[m])),
            x < n ==> {
                &&& params.num_cols <= v_pred@.len()
                &&& params.num_cols <= value_old@.len()
                &&& params.num_cols <= ret@.len()
                &&& params.num_cols <= g_v@.len()
            },
            g_v@ == with_entries(g_v0, |m: int| owns(x, n, m) && m < i, value),
        decreases params.num_cols + MAX_NUM_THREADS - i,
    {
        let m: usize = i as usize;
        let v = load(v_pred, m);
        let vo = load(value_old, m);
        let r = load(ret, m);
        let diff = v.sub(vo);
        let clamped = if clip.lt(diff) {
            clip
        } else if diff.lt(clip.neg()) {
            clip.neg()
        } else {
            diff
        };
        let v_clipped = vo.add(clamped);
        let l_un = v.sub(r).mul(v.sub(r));
        let l_cl = v_clipped.sub(r).mul(v_clipped.sub(r));
        let dv = if l_un.lt(l_cl) {
            R::from_bits(TWO).mul(v_clipped.sub(r))
        } else {
            R::from_bits(TWO).mul(v.sub(r))
        };
        store(g_v, m, params.value_coef.mul(dv).mul(params.scale));
        i = i + MAX_NUM_THREADS as u64;
        proof {
            lemma_stride(x, n, m as int);
            assert(g_v@ =~= with_entries(g_v0, |c: int| owns(x, n, c) && c < i, value));
        }
    }
    proof {
        assert(g_v@ =~= with_entries(g_v0, |m: int| owns(x, n, m), value));
    }
}

/// Scalar parameters of the batch staging.
#[derive(Clone, Copy, Debug, PartialEq, Eq)]
pub struct PpoStageParams {
    /// Observation dimension (rows).
    pub dim: u32,
    /// Environments per rollout step.
    pub n: u32,
    /// Rollout steps `T`; the raw buffer is step-blocked, `[T][dim][n]`.
    pub steps: u32,
    /// Total batch columns of the output (its row stride).
    pub total_cols: u32,
    /// First output column that this launch writes.
    pub col_offset: u32,
    /// `0` = batch mode: the columns cover all `T·n` samples, environment after
    /// environment. Anything else = single-step mode: the columns are the `n`
    /// environments at rollout step `step_select - 1`.
    pub step_select: u32,
    pub pad1: u32,
    pub pad2: u32,
}

impl PpoStageParams {
    /// Number of columns that a launch writes.
    pub open spec fn cols(self) -> int {
        if self.step_select != 0 {
            self.n as int
        } else {
            self.steps * self.n
        }
    }

    /// Whether thread `(x, d)` has a sample feature to stage.
    pub open spec fn in_range(self, x: int, d: int) -> bool {
        0 <= x < self.cols() && 0 <= d < self.dim
    }

    /// The rollout step that column `x` shows.
    pub open spec fn step_of(self, x: int) -> int {
        if self.step_select != 0 {
            self.step_select - 1
        } else {
            x % (self.steps as int)
        }
    }

    /// The environment that column `x` shows.
    pub open spec fn env_of(self, x: int) -> int {
        if self.step_select != 0 {
            x
        } else {
            x / (self.steps as int)
        }
    }

    /// Index of feature `d` of environment `e` at step `t` in the raw buffer.
    pub open spec fn raw_index(self, t: int, d: int, e: int) -> int {
        cell(t * self.dim + d, self.n as int, e)
    }

    /// Index of feature `d` of column `x` in the output.
    pub open spec fn out_index(self, x: int, d: int) -> int {
        cell(d, self.total_cols as int, self.col_offset + x)
    }
}

/// A product of bounded factors is bounded.
proof fn lemma_product_bounded(a: int, b: int, max_a: int, max_b: int)
    requires
        0 <= a <= max_a,
        0 <= b <= max_b,
    ensures
        0 <= a * b <= max_a * max_b,
{
    assert(0 <= a * b <= max_a * max_b) by (nonlinear_arith)
        requires
            0 <= a <= max_a,
            0 <= b <= max_b,
    ;
}

impl PpoStageParams {
    /// Computes [`PpoStageParams::cols`].
    fn num_columns(&self) -> (r: u64)
        ensures
            r == self.cols(),
    {
        proof {
            lemma_product_bounded(self.steps as int, self.n as int, 0xffff_ffff, 0xffff_ffff);
        }
        if self.step_select != 0 {
            self.n as u64
        } else {
            self.steps as u64 * self.n as u64
        }
    }

    /// The rollout step and the environment that column `x` shows.
    fn sample_of(&self, x: u32) -> (r: (u32, u32))
        requires
            x < self.cols(),
        ensures
            r.0 == self.step_of(x as int),
            r.1 == self.env_of(x as int),
            1 <= self.n,
    {
        assert(self.steps == 0 || self.n == 0 ==> self.steps * self.n == 0) by (nonlinear_arith);
        if self.step_select != 0 {
            (self.step_select - 1, x)
        } else {
            (x % self.steps, x / self.steps)
        }
    }
}

/// What a batch is staged from: raw observations, the affine of the normalizer, and
/// the mirror as a signed permutation of the features.
pub struct StageSource<R> {
    pub raw: Seq<R>,
    pub mean: Seq<R>,
    pub inv_std: Seq<R>,
    pub perm: Seq<u32>,
    pub sign: Seq<R>,
}

impl<R: Scalar> StageSource<R> {
    /// The source that a kernel is handed.
    pub open spec fn of(
        raw: &[R],
        mean: &[R],
        inv_std: &[R],
        perm: &[u32],
        sign: &[R],
    ) -> StageSource<R> {
        StageSource { raw: raw@, mean: mean@, inv_std: inv_std@, perm: perm@, sign: sign@ }
    }

    /// Feature `d` of environment `e` at step `t` of the mirrored observation.
    pub open spec fn mirrored(self, p: PpoStageParams, t: int, d: int, e: int) -> R {
        self.raw[p.raw_index(t, self.perm[d] as int, e)].times(self.sign[d])
    }

    /// A feature value after the normalizer, clamped to `[-5, 5]`.
    pub open spec fn normalized(self, d: int, value: R) -> R {
        value.minus(self.mean[d]).times(self.inv_std[d]).greater(R::literal(MINUS_FIVE)).lesser(
            R::literal(FIVE),
        )
    }

    /// The staged feature `d` of column `x`: the mirrored raw feature, normalized.
    pub open spec fn staged(self, p: PpoStageParams, x: int, d: int) -> R {
        self.normalized(d, self.mirrored(p, p.step_of(x), d, p.env_of(x)))
    }

    /// The source has entries for feature `d` of column `x`.
    pub open spec fn has(self, p: PpoStageParams, x: int, d: int) -> bool {
        &&& d < self.mean.len()
        &&& d < self.inv_std.len()
        &&& d < self.perm.len()
        &&& d < self.sign.len()
        &&& p.raw_index(p.step_of(x), self.perm[d] as int, p.env_of(x)) < self.raw.len()
    }
}

/// Whether the source and an output of `out` elements hold what thread `(x, y)` reads and
/// writes, if it has anything to stage.
pub fn stage_fits<R: Scalar>(
    invocation_id: InvocationId,
    params: &PpoStageParams,
    raw: &[R],
    mean: &[R],
    inv_std: &[R],
    perm: &[u32],
    sign: &[R],
    out: usize,
) -> (r: bool)
    ensures
        r == (params.in_range(invocation_id.x as int, invocation_id.y as int) ==> {
            &&& StageSource::of(raw, mean, inv_std, perm, sign).has(
                *params,
                invocation_id.x as int,
                invocation_id.y as int,
            )
            &&& params.out_index(invocation_id.x as int, invocation_id.y as int) < out
        }),
{
    let x: u32 = invocation_id.x;
    let d: u32 = invocation_id.y;
    if x as u64 >= params.num_columns() || d >= params.dim {
        return true;
    }
    let i: usize = d as usize;
    if i >= mean.len() || i >= inv_std.len() || i >= perm.len() || i >= sign.len() {
        return false;
    }
    let (t, e): (u32, u32) = params.sample_of(x);
    let src_d: u32 = load(perm, i);
    proof {
        lemma_product_bounded(t as int, params.dim as int, 0xffff_ffff, 0xffff_ffff);
    }
    let row: u128 = t as u128 * params.dim as u128 + src_d as u128;
    proof {
        lemma_product_bounded(row as int, params.n as int, 0xffff_ffff_ffff_ffff, 0xffff_ffff);
        lemma_product_bounded(d as int, params.total_cols as int, 0xffff_ffff, 0xffff_ffff);
    }
    let src: u128 = row * params.n as u128 + e as u128;
    let dst: u128 = d as u128 * params.total_cols as u128 + (params.col_offset as u128
        + x as u128);
    src < raw.len() as u128 && dst < out as u128
}

/// Stages one feature of one batch column from step-blocked raw observations: applies
/// the mirror, the affine of the normalizer and the clamp.
///
/// The mirror is defined on raw observations and the clamp loses information, so
/// normalization comes last. A launch has one thread per column along the first axis
/// and one per feature along the second; threads beyond either write nothing.
pub fn gpu_ppo_stage_batch<R: Scalar>(
    invocation_id: InvocationId,
    params: &PpoStageParams,
    raw: &[R],
    mean: &[R],
    inv_std: &[R],
    perm: &[u32],
    sign: &[R],
    out: &mut [R],
)
    requires
        params.in_range(invocation_id.x as int, invocation_id.y as int) ==> {
            &&& StageSource::of(raw, mean, inv_std, perm, sign).has(
                *params,
                invocation_id.x as int,
                invocation_id.y as int,
            )
            &&& params.out_index(invocation_id.x as int, invocation_id.y as int) < old(out)@.len()
        },
    ensures
        final(out)@ == (if params.in_range(invocation_id.x as int, invocation_id.y as int) {
            old(out)@.update(
                params.out_index(invocation_id.x as int, invocation_id.y as int),
                StageSource::of(raw, mean, inv_std, perm, sign).staged(
                    *params,
                    invocation_id.x as int,
                    invocation_id.y as int,
                ),
            )
        } else {
            old(out)@
        }),
{
    let x: u32 = invocation_id.x;
    let y: u32 = invocation_id.y;
    if x as u64 >= params.num_columns() || y >= params.dim {
        return ;
    }
    let (t, e): (u32, u32) = params.sample_of(x);
    let d: usize = y as usize;
    let src_d: u32 = load(perm, d);
    let ghost row = t * params.dim + src_d;
    let ghost n = params.n as int;
    proof {
        assert(raw@.len() == raw.len());
        assert(out@.len() == out.len());
        assert(0 <= t * params.dim <= row && row <= row * n) by (nonlinear_arith)
            requires
                row == t * params.dim + src_d,
                0 <= t,
                0 <= params.dim,
                0 <= src_d,
                1 <= n,
        ;
        assert(0 <= d * params.total_cols) by (nonlinear_arith)
            requires
                0 <= d,
                0 <= params.total_cols,
        ;
    }
    let i: usize = (t as usize * params.dim as usize + src_d as usize) * params.n as usize
        + e as usize;
    let v = load(raw, i).mul(load(sign, d));
    let v = v.sub(load(mean, d)).mul(load(inv_std, d)).max(R::from_bits(MINUS_FIVE)).min(
        R::from_bits(FIVE),
    );
    store(
        out,
        d * params.total_cols as usize + (params.col_offset as usize + x as usize),
        v,
    );
}

/// A clipped sample pushes the mean nowhere, and leaves only the entropy bonus in the
/// gradient of `log_std`.
pub proof fn law_clipped_sample_is_flat<R: Scalar>(b: ActorBatch<R>, m: int, k: int)
    requires
        b.clipped(m),
        0 <= k < b.params.action_dim,
    ensures
        b.mean_gradient(m)[k] == zero::<R>(),
        b.log_std_gradient(m)[k] == b.params.entropy_coef.opposite().times(b.params.scale),
{
}

/// The gradients of a sample depend on its own column and the deviations alone.
pub proof fn law_sample_gradient_is_local<R: Scalar>(b: ActorBatch<R>, c: ActorBatch<R>, m: int)
    requires
        b.params == c.params,
        b.log_std == c.log_std,
        b.adv[m] == c.adv[m],
        b.logp_old[m] == c.logp_old[m],
        forall|k: int| 0 <= k < b.params.action_dim ==> #[trigger] b.offset(k, m) == c.offset(k, m),
    ensures
        b.mean_gradient(m) == c.mean_gradient(m),
        b.log_std_gradient(m) == c.log_std_gradient(m),
{
    lemma_log_prob_local(b, c, m, b.params.action_dim as int);
    assert(b.mean_gradient(m) =~= c.mean_gradient(m));
    assert(b.log_std_gradient(m) =~= c.log_std_gradient(m));
}

/// The log-probability of a sample depends on its own column and the deviations alone.
proof fn lemma_log_prob_local<R: Scalar>(b: ActorBatch<R>, c: ActorBatch<R>, m: int, dims: int)
    requires
        b.params == c.params,
        b.log_std == c.log_std,
        dims <= b.params.action_dim,
        forall|k: int| 0 <= k < b.params.action_dim ==> #[trigger] b.offset(k, m) == c.offset(k, m),
    ensures
        b.log_prob(m, dims) == c.log_prob(m, dims),
    decreases dims,
{
    if 0 < dims {
        lemma_log_prob_local(b, c, m, dims - 1);
        assert(b.offset(dims - 1, m) == c.offset(dims - 1, m));
    }
}

/// Batch columns are ordered environment after environment: step `t` of environment `e`
/// is column `e·T + t`.
pub proof fn law_batch_column_of_sample(p: PpoStageParams, t: int, e: int)
    requires
        p.step_select == 0,
        0 <= t < p.steps,
        0 <= e < p.n,
    ensures
        0 <= e * p.steps + t < p.cols(),
        p.step_of(e * p.steps + t) == t,
        p.env_of(e * p.steps + t) == e,
{
    lemma_cell(e, p.steps as int, t);
    lemma_cell_in(e, p.n as int, p.steps as int, t, p.steps * p.n);
}

/// Every batch column shows one step of one environment.
pub proof fn law_sample_of_batch_column(p: PpoStageParams, x: int)
    requires
        p.step_select == 0,
        0 <= x < p.cols(),
    ensures
        0 <= p.step_of(x) < p.steps,
        0 <= p.env_of(x) < p.n,
        x == p.env_of(x) * p.steps + p.step_of(x),
{
    let (t, n) = (p.steps as int, p.n as int);
    assert(0 < t) by (nonlinear_arith)
        requires
            0 <= t,
            0 < t * n,
    ;
    lemma_cell_of_index(x, t);
    if n <= x / t {
        assert(t * n <= (x / t) * t) by (nonlinear_arith)
            requires
                0 <= t,
                n <= x / t,
        ;
    }
}

/// Single-step mode stages what batch mode shows of that step.
pub proof fn law_single_step_matches_batch<R: Scalar>(
    src: StageSource<R>,
    batch: PpoStageParams,
    single: PpoStageParams,
    e: int,
    d: int,
)
    requires
        batch.step_select == 0,
        0 < single.step_select <= batch.steps,
        single.dim == batch.dim,
        single.n == batch.n,
        0 <= e < batch.n,
    ensures
        src.staged(single, e, d) == src.staged(
            batch,
            e * batch.steps + (single.step_select - 1),
            d,
        ),
{
    law_batch_column_of_sample(batch, single.step_select - 1, e);
}

/// Two threads of a launch whose columns lie within the output's rows never write to the
/// same element.
pub proof fn law_stage_threads_disjoint(p: PpoStageParams, x: int, d: int, y: int, c: int)
    requires
        p.col_offset + p.cols() <= p.total_cols,
        p.in_range(x, d),
        p.in_range(y, c),
    ensures
        p.out_index(x, d) == p.out_index(y, c) ==> x == y && d == c,
{
    lemma_cell(d, p.total_cols as int, p.col_offset + x);
    lemma_cell(c, p.total_cols as int, p.col_offset + y);
}

/// Two launches with column ranges that do not meet, such as the plain and the
/// mirrored half, never write to the same element.
pub proof fn law_stage_halves_disjoint(
    p: PpoStageParams,
    q: PpoStageParams,
    x: int,
    d: int,
    y: int,
    c: int,
)
    requires
        p.total_cols == q.total_cols,
        p.col_offset + p.cols() <= q.col_offset,
        q.col_offset + q.cols() <= q.total_cols,
        p.in_range(x, d),
        q.in_range(y, c),
    ensures
        p.out_index(x, d) != q.out_index(y, c),
{
    lemma_cell(d, p.total_cols as int, p.col_offset + x);
    lemma_cell(c, p.total_cols as int, q.col_offset + y);
}

/// The output after the threads `order`, each given by its positions along the first and
/// the second axis, have run one after the other.
pub open spec fn after_stage_order<R: Scalar>(
    out: Seq<R>,
    src: StageSource<R>,
    p: PpoStageParams,
    order: Seq<(int, int)>,
) -> Seq<R>
    decreases order.len(),
{
    if order.len() == 0 {
        out
    } else {
        let (x, d) = (order.last().0, order.last().1);
        let before = after_stage_order(out, src, p, order.drop_last());
        if p.in_range(x, d) {
            before.update(p.out_index(x, d), src.staged(p, x, d))
        } else {
            before
        }
    }
}

/// What the threads `order` leave in the output: the elements of those with a feature to
/// stage are staged, and elements of no such thread are as they were.
proof fn lemma_stage_order<R: Scalar>(
    out: Seq<R>,
    src: StageSource<R>,
    p: PpoStageParams,
    order: Seq<(int, int)>,
)
    requires
        p.col_offset + p.cols() <= p.total_cols,
        p.dim * p.total_cols <= out.len(),
    ensures
        after_stage_order(out, src, p, order).len() == out.len(),
        forall|x: int, d: int|
            #![trigger p.out_index(x, d)]
            p.in_range(x, d) && order.contains((x, d)) ==> after_stage_order(
                out,
                src,
                p,
                order,
            )[p.out_index(x, d)] == src.staged(p, x, d),
        forall|i: int|
            0 <= i < out.len() && (forall|x: int, d: int|
                p.in_range(x, d) ==> #[trigger] p.out_index(x, d) != i)
                ==> #[trigger] after_stage_order(out, src, p, order)[i] == out[i],
    decreases order.len(),
{
    if 0 < order.len() {
        let before = order.drop_last();
        let (a, b) = (order.last().0, order.last().1);
        let held = after_stage_order(out, src, p, before);
        let res = after_stage_order(out, src, p, order);
        let (rows, total) = (p.dim as int, p.total_cols as int);
        lemma_stage_order(out, src, p, before);
        assert(res == if p.in_range(a, b) {
            held.update(p.out_index(a, b), src.staged(p, a, b))
        } else {
            held
        });
        if p.in_range(a, b) {
            lemma_cell_in(b, rows, total, p.col_offset + a, out.len() as int);
        }
        assert forall|x: int, d: int|
            #![trigger p.out_index(x, d)]
            p.in_range(x, d) && order.contains((x, d)) implies res[p.out_index(x, d)]
            == src.staged(p, x, d) by {
            lemma_cell_in(d, rows, total, p.col_offset + x, out.len() as int);
            if p.in_range(a, b) {
                law_stage_threads_disjoint(p, x, d, a, b);
            }
            if (x, d) != (a, b) {
                let i = choose|i: int| 0 <= i < order.len() && order[i] == (x, d);
                assert(before[i] == (x, d));
                assert(before.contains((x, d)));
            }
        }
        assert forall|i: int|
            0 <= i < out.len() && (forall|x: int, d: int|
                p.in_range(x, d) ==> #[trigger] p.out_index(x, d) != i) implies #[trigger] res[i]
            == out[i] by {
            if p.in_range(a, b) {
                assert(p.out_index(a, b) != i);
            }
            assert(held[i] == out[i]);
        }
    }
}

/// A launch with a thread for every column and feature builds its part of the batch, in
/// whatever order the threads run: element `(d, col_offset + x)` of the output is the staged
/// feature `d` of column `x`, and all other elements are as they were.
pub proof fn law_launch_builds_batch<R: Scalar>(
    out: Seq<R>,
    src: StageSource<R>,
    p: PpoStageParams,
    order: Seq<(int, int)>,
    d: int,
    c: int,
)
    requires
        p.col_offset + p.cols() <= p.total_cols,
        p.dim * p.total_cols <= out.len(),
        forall|x: int, f: int| p.in_range(x, f) ==> #[trigger] order.contains((x, f)),
        0 <= d,
        0 <= c < p.total_cols,
        d * p.total_cols + c < out.len(),
    ensures
        after_stage_order(out, src, p, order).len() == out.len(),
        after_stage_order(out, src, p, order)[d * p.total_cols + c] == (if d < p.dim
            && p.col_offset <= c < p.col_offset + p.cols() {
            src.staged(p, c - p.col_offset, d)
        } else {
            out[d * p.total_cols + c]
        }),
{
    let (cols, total) = (p.cols(), p.total_cols as int);
    let i = cell(d, total, c);
    lemma_stage_order(out, src, p, order);
    lemma_cell(d, total, c);
    if d < p.dim && p.col_offset <= c < p.col_offset + cols {
        let x = c - p.col_offset;
        assert(p.in_range(x, d) && p.out_index(x, d) == i);
        assert(order.contains((x, d)));
    } else {
        assert forall|x: int, f: int| p.in_range(x, f) implies #[trigger] p.out_index(x, f)
            != i by {
            lemma_cell(f, total, p.col_offset + x);
        }
        assert(after_stage_order(out, src, p, order)[i] == out[i]);
    }
}

/// The sampler and the actor gradient agree on log-probabilities: where the standardized
/// offset of every action dimension is the noise that it was sampled with, the
/// log-probability of the sample is the one that the sampler accumulated.
pub proof fn law_log_prob_matches_sampler<R: Scalar>(
    b: ActorBatch<R>,
    m: int,
    p: SampleParams,
    log_std: Seq<R>,
    env: int,
    dims: int,
)
    requires
        b.params.log_sqrt_2pi == R::literal(HALF_LN_2PI),
        forall|k: int| 0 <= k < dims ==> #[trigger] b.log_std[k] == log_std[k],
        forall|k: int|
            0 <= k < dims ==> (#[trigger] b.offset(k, m)).over(log_std[k].exponential()) == noise::<
                R,
            >(p, env as u32, k as u32),
    ensures
        b.log_prob(m, dims) == log_prob(p, log_std, env, dims),
    decreases dims,
{
    if 0 < dims {
        law_log_prob_matches_sampler(b, m, p, log_std, env, dims - 1);
        assert(b.log_std[dims - 1] == log_std[dims - 1]);
        assert(b.offset(dims - 1, m).over(log_std[dims - 1].exponential()) == noise::<R>(
            p,
            env as u32,
            (dims - 1) as u32,
        ));
    }
}

/// A staged feature lies in `[-5, 5]`, wherever the larger of a number and `-5` is at least
/// `-5`, the smaller of a number and `5` is at most `5`, and taking the smaller of a number
/// and `5` does not lead below `-5`.
pub proof fn law_staged_feature_is_clamped<R: Scalar>(
    src: StageSource<R>,
    p: PpoStageParams,
    x: int,
    d: int,
)
    requires
        forall|a: R|
            R::literal(MINUS_FIVE).at_most(#[trigger] a.greater(R::literal(MINUS_FIVE))),
        forall|a: R| (#[trigger] a.lesser(R::literal(FIVE))).at_most(R::literal(FIVE)),
        forall|a: R|
            R::literal(MINUS_FIVE).at_most(a) ==> R::literal(MINUS_FIVE).at_most(
                #[trigger] a.lesser(R::literal(FIVE)),
            ),
    ensures
        R::literal(MINUS_FIVE).at_most(src.staged(p, x, d)),
        src.staged(p, x, d).at_most(R::literal(FIVE)),
{
}

/// The value gradients after the threads `order`, one after the other, have written theirs.
pub open spec fn values_in_order<R: Scalar>(
    g_v: Seq<R>,
    n: int,
    order: Seq<int>,
    value: spec_fn(int) -> R,
) -> Seq<R>
    decreases order.len(),
{
    if order.len() == 0 {
        g_v
    } else {
        with_entries(
            values_in_order(g_v, n, order.drop_last(), value),
            |m: int| owns(order.last(), n, m),
            value,
        )
    }
}

/// What the threads `order` have written.
proof fn lemma_values_in_order<R: Scalar>(
    g_v: Seq<R>,
    n: int,
    order: Seq<int>,
    value: spec_fn(int) -> R,
)
    ensures
        values_in_order(g_v, n, order, value) == with_entries(
            g_v,
            |m: int| touched(order, n, m),
            value,
        ),
    decreases order.len(),
{
    let both = |m: int| touched(order, n, m);
    if 0 < order.len() {
        lemma_values_in_order(g_v, n, order.drop_last(), value);
        assert forall|m: int| #[trigger] both(m) == (touched(order.drop_last(), n, m) || owns(
            order.last(),
            n,
            m,
        )) by {
            lemma_touched_step(order, n, m);
        }
    }
    assert(values_in_order(g_v, n, order, value) =~= with_entries(g_v, both, value));
}

/// The threads of a value-gradient launch for all samples may run in any order, and any of
/// them more than once: once every one of them has run, every sample has its gradient.
pub proof fn law_value_launch_in_any_order<R: Scalar>(
    g_v: Seq<R>,
    n: int,
    num_threads: int,
    order: Seq<int>,
    value: spec_fn(int) -> R,
)
    requires
        n <= num_threads,
        forall|x: int| 0 <= x < started(num_threads) ==> #[trigger] order.contains(x),
    ensures
        values_in_order(g_v, n, order, value) == with_entries(
            g_v,
            |m: int| 0 <= m < n,
            value,
        ),
{
    let mine = |m: int| touched(order, n, m);
    lemma_values_in_order(g_v, n, order, value);
    assert forall|m: int| 0 <= m < n implies #[trigger] mine(m) by {
        lemma_all_touched(order, n, num_threads, m);
    }
    assert(with_entries(g_v, mine, value) =~= with_entries(g_v, |m: int| 0 <= m < n, value));
}

/// Two threads of a staging launch whose columns lie within the output's rows may run in
/// either order.
pub proof fn law_stage_threads_commute<R: Scalar>(
    out: Seq<R>,
    src: StageSource<R>,
    p: PpoStageParams,
    x: int,
    d: int,
    y: int,
    c: int,
)
    requires
        p.col_offset + p.cols() <= p.total_cols,
        p.dim * p.total_cols <= out.len(),
        p.in_range(x, d),
        p.in_range(y, c),
    ensures
        out.update(p.out_index(x, d), src.staged(p, x, d)).update(
            p.out_index(y, c),
            src.staged(p, y, c),
        ) == out.update(p.out_index(y, c), src.staged(p, y, c)).update(
            p.out_index(x, d),
            src.staged(p, x, d),
        ),
{
    law_stage_threads_disjoint(p, x, d, y, c);
    let (i, k) = (p.out_index(x, d), p.out_index(y, c));
    let (v, w) = (src.staged(p, x, d), src.staged(p, y, c));
    let (rows, cols) = (p.dim as int, p.total_cols as int);
    lemma_cell_in(d, rows, cols, p.col_offset + x, out.len() as int);
    lemma_cell_in(c, rows, cols, p.col_offset + y, out.len() as int);
    assert forall|m: int| 0 <= m < out.len() implies out.update(i, v).update(k, w)[m]
        == out.update(k, w).update(i, v)[m] by {
        if m == i && m == k {
            assert(x == y && d == c);
        }
    }
    assert(out.update(i, v).update(k, w) =~= out.update(k, w).update(i, v));
}

/// A batch and a staging source hold the buffers that they are made of, each in its own place.
pub proof fn law_batches_hold_their_buffers<R: Scalar>(
    params: &PpoActorParams<R>,
    a: &[R],
    b: &[R],
    c: &[R],
    d: &[R],
    e: &[R],
    perm: &[u32],
)
    ensures
        ({
            let batch = ActorBatch::of(params, a, b, c, d, e);
            let source = StageSource::of(a, b, c, perm, d);
            &&& batch.params == *params
            &&& batch.mean == a@
            &&& batch.action == b@
            &&& batch.log_std == c@
            &&& batch.adv == d@
            &&& batch.logp_old == e@
            &&& source.raw == a@
            &&& source.mean == b@
            &&& source.inv_std == c@
            &&& source.perm == perm@
            &&& source.sign == d@
        }),
{
}

/// A batch fits if and only if every number that its gradients read or write has a place:
/// a mean, an action and a gradient for each dimension of each sample, a deviation for each
/// dimension, and an advantage and an old log-probability for each sample.
pub proof fn law_batch_fits<R: Scalar>(b: ActorBatch<R>, out: int)
    ensures
        ({
            let (a, n) = (b.params.action_dim, b.params.num_cols);
            b.fits(out) == (b.mean.len() >= a * n && b.action.len() >= a * n && out >= a * n
                && b.log_std.len() >= a && b.adv.len() >= n && b.logp_old.len() >= n)
        }),
{
}

/// A source has a feature if and only if the raw number that the feature is made of, and the
/// feature's own mean, scale, sign and permutation, lie in their buffers.
pub proof fn law_source_has_feature<R: Scalar>(
    src: StageSource<R>,
    p: PpoStageParams,
    x: int,
    d: int,
)
    ensures
        ({
            let (t, e) = if p.step_select == 0 {
                (x % (p.steps as int), x / (p.steps as int))
            } else {
                (p.step_select - 1, x)
            };
            src.has(p, x, d) == (d < src.mean.len() && d < src.inv_std.len() && d < src.perm.len()
                && d < src.sign.len() && (t * p.dim + src.perm[d]) * p.n + e < src.raw.len())
        }),
{
}

} // verus!
