//! Gaussian action sampler: `a = mean + exp(log_std)·z`.
//!
//! The noise `z` comes from the counter-based words of [`crate::rng`], keyed by
//! `(seed, env, dim, step)`. The kernel and the host reference compute the same
//! operations on the same words, so within one arithmetic their results are the same.
//! Between a host and a device that holds bit for bit in modes `1` and `2`, up to the
//! exponential of `log_std`; the transcendental functions of the Gaussian mode may differ
//! in the last place.
//!
//! `pin_mode` selects the noise:
//! - `1`: no noise, `z = 0`.
//! - `2`: uniform noise, `z = u - 0.5`.
//! - anything else: Gaussian noise by the Box-Muller transform.

use crate::buffer::{
    cell, law_replaced_rows, lemma_cell, lemma_cell_of_index, lemma_rows_twice, load, matrix_fits,
    store, with_entries, with_rows,
};
use crate::launch::{
    lemma_all_touched, lemma_launch_reaches, lemma_owner, lemma_stride, lemma_touched_step, owns,
    reached, started, threads_started, touched, InvocationId, MAX_NUM_THREADS,
};
use crate::rng::{counter_u32, counter_word, law_upper_bits};
use crate::scalar::{
    numeric, zero, zero_absorbs, Scalar, HALF, HALF_LN_2PI, MINUS_HALF, MINUS_TWO, TINY, TWO_PI,
    TWO_POW_MINUS_24, ZERO,
};
use vstd::prelude::*;

verus! {

/// Scalar parameters of one sampler launch.
#[derive(Clone, Copy, Debug, PartialEq, Eq)]
pub struct SampleParams {
    /// Number of environments.
    pub num_envs: u32,
    /// Number of action dimensions.
    pub action_dim: u32,
    /// Random seed, fixed per run.
    pub seed: u32,
    /// Rollout step index, part of the counter.
    pub step: u32,
    /// `1` = mean, `2` = uniform, anything else = Gaussian.
    pub pin_mode: u32,
    pub pad0: u32,
    pub pad1: u32,
    pub pad2: u32,
}

/// The number in `[0, 1)` that the upper 24 bits of a word stand for.
pub open spec fn unit<R: Scalar>(h: u32) -> R {
    R::counted(h >> 8).times(R::literal(TWO_POW_MINUS_24))
}

/// A number kept away from zero: itself, or `1e-7` where it is less.
pub open spec fn kept_away<R: Scalar>(u: R) -> R {
    if u.below(R::literal(TINY)) {
        R::literal(TINY)
    } else {
        u
    }
}

/// The Box-Muller transform of two numbers, the first kept away from zero.
pub open spec fn box_muller<R: Scalar>(u0: R, u1: R) -> R {
    R::literal(MINUS_TWO).times(kept_away(u0).logarithm()).root().times(
        R::literal(TWO_PI).times(u1).cosine(),
    )
}

/// The standardized noise of action dimension `dim` of environment `env`.
pub open spec fn noise<R: Scalar>(p: SampleParams, env: u32, dim: u32) -> R {
    let word = |draw: u32| counter_word(p.seed, env, dim, p.step, draw);
    if p.pin_mode == 1 {
        R::literal(ZERO)
    } else if p.pin_mode == 2 {
        unit::<R>(word(0)).minus(R::literal(HALF))
    } else {
        box_muller(unit(word(0)), unit(word(1)))
    }
}

/// The action vector of environment `env`.
pub open spec fn action<R: Scalar>(
    p: SampleParams,
    means: Seq<R>,
    log_std: Seq<R>,
    env: int,
) -> Seq<R> {
    Seq::new(
        p.action_dim as nat,
        |d: int|
            means[cell(env, p.action_dim as int, d)].plus(
                log_std[d].exponential().times(noise(p, env as u32, d as u32)),
            ),
    )
}

/// The log-probability of the first `dims` action dimensions of environment `env`,
/// summed in order: `-z²/2 - log_std - ln(2π)/2` for each.
pub open spec fn log_prob<R: Scalar>(
    p: SampleParams,
    log_std: Seq<R>,
    env: int,
    dims: int,
) -> R
    decreases dims,
{
    if dims <= 0 {
        R::literal(ZERO)
    } else {
        let z = noise::<R>(p, env as u32, (dims - 1) as u32);
        log_prob(p, log_std, env, dims - 1).plus(
            R::literal(MINUS_HALF).times(z).times(z).minus(log_std[dims - 1]).minus(
                R::literal(HALF_LN_2PI),
            ),
        )
    }
}

/// The actions after the selected environments have been sampled.
pub open spec fn actions_after<R: Scalar>(
    p: SampleParams,
    means: Seq<R>,
    log_std: Seq<R>,
    actions: Seq<R>,
    mine: spec_fn(int) -> bool,
) -> Seq<R> {
    with_rows(actions, p.action_dim as int, mine, |env: int| action(p, means, log_std, env))
}

/// The log-probabilities after the selected environments have been sampled.
pub open spec fn logp_after<R: Scalar>(
    p: SampleParams,
    log_std: Seq<R>,
    logp: Seq<R>,
    mine: spec_fn(int) -> bool,
) -> Seq<R> {
    with_entries(logp, mine, |env: int| log_prob(p, log_std, env, p.action_dim as int))
}

/// The buffers hold `[num_envs * action_dim]` means and actions, `[action_dim]`
/// deviations and `[num_envs]` log-probabilities.
pub open spec fn sample_shapes(
    p: SampleParams,
    means: int,
    log_std: int,
    actions: int,
    logp: int,
) -> bool {
    &&& p.num_envs * p.action_dim <= means
    &&& p.action_dim <= log_std
    &&& p.num_envs * p.action_dim <= actions
    &&& p.num_envs <= logp
}

/// Whether buffers of the given lengths have the shapes that the sampler needs.
pub fn sample_shapes_fit(
    p: &SampleParams,
    means: usize,
    log_std: usize,
    actions: usize,
    logp: usize,
) -> (r: bool)
    ensures
        r == sample_shapes(*p, means as int, log_std as int, actions as int, logp as int),
{
    matrix_fits(p.num_envs as u64, p.action_dim, means) && p.action_dim as u64 <= log_std as u64
        && matrix_fits(p.num_envs as u64, p.action_dim, actions) && p.num_envs as u64
        <= logp as u64
}

/// Maps a word to `[0, 1)` by its upper 24 bits.
pub fn u01<R: Scalar>(h: u32) -> (r: R)
    ensures
        r == unit::<R>(h),
{
    R::from_u32(h >> 8).mul(R::from_bits(TWO_POW_MINUS_24))
}

/// Draws the standardized noise of one `(env, dim)` element under the selected
/// `pin_mode`.
pub fn noise_z<R: Scalar>(p: &SampleParams, env: u32, dim: u32) -> (z: R)
    ensures
        z == noise::<R>(*p, env, dim),
{
    if p.pin_mode == 1 {
        R::from_bits(ZERO)
    } else if p.pin_mode == 2 {
        u01::<R>(counter_u32(p.seed, env, dim, p.step, 0)).sub(R::from_bits(HALF))
    } else {
        let u0 = u01::<R>(counter_u32(p.seed, env, dim, p.step, 0));
        let u1 = u01::<R>(counter_u32(p.seed, env, dim, p.step, 1));
        let u0 = if u0.lt(R::from_bits(TINY)) {
            R::from_bits(TINY)
        } else {
            u0
        };
        let r = R::from_bits(MINUS_TWO).mul(u0.ln()).sqrt();
        r.mul(R::from_bits(TWO_PI).mul(u1).cos())
    }
}

/// Samples environment `env`: its action vector and its log-probability.
fn sample_env<R: Scalar>(
    p: &SampleParams,
    env: u32,
    means: &[R],
    log_std: &[R],
    actions: &mut [R],
    logp: &mut [R],
)
    requires
        env < p.num_envs,
        sample_shapes(
            *p,
            means@.len() as int,
            log_std@.len() as int,
            old(actions)@.len() as int,
            old(logp)@.len() as int,
        ),
    ensures
        final(actions)@ == actions_after(
            *p,
            means@,
            log_std@,
            old(actions)@,
            |e: int| e == env,
        ),
        final(logp)@ == logp_after(*p, log_std@, old(logp)@, |e: int| e == env),
{
    let adim: usize = p.action_dim as usize;
    let ghost w = adim as int;
    let ghost start = env as int * w;
    let ghost row = action(*p, means@, log_std@, env as int);
    let ghost before = actions@;
    proof {
        assert(0 <= start && start + w <= p.num_envs * w) by (nonlinear_arith)
            requires
                start == env * w,
                0 <= env < p.num_envs,
                0 <= w,
        ;
        assert(means@.len() == means.len());
    }
    let base: usize = env as usize * adim;
    let mut lp = R::from_bits(ZERO);
    let mut d: usize = 0;
    while d < adim
        invariant
            d <= adim,
            adim == p.action_dim,
            w == adim,
            start == env * w,
            base == start,
            start + w <= means@.len(),
            start + w <= before.len(),
            start + w <= usize::MAX,
            adim <= log_std@.len(),
            row == action(*p, means@, log_std@, env as int),
            actions@.len() == before.len(),
            forall|i: int|
                0 <= i < before.len() ==> #[trigger] actions@[i] == (if start <= i < start + d {
                    row[i - start]
                } else {
                    before[i]
                }),
            lp == log_prob(*p, log_std@, env as int, d as int),
        decreases adim - d,
    {
        let i: usize = base + d;
        let m = load(means, i);
        let ls = load(log_std, d);
        let std = ls.exp();
        let z = noise_z::<R>(p, env, d as u32);
        store(actions, i, m.add(std.mul(z)));
        lp = lp.add(
            R::from_bits(MINUS_HALF).mul(z).mul(z).sub(ls).sub(R::from_bits(HALF_LN_2PI)),
        );
        d = d + 1;
    }
    store(logp, env as usize, lp);
    proof {
        let after = actions_after(*p, means@, log_std@, before, |e: int| e == env);
        assert forall|i: int| 0 <= i < before.len() implies actions@[i] == after[i] by {
            if 0 < w {
                lemma_cell_of_index(i, w);
                if start <= i < start + w {
                    lemma_cell(env as int, w, i - start);
                }
                if i / w == env {
                    assert(i == start + i % w);
                }
            }
        }
        assert(actions@ =~= after);
    }
}

/// Samples an action vector per environment, and accumulates the log-probability of
/// each drawn action. A thread takes whole environments.
pub fn gpu_sample_gaussian<R: Scalar>(
    invocation_id: InvocationId,
    params: &SampleParams,
    means: &[R],
    log_std: &[R],
    actions: &mut [R],
    logp: &mut [R],
)
    requires
        invocation_id.x < params.num_envs ==> sample_shapes(
            *params,
            means@.len() as int,
            log_std@.len() as int,
            old(actions)@.len() as int,
            old(logp)@.len() as int,
        ),
    ensures
        final(actions)@ == actions_after(
            *params,
            means@,
            log_std@,
            old(actions)@,
            |e: int| owns(invocation_id.x as int, params.num_envs as int, e),
        ),
        final(logp)@ == logp_after(
            *params,
            log_std@,
            old(logp)@,
            |e: int| owns(invocation_id.x as int, params.num_envs as int, e),
        ),
{
    let ghost x = invocation_id.x as int;
    let ghost n = params.num_envs as int;
    let ghost row = |env: int| action(*params, means@, log_std@, env);
    let ghost w = params.action_dim as int;
    let ghost actions0 = actions@;
    let ghost logp0 = logp@;
    let mut env: u64 = invocation_id.x as u64;
    proof {
        assert(actions@ =~= with_rows(actions0, w, |e: int| owns(x, n, e) && e < env, row));
        assert(logp@ =~= logp_after(
            *params,
            log_std@,
            logp0,
            |e: int| owns(x, n, e) && e < env,
        ));
    }
    while env < params.num_envs as u64
        invariant
            x == invocation_id.x,
            n == params.num_envs,
            w == params.action_dim,
            x <= env < 0x2_0000_0000,
            (env - x) % (MAX_NUM_THREADS as int) == 0,
            row == (|env: int| action(*params, means@, log_std@, env)),
            actions@.len() == actions0.len(),
            logp@.len() == logp0.len(),
            x < n ==> sample_shapes(
                *params,
                means@.len() as int,
                log_std@.len() as int,
                actions0.len() as int,
                logp0.len() as int,
            ),
            actions@ == with_rows(actions0, w, |e: int| owns(x, n, e) && e < env, row),
            logp@ == logp_after(
                *params,
                log_std@,
                logp0,
                |e: int| owns(x, n, e) && e < env,
            ),
        decreases params.num_envs + MAX_NUM_THREADS - env,
    {
        let ghost e0 = env as int;
        sample_env(params, env as u32, means, log_std, actions, logp);
        env = env + MAX_NUM_THREADS as u64;
        proof {
            let first = |e: int| owns(x, n, e) && e < e0;
            let second = |e: int| e == e0 as u32;
            let both = |e: int| owns(x, n, e) && e < env;
            lemma_stride(x, n, e0);
            lemma_rows_twice(actions0, w, first, second, both, row);
            assert(actions@ =~= with_rows(actions0, w, both, row));
            assert(logp@ =~= logp_after(*params, log_std@, logp0, both));
        }
    }
    proof {
        assert(actions@ =~= actions_after(
            *params,
            means@,
            log_std@,
            actions0,
            |e: int| owns(x, n, e),
        ));
        assert(logp@ =~= logp_after(*params, log_std@, logp0, |e: int| owns(x, n, e)));
    }
}

/// Host reference of [`gpu_sample_gaussian`]: samples every environment.
pub fn cpu_sample<R: Scalar>(
    p: &SampleParams,
    means: &[R],
    log_std: &[R],
    actions: &mut [R],
    logp: &mut [R],
)
    requires
        0 < p.num_envs ==> sample_shapes(
            *p,
            means@.len() as int,
            log_std@.len() as int,
            old(actions)@.len() as int,
            old(logp)@.len() as int,
        ),
    ensures
        final(actions)@ == actions_after(
            *p,
            means@,
            log_std@,
            old(actions)@,
            |e: int| 0 <= e < p.num_envs,
        ),
        final(logp)@ == logp_after(
            *p,
            log_std@,
            old(logp)@,
            |e: int| 0 <= e < p.num_envs,
        ),
{
    let ghost row = |env: int| action(*p, means@, log_std@, env);
    let ghost w = p.action_dim as int;
    let ghost actions0 = actions@;
    let ghost logp0 = logp@;
    let mut env: u32 = 0;
    proof {
        assert(actions@ =~= with_rows(actions0, w, |e: int| 0 <= e < env, row));
        assert(logp@ =~= logp_after(*p, log_std@, logp0, |e: int| 0 <= e < env));
    }
    while env < p.num_envs
        invariant
            env <= p.num_envs,
            w == p.action_dim,
            row == (|env: int| action(*p, means@, log_std@, env)),
            actions@.len() == actions0.len(),
            logp@.len() == logp0.len(),
            0 < p.num_envs ==> sample_shapes(
                *p,
                means@.len() as int,
                log_std@.len() as int,
                actions0.len() as int,
                logp0.len() as int,
            ),
            actions@ == with_rows(actions0, w, |e: int| 0 <= e < env, row),
            logp@ == logp_after(*p, log_std@, logp0, |e: int| 0 <= e < env),
        decreases p.num_envs - env,
    {
        let ghost e0 = env;
        sample_env(p, env, means, log_std, actions, logp);
        env = env + 1;
        proof {
            let first = |e: int| 0 <= e < e0;
            let second = |e: int| e == e0;
            let both = |e: int| 0 <= e < env;
            lemma_rows_twice(actions0, w, first, second, both, row);
            assert(actions@ =~= with_rows(actions0, w, both, row));
            assert(logp@ =~= logp_after(*p, log_std@, logp0, both));
        }
    }
    proof {
        assert(actions@ =~= actions_after(
            *p,
            means@,
            log_std@,
            actions0,
            |e: int| 0 <= e < p.num_envs,
        ));
    }
}

/// The Gaussian action sampler, launched on the host.
#[derive(Clone, Copy, Debug)]
pub struct Sampler {}

impl Sampler {
    /// Samples actions for `num_envs` environments: runs the threads of the launch
    /// one after the other.
    ///
    /// A launch for at least all environments leaves the same buffers as
    /// [`cpu_sample`].
    pub fn sample<R: Scalar>(
        &self,
        num_envs: u32,
        params: &SampleParams,
        means: &[R],
        log_std: &[R],
        actions: &mut [R],
        logp: &mut [R],
    )
        requires
            0 < num_envs && 0 < params.num_envs ==> sample_shapes(
                *params,
                means@.len() as int,
                log_std@.len() as int,
                old(actions)@.len() as int,
                old(logp)@.len() as int,
            ),
        ensures
            final(actions)@ == actions_after(
                *params,
                means@,
                log_std@,
                old(actions)@,
                |e: int| reached(started(num_envs as int), params.num_envs as int, e),
            ),
            final(logp)@ == logp_after(
                *params,
                log_std@,
                old(logp)@,
                |e: int| reached(started(num_envs as int), params.num_envs as int, e),
            ),
            params.num_envs <= num_envs ==> final(actions)@ == actions_after(
                *params,
                means@,
                log_std@,
                old(actions)@,
                |e: int| 0 <= e < params.num_envs,
            ),
            params.num_envs <= num_envs ==> final(logp)@ == logp_after(
                *params,
                log_std@,
                old(logp)@,
                |e: int| 0 <= e < params.num_envs,
            ),
    {
        let ghost n = params.num_envs as int;
        let ghost w = params.action_dim as int;
        let ghost row = |env: int| action(*params, means@, log_std@, env);
        let ghost actions0 = actions@;
        let ghost logp0 = logp@;
        let total: u64 = threads_started(num_envs);
        let mut x: u64 = 0;
        proof {
            assert forall|e: int| !reached(0, n, e) by {}
            assert(actions@ =~= with_rows(actions0, w, |e: int| reached(0, n, e), row));
            assert(logp@ =~= logp_after(*params, log_std@, logp0, |e: int| reached(0, n, e)));
        }
        while x < total
            invariant
                x <= total <= 0x1_0000_0000,
                total == started(num_envs as int),
                0 < total ==> 0 < num_envs,
                n == params.num_envs,
                w == params.action_dim,
                row == (|env: int| action(*params, means@, log_std@, env)),
                actions@.len() == actions0.len(),
                logp@.len() == logp0.len(),
                0 < num_envs && 0 < params.num_envs ==> sample_shapes(
                    *params,
                    means@.len() as int,
                    log_std@.len() as int,
                    actions0.len() as int,
                    logp0.len() as int,
                ),
                actions@ == with_rows(actions0, w, |e: int| reached(x as int, n, e), row),
                logp@ == logp_after(
                    *params,
                    log_std@,
                    logp0,
                    |e: int| reached(x as int, n, e),
                ),
            decreases total - x,
        {
            let ghost x0 = x as int;
            let id = InvocationId { x: x as u32, y: 0, z: 0 };
            gpu_sample_gaussian(id, params, means, log_std, actions, logp);
            x = x + 1;
            proof {
                let first = |e: int| reached(x0, n, e);
                let second = |e: int| owns(x0, n, e);
                let both = |e: int| reached(x0 + 1, n, e);
                assert forall|e: int| #[trigger] both(e) == (first(e) || second(e)) by {
                    if 0 <= e < n {
                        lemma_owner(x0, n, e);
                    }
                }
                lemma_rows_twice(actions0, w, first, second, both, row);
                assert(actions@ =~= with_rows(actions0, w, both, row));
                assert(logp@ =~= logp_after(*params, log_std@, logp0, both));
            }
        }
        proof {
            assert forall|e: int| n <= num_envs implies #[trigger] reached(
                total as int,
                n,
                e,
            ) == (0 <= e < n) by {
                if 0 <= e < n {
                    lemma_launch_reaches(num_envs as int, n, e);
                }
            }
            let all = |e: int| 0 <= e < params.num_envs;
            assert(n <= num_envs ==> actions@ =~= actions_after(
                *params,
                means@,
                log_std@,
                actions0,
                all,
            ));
            assert(n <= num_envs ==> logp@ =~= logp_after(*params, log_std@, logp0, all));
        }
    }
}

/// In mean mode the noise is zero, and neither the actions nor the log-probabilities
/// depend on the seed or the step.
pub proof fn law_mean_mode_draws_no_noise<R: Scalar>(
    p: SampleParams,
    q: SampleParams,
    means: Seq<R>,
    log_std: Seq<R>,
    env: int,
    dims: int,
)
    requires
        p.pin_mode == 1,
        q.pin_mode == 1,
        p.action_dim == q.action_dim,
    ensures
        forall|e: u32, d: u32| #[trigger] noise::<R>(p, e, d) == R::literal(ZERO),
        action(p, means, log_std, env) == action(q, means, log_std, env),
        log_prob(p, log_std, env, dims) == log_prob(q, log_std, env, dims),
    decreases dims,
{
    if 0 < dims {
        law_mean_mode_draws_no_noise(p, q, means, log_std, env, dims - 1);
    }
    assert(action(p, means, log_std, env) =~= action(q, means, log_std, env));
}

/// The noise of an element does not depend on how many environments or dimensions
/// are sampled beside it.
pub proof fn law_noise_is_local<R: Scalar>(p: SampleParams, q: SampleParams, env: u32, dim: u32)
    requires
        p.seed == q.seed,
        p.step == q.step,
        p.pin_mode == q.pin_mode,
    ensures
        noise::<R>(p, env, dim) == noise::<R>(q, env, dim),
{
}

/// In mean mode the action is the mean, where the deviations are finite.
pub proof fn law_mean_mode_returns_the_mean<R: Scalar>(
    num: spec_fn(R) -> R,
    p: SampleParams,
    means: Seq<R>,
    log_std: Seq<R>,
    env: int,
    d: int,
)
    requires
        numeric(num),
        p.pin_mode == 1,
        0 <= d < p.action_dim,
        zero_absorbs(num, log_std[d].exponential()),
    ensures
        num(action(p, means, log_std, env)[d]) == num(
            means[cell(env, p.action_dim as int, d)],
        ),
{
    let m = means[cell(env, p.action_dim as int, d)];
    let shift = log_std[d].exponential().times(zero());
    assert(num(m.plus(shift)) == num(num(m).plus(num(zero()))));
    assert(num(m.plus(zero())) == num(num(m).plus(num(zero()))));
}

/// Two threads of a launch may run in either order.
pub proof fn law_sampler_threads_commute<R: Scalar>(
    p: SampleParams,
    means: Seq<R>,
    log_std: Seq<R>,
    actions: Seq<R>,
    logp: Seq<R>,
    x: int,
    y: int,
)
    ensures
        ({
            let n = p.num_envs as int;
            let (mine, other) = (|e: int| owns(x, n, e), |e: int| owns(y, n, e));
            &&& actions_after(
                p,
                means,
                log_std,
                actions_after(p, means, log_std, actions, mine),
                other,
            ) == actions_after(
                p,
                means,
                log_std,
                actions_after(p, means, log_std, actions, other),
                mine,
            )
            &&& logp_after(p, log_std, logp_after(p, log_std, logp, mine), other) == logp_after(
                p,
                log_std,
                logp_after(p, log_std, logp, other),
                mine,
            )
        }),
{
    let n = p.num_envs as int;
    let (mine, other) = (|e: int| owns(x, n, e), |e: int| owns(y, n, e));
    assert(actions_after(
        p,
        means,
        log_std,
        actions_after(p, means, log_std, actions, mine),
        other,
    ) =~= actions_after(
        p,
        means,
        log_std,
        actions_after(p, means, log_std, actions, other),
        mine,
    ));
    assert(logp_after(p, log_std, logp_after(p, log_std, logp, mine), other) =~= logp_after(
        p,
        log_std,
        logp_after(p, log_std, logp, other),
        mine,
    ));
}

/// Reading numbers as real numbers by `val`, counts below `2^24` and the weight `2^-24` are
/// exact, and so is their product. `binary32` has this.
pub open spec fn reads_units<R: Scalar>(val: spec_fn(R) -> real) -> bool {
    &&& 16777216real * val(R::literal(TWO_POW_MINUS_24)) == 1real
    &&& forall|n: u32| n < 0x0100_0000 ==> val(#[trigger] R::counted(n)) == (n as int) as real
    &&& forall|n: u32|
        n < 0x0100_0000 ==> val(
            (#[trigger] R::counted(n)).times(R::literal(TWO_POW_MINUS_24)),
        ) == val(R::counted(n)) * val(R::literal(TWO_POW_MINUS_24))
}

/// A number in the unit interval is its word's upper bits times `2^-24`, exactly.
proof fn lemma_unit_is_exact<R: Scalar>(val: spec_fn(R) -> real, h: u32)
    requires
        reads_units(val),
    ensures
        16777216real * val(unit::<R>(h)) == ((h >> 8) as int) as real,
{
    law_upper_bits(h);
    let n = ((h >> 8) as int) as real;
    let q = val(R::literal(TWO_POW_MINUS_24));
    let m = 16777216real;
    assert(m * (n * q) == n * (m * q)) by (nonlinear_arith);
    assert(n * 1real == n) by (nonlinear_arith);
}

/// The number that a word is mapped to lies in `[0, 1)`. It is exactly the upper 24 bits
/// times `2^-24`, so that words with the same upper bits give the same number and others do
/// not, and a larger word never gives a smaller number.
pub proof fn law_unit_interval<R: Scalar>(val: spec_fn(R) -> real, a: u32, b: u32)
    requires
        reads_units(val),
    ensures
        16777216real * val(unit::<R>(a)) == ((a >> 8) as int) as real,
        0real <= val(unit::<R>(a)) < 1real,
        unit::<R>(a) == unit::<R>(b) <==> a >> 8 == b >> 8,
        val(unit::<R>(a)) == val(unit::<R>(b)) <==> a >> 8 == b >> 8,
        a <= b ==> val(unit::<R>(a)) <= val(unit::<R>(b)),
{
    lemma_unit_is_exact(val, a);
    lemma_unit_is_exact(val, b);
    law_upper_bits(a);
    law_upper_bits(b);
    assert(a <= b ==> a >> 8 <= b >> 8) by (bit_vector);
}

/// Reading numbers as real numbers by `val`, `0.5` is exact, and so are its difference from
/// a number of the unit interval and the sum that undoes it. `binary32` has this.
pub open spec fn reads_centred_units<R: Scalar>(val: spec_fn(R) -> real) -> bool {
    let half = R::literal(HALF);
    &&& reads_units(val)
    &&& 2real * val(half) == 1real
    &&& forall|h: u32|
        val((#[trigger] unit::<R>(h)).minus(half)) == val(unit::<R>(h)) - val(half)
    &&& forall|h: u32|
        val((#[trigger] unit::<R>(h)).minus(half).plus(half)) == val(unit::<R>(h).minus(half))
            + val(half)
}

/// Uniform noise lies in `[-0.5, 0.5)`, and loses nothing of the random word: adding `0.5`
/// gives the number that the first draw is mapped to.
pub proof fn law_uniform_noise<R: Scalar>(
    val: spec_fn(R) -> real,
    p: SampleParams,
    env: u32,
    dim: u32,
)
    requires
        reads_centred_units(val),
        p.pin_mode == 2,
    ensures
        0real - 1real <= 2real * val(noise::<R>(p, env, dim)) < 1real,
        val(noise::<R>(p, env, dim).plus(R::literal(HALF))) == val(
            unit::<R>(counter_word(p.seed, env, dim, p.step, 0)),
        ),
{
    let h = counter_word(p.seed, env, dim, p.step, 0);
    law_unit_interval(val, h, h);
}

/// Every mode other than mean and uniform is the Gaussian mode.
pub proof fn law_other_modes_are_gaussian<R: Scalar>(p: SampleParams, env: u32, dim: u32)
    requires
        p.pin_mode != 1,
        p.pin_mode != 2,
    ensures
        noise::<R>(p, env, dim) == noise::<R>(SampleParams { pin_mode: 0, ..p }, env, dim),
        noise::<R>(p, env, dim) == box_muller(
            unit::<R>(counter_word(p.seed, env, dim, p.step, 0)),
            unit::<R>(counter_word(p.seed, env, dim, p.step, 1)),
        ),
{
}

/// The logarithm of the Box-Muller transform is never taken below `1e-7`: its argument is
/// the number of the first draw, or `1e-7` where that is less.
pub proof fn law_logarithm_is_guarded<R: Scalar>(u0: R, u1: R)
    requires
        !R::literal(TINY).below(R::literal(TINY)),
    ensures
        !kept_away(u0).below(R::literal(TINY)),
        u0.below(R::literal(TINY)) ==> kept_away(u0) == R::literal(TINY),
        !u0.below(R::literal(TINY)) ==> kept_away(u0) == u0,
        box_muller(u0, u1) == R::literal(MINUS_TWO).times(kept_away(u0).logarithm()).root().times(
            R::literal(TWO_PI).times(u1).cosine(),
        ),
{
}

/// What the bound on Gaussian noise asks of the arithmetic. `fin` tells the finite numbers,
/// and `val` reads them as real numbers. `binary32` with a mathematical library that is good
/// to a few units in the last place has all of it.
pub open spec fn reads_gaussian<R: Scalar>(
    val: spec_fn(R) -> real,
    fin: spec_fn(R) -> bool,
) -> bool {
    let tiny = R::literal(TINY);
    &&& reads_units(val)
    &&& forall|h: u32| fin(#[trigger] unit::<R>(h))
    &&& forall|h: u32| fin(R::literal(TWO_PI).times(#[trigger] unit::<R>(h)))
    &&& fin(tiny)
    &&& 0real < val(tiny) < 1real
    &&& forall|a: R| fin(a) ==> (#[trigger] a.below(tiny) <==> val(a) < val(tiny))
    &&& forall|a: R|
        fin(a) && val(tiny) <= val(a) <= 1real ==> fin(#[trigger] a.logarithm()) && 0real
            - 1612real <= 100real * val(a.logarithm()) <= 0real
    &&& forall|a: R|
        fin(a) && 0real - 1612real <= 100real * val(a) <= 0real ==> fin(
            #[trigger] R::literal(MINUS_TWO).times(a),
        ) && val(R::literal(MINUS_TWO).times(a)) == 0real - 2real * val(a)
    &&& forall|a: R|
        fin(a) && 0real <= 100real * val(a) <= 3224real ==> fin(#[trigger] a.root()) && 0real
            <= 1000real * val(a.root()) <= 5679real
    &&& forall|a: R|
        fin(a) ==> fin(#[trigger] a.cosine()) && 0real - 1real <= val(a.cosine()) <= 1real
    &&& forall|a: R, b: R|
        fin(a) && fin(b) && 0real <= 1000real * val(a) <= 5679real && 0real - 1real <= val(b)
            <= 1real ==> fin(#[trigger] a.times(b)) && 0real - 568real < 100real * val(a.times(b))
            < 568real
}

/// Gaussian noise is finite and less than `5.68` in size, whatever the random words are.
pub proof fn law_gaussian_noise_is_bounded<R: Scalar>(
    val: spec_fn(R) -> real,
    fin: spec_fn(R) -> bool,
    p: SampleParams,
    env: u32,
    dim: u32,
)
    requires
        reads_gaussian(val, fin),
        p.pin_mode != 1,
        p.pin_mode != 2,
    ensures
        fin(noise::<R>(p, env, dim)),
        0real - 568real < 100real * val(noise::<R>(p, env, dim)) < 568real,
{
    let (h0, h1) = (
        counter_word(p.seed, env, dim, p.step, 0),
        counter_word(p.seed, env, dim, p.step, 1),
    );
    let (u0, u1) = (unit::<R>(h0), unit::<R>(h1));
    law_unit_interval(val, h0, h1);
    let u = kept_away(u0);
    let tiny = R::literal(TINY);
    assert(u0.below(tiny) <==> val(u0) < val(tiny));
    assert(fin(u) && val(tiny) <= val(u) <= 1real);
    let l = u.logarithm();
    let m = R::literal(MINUS_TWO).times(l);
    let c = R::literal(TWO_PI).times(u1).cosine();
    assert(fin(l));
    assert(fin(m) && 0real <= 100real * val(m) <= 3224real);
    assert(fin(m.root()));
    assert(fin(c));
    assert(noise::<R>(p, env, dim) == m.root().times(c));
}

/// The actions after the threads `order`, one after the other, have sampled their
/// environments.
pub open spec fn actions_in_order<R: Scalar>(
    p: SampleParams,
    means: Seq<R>,
    log_std: Seq<R>,
    actions: Seq<R>,
    order: Seq<int>,
) -> Seq<R>
    decreases order.len(),
{
    if order.len() == 0 {
        actions
    } else {
        actions_after(
            p,
            means,
            log_std,
            actions_in_order(p, means, log_std, actions, order.drop_last()),
            |e: int| owns(order.last(), p.num_envs as int, e),
        )
    }
}

/// The log-probabilities after the threads `order`, one after the other, have sampled their
/// environments.
pub open spec fn logp_in_order<R: Scalar>(
    p: SampleParams,
    log_std: Seq<R>,
    logp: Seq<R>,
    order: Seq<int>,
) -> Seq<R>
    decreases order.len(),
{
    if order.len() == 0 {
        logp
    } else {
        logp_after(
            p,
            log_std,
            logp_in_order(p, log_std, logp, order.drop_last()),
            |e: int| owns(order.last(), p.num_envs as int, e),
        )
    }
}

/// What the threads `order` have sampled.
proof fn lemma_sampled_in_order<R: Scalar>(
    p: SampleParams,
    means: Seq<R>,
    log_std: Seq<R>,
    actions: Seq<R>,
    logp: Seq<R>,
    order: Seq<int>,
)
    ensures
        actions_in_order(p, means, log_std, actions, order) == actions_after(
            p,
            means,
            log_std,
            actions,
            |e: int| touched(order, p.num_envs as int, e),
        ),
        logp_in_order(p, log_std, logp, order) == logp_after(
            p,
            log_std,
            logp,
            |e: int| touched(order, p.num_envs as int, e),
        ),
    decreases order.len(),
{
    let n = p.num_envs as int;
    let w = p.action_dim as int;
    let row = |env: int| action(p, means, log_std, env);
    let both = |e: int| touched(order, n, e);
    if order.len() == 0 {
        assert(actions_after(p, means, log_std, actions, both) =~= actions);
        assert(logp_after(p, log_std, logp, both) =~= logp);
    } else {
        let before = order.drop_last();
        let first = |e: int| touched(before, n, e);
        let second = |e: int| owns(order.last(), n, e);
        lemma_sampled_in_order(p, means, log_std, actions, logp, before);
        assert forall|e: int| #[trigger] both(e) == (first(e) || second(e)) by {
            lemma_touched_step(order, n, e);
        }
        lemma_rows_twice(actions, w, first, second, both, row);
        assert(logp_after(p, log_std, logp_after(p, log_std, logp, first), second) =~= logp_after(
            p,
            log_std,
            logp,
            both,
        ));
    }
}

/// The threads of a launch for all environments may run in any order, and any of them more
/// than once: once every one of them has run, the buffers are those of [`cpu_sample`].
pub proof fn law_sampler_launch_in_any_order<R: Scalar>(
    p: SampleParams,
    num_threads: int,
    means: Seq<R>,
    log_std: Seq<R>,
    actions: Seq<R>,
    logp: Seq<R>,
    order: Seq<int>,
)
    requires
        p.num_envs <= num_threads,
        forall|x: int| 0 <= x < started(num_threads) ==> #[trigger] order.contains(x),
        forall|i: int| 0 <= i < order.len() ==> 0 <= #[trigger] order[i],
    ensures
        actions_in_order(p, means, log_std, actions, order) == actions_after(
            p,
            means,
            log_std,
            actions,
            |e: int| 0 <= e < p.num_envs,
        ),
        logp_in_order(p, log_std, logp, order) == logp_after(
            p,
            log_std,
            logp,
            |e: int| 0 <= e < p.num_envs,
        ),
{
    let n = p.num_envs as int;
    let mine = |e: int| touched(order, n, e);
    let all = |e: int| 0 <= e < p.num_envs;
    lemma_sampled_in_order(p, means, log_std, actions, logp, order);
    assert forall|e: int| #[trigger] mine(e) == all(e) by {
        if 0 <= e < n {
            lemma_all_touched(order, n, num_threads, e);
        }
    }
    assert(actions_after(p, means, log_std, actions, mine) =~= actions_after(
        p,
        means,
        log_std,
        actions,
        all,
    ));
    assert(logp_after(p, log_std, logp, mine) =~= logp_after(p, log_std, logp, all));
}

/// Sampling the environments that `mine` selects writes element `env * action_dim + d` of the
/// actions and element `env` of the log-probabilities for those environments, and nothing else.
pub proof fn law_sampled_elements<R: Scalar>(
    p: SampleParams,
    means: Seq<R>,
    log_std: Seq<R>,
    actions: Seq<R>,
    logp: Seq<R>,
    mine: spec_fn(int) -> bool,
    env: int,
    d: int,
)
    requires
        0 <= env < logp.len(),
        0 <= d < p.action_dim,
        env * p.action_dim + d < actions.len(),
    ensures
        ({
            let i = env * p.action_dim + d;
            let a = actions_after(p, means, log_std, actions, mine);
            let l = logp_after(p, log_std, logp, mine);
            &&& a.len() == actions.len()
            &&& l.len() == logp.len()
            &&& a[i] == (if mine(env) {
                action(p, means, log_std, env)[d]
            } else {
                actions[i]
            })
            &&& l[env] == (if mine(env) {
                log_prob(p, log_std, env, p.action_dim as int)
            } else {
                logp[env]
            })
        }),
{
    let row = |r: int| action(p, means, log_std, r);
    let value = |r: int| actions[r];
    law_replaced_rows(actions, p.action_dim as int, mine, row, value, env, d);
}

/// The buffers fit if and only if they hold an action and a mean for each dimension of each
/// environment, a deviation for each dimension and a log-probability for each environment.
pub proof fn law_sample_shapes(p: SampleParams, means: int, log_std: int, actions: int, logp: int)
    ensures
        sample_shapes(p, means, log_std, actions, logp) == (means >= p.num_envs * p.action_dim
            && actions >= p.num_envs * p.action_dim && log_std >= p.action_dim && logp
            >= p.num_envs),
{
}

} // verus!
