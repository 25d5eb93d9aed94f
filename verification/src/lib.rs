//! Kernels of a batched policy rollout, with their behaviour proved.
//!
//! One rollout step of many environments at once takes four kinds of kernel:
//! - [`obs`] assembles the policy and the critic observation from rigid-body poses,
//! - [`sample`] draws an action per environment from a Gaussian policy, with the
//!   counter-based random words of [`rng`],
//! - [`reward`] evaluates the step reward and detects falls,
//! - [`ppo`] computes the loss gradients of the policy update and stages its batches.
//!
//! A kernel is one function that a launch runs in many threads ([`launch`]); every buffer
//! is a slice in row-major order ([`buffer`]). The kernels compute with any number type
//! that implements [`scalar::Scalar`]; [`digest`] has one that hashes the operations that
//! a kernel performs. Laws that rest on facts of the arithmetic name them as hypotheses;
//! [`exact`] has those that read the numbers as real numbers.

pub mod buffer;
pub mod digest;
pub mod exact;
pub mod geometry;
pub mod launch;
pub mod obs;
pub mod ppo;
pub mod reward;
pub mod rng;
pub mod sample;
pub mod scalar;
