# vortx_rollout

Kernels of a batched policy rollout for legged-robot locomotion, written and proved in
Verus.

| module | what it holds |
| --- | --- |
| `scalar` | `Scalar`, the arithmetic that kernels are generic over |
| `digest` | a number type that hashes its own expression |
| `buffer`, `launch` | row-major buffers, and how the threads of a launch share columns |
| `rng` | stateless random words, a hash of `(seed, env, dim, step, draw)` |
| `sample` | Gaussian action sampler with log-probabilities, kernel and host reference |
| `exact` | the laws of rotations, in exact arithmetic |
| `geometry` | vectors, quaternions, rigid-body poses, base motion and joint angles |
| `obs` | policy and critic observations from poses |
| `reward` | the twenty-term step reward, fall detection and air times |
| `ppo` | actor and value gradients, batch staging with mirror and normalizer |

Every kernel's contract says what each element of each output buffer holds afterwards, as
an expression over `Scalar`'s operations in a fixed order, and that every other element is
as it was. Proof functions named `law_*` state what holds across kernels and steps. Where
a law rests on a fact of the arithmetic, the fact is a hypothesis of the law.

The library calls `khal_std` for element access to buffers (`buffer::load`,
`buffer::store`); those two contracts are trusted. `app/` runs the kernels in `f32`: entry
points for a device, buffer layouts and host dispatch through `khal`.
