//! Stateless random words: a hash of a counter.
//!
//! A word depends on `(seed, env, dim, step, draw)` and on nothing else, so any of
//! them can be computed again at any time, in any order, by anyone.

use vstd::prelude::*;

verus! {

/// `z` with its upper bits folded into its lower ones.
pub open spec fn folded(z: u32, shift: u32) -> u32 {
    z ^ (z >> shift)
}

/// What [`mix`] makes of a word: fold, multiply, fold, multiply, fold.
pub open spec fn mixed(z: u32) -> u32 {
    let a = folded(z, 16).wrapping_mul(0x7feb_352d);
    let b = folded(a, 15).wrapping_mul(0x846c_a68b);
    folded(b, 16)
}

/// The hash state `h` after one more counter word, weighted by `k`.
pub open spec fn absorbed(h: u32, word: u32, k: u32) -> u32 {
    mixed(h ^ word.wrapping_mul(k))
}

/// The random word at a counter.
pub open spec fn counter_word(seed: u32, env: u32, dim: u32, step: u32, draw: u32) -> u32 {
    let h = seed.wrapping_add(0x9e37_79b9);
    let h = absorbed(h, env, 0x85eb_ca6b);
    let h = absorbed(h, dim, 0xc2b2_ae35);
    let h = absorbed(h, step, 0x27d4_eb2f);
    absorbed(h, draw, 0x1656_67b1)
}

/// Integer avalanche mix. Wrapping `u32` operations only.
pub fn mix(z: u32) -> (r: u32)
    ensures
        r == mixed(z),
{
    let a: u32 = (z ^ (z >> 16)).wrapping_mul(0x7feb_352d);
    let b: u32 = (a ^ (a >> 15)).wrapping_mul(0x846c_a68b);
    b ^ (b >> 16)
}

/// Hashes `(seed, env, dim, step, draw)` to a word.
pub fn counter_u32(seed: u32, env: u32, dim: u32, step: u32, draw: u32) -> (r: u32)
    ensures
        r == counter_word(seed, env, dim, step, draw),
{
    let mut h: u32 = seed.wrapping_add(0x9e37_79b9);
    h = mix(h ^ env.wrapping_mul(0x85eb_ca6b));
    h = mix(h ^ dim.wrapping_mul(0xc2b2_ae35));
    h = mix(h ^ step.wrapping_mul(0x27d4_eb2f));
    h = mix(h ^ draw.wrapping_mul(0x1656_67b1));
    h
}

/// Multiplication by a number that has an inverse modulo `2^32` loses nothing.
proof fn lemma_mul_injective(a: u32, b: u32, k: u32, inverse: u32)
    requires
        (k as int * inverse as int) % 0x1_0000_0000 == 1,
        a.wrapping_mul(k) == b.wrapping_mul(k),
    ensures
        a == b,
{
    lemma_mul_back(a, k, inverse);
    lemma_mul_back(b, k, inverse);
}

/// Multiplying by the inverse undoes a multiplication.
proof fn lemma_mul_back(a: u32, k: u32, inverse: u32)
    requires
        (k as int * inverse as int) % 0x1_0000_0000 == 1,
    ensures
        (a.wrapping_mul(k) as int * inverse as int) % 0x1_0000_0000 == a,
{
    let m: int = 0x1_0000_0000;
    let (x, y, z) = (a as int, k as int, inverse as int);
    vstd::arithmetic::div_mod::lemma_mul_mod_noop_left(x * y, z, m);
    vstd::arithmetic::mul::lemma_mul_is_associative(x, y, z);
    vstd::arithmetic::div_mod::lemma_mul_mod_noop_right(x, y * z, m);
    vstd::arithmetic::div_mod::lemma_small_mod(a as nat, m as nat);
}

/// The mix maps different words to different words.
pub proof fn law_mix_injective(a: u32, b: u32)
    requires
        mixed(a) == mixed(b),
    ensures
        a == b,
{
    let a1 = folded(a, 16);
    let b1 = folded(b, 16);
    let a2 = a1.wrapping_mul(0x7feb_352d);
    let b2 = b1.wrapping_mul(0x7feb_352d);
    let a3 = folded(a2, 15);
    let b3 = folded(b2, 15);
    let a4 = a3.wrapping_mul(0x846c_a68b);
    let b4 = b3.wrapping_mul(0x846c_a68b);
    assert(a4 ^ (a4 >> 16) == b4 ^ (b4 >> 16) ==> a4 == b4) by (bit_vector);
    assert(0x846c_a68bint * 0x4302_1123int % 0x1_0000_0000 == 1);
    lemma_mul_injective(a3, b3, 0x846c_a68b, 0x4302_1123);
    assert(a2 ^ (a2 >> 15) == b2 ^ (b2 >> 15) ==> a2 == b2) by (bit_vector);
    assert(0x7feb_352dint * 0x1d69_e2a5int % 0x1_0000_0000 == 1);
    lemma_mul_injective(a1, b1, 0x7feb_352d, 0x1d69_e2a5);
    assert(a ^ (a >> 16) == b ^ (b >> 16) ==> a == b) by (bit_vector);
}

/// Absorbing a word keeps different hash states apart.
proof fn lemma_absorbed_state(g: u32, h: u32, word: u32, k: u32)
    requires
        absorbed(g, word, k) == absorbed(h, word, k),
    ensures
        g == h,
{
    let w = word.wrapping_mul(k);
    law_mix_injective(g ^ w, h ^ w);
    assert(g ^ w == h ^ w ==> g == h) by (bit_vector);
}

/// Absorbing different words leads to different hash states.
proof fn lemma_absorbed_word(h: u32, v: u32, w: u32, k: u32, inverse: u32)
    requires
        (k as int * inverse as int) % 0x1_0000_0000 == 1,
        absorbed(h, v, k) == absorbed(h, w, k),
    ensures
        v == w,
{
    let a = v.wrapping_mul(k);
    let b = w.wrapping_mul(k);
    law_mix_injective(h ^ a, h ^ b);
    assert(h ^ a == h ^ b ==> a == b) by (bit_vector);
    lemma_mul_injective(v, w, k, inverse);
}

/// Two draws for the same element and step are different words.
pub proof fn law_draws_differ(seed: u32, env: u32, dim: u32, step: u32, a: u32, b: u32)
    requires
        a != b,
    ensures
        counter_word(seed, env, dim, step, a) != counter_word(seed, env, dim, step, b),
{
    let h = absorbed(
        absorbed(absorbed(seed.wrapping_add(0x9e37_79b9), env, 0x85eb_ca6b), dim, 0xc2b2_ae35),
        step,
        0x27d4_eb2f,
    );
    if absorbed(h, a, 0x1656_67b1) == absorbed(h, b, 0x1656_67b1) {
        assert(0x1656_67b1int * 0xae39_8151int % 0x1_0000_0000 == 1);
        lemma_absorbed_word(h, a, b, 0x1656_67b1, 0xae39_8151);
    }
}

/// The same draw for the same element gives different words at different steps.
pub proof fn law_steps_differ(seed: u32, env: u32, dim: u32, a: u32, b: u32, draw: u32)
    requires
        a != b,
    ensures
        counter_word(seed, env, dim, a, draw) != counter_word(seed, env, dim, b, draw),
{
    let h = absorbed(
        absorbed(seed.wrapping_add(0x9e37_79b9), env, 0x85eb_ca6b),
        dim,
        0xc2b2_ae35,
    );
    let (ha, hb) = (absorbed(h, a, 0x27d4_eb2f), absorbed(h, b, 0x27d4_eb2f));
    if absorbed(ha, draw, 0x1656_67b1) == absorbed(hb, draw, 0x1656_67b1) {
        lemma_absorbed_state(ha, hb, draw, 0x1656_67b1);
        assert(0x27d4_eb2fint * 0xa0fe_3bcfint % 0x1_0000_0000 == 1);
        lemma_absorbed_word(h, a, b, 0x27d4_eb2f, 0xa0fe_3bcf);
    }
}

/// The same draw at the same step gives different words for different dimensions.
pub proof fn law_dims_differ(seed: u32, env: u32, a: u32, b: u32, step: u32, draw: u32)
    requires
        a != b,
    ensures
        counter_word(seed, env, a, step, draw) != counter_word(seed, env, b, step, draw),
{
    let h = absorbed(seed.wrapping_add(0x9e37_79b9), env, 0x85eb_ca6b);
    let (ha, hb) = (absorbed(h, a, 0xc2b2_ae35), absorbed(h, b, 0xc2b2_ae35));
    let (sa, sb) = (absorbed(ha, step, 0x27d4_eb2f), absorbed(hb, step, 0x27d4_eb2f));
    if absorbed(sa, draw, 0x1656_67b1) == absorbed(sb, draw, 0x1656_67b1) {
        lemma_absorbed_state(sa, sb, draw, 0x1656_67b1);
        lemma_absorbed_state(ha, hb, step, 0x27d4_eb2f);
        assert(0xc2b2_ae35int * 0x7ed1_b41dint % 0x1_0000_0000 == 1);
        lemma_absorbed_word(h, a, b, 0xc2b2_ae35, 0x7ed1_b41d);
    }
}

/// The same draw at the same step gives different words for different environments.
pub proof fn law_envs_differ(seed: u32, a: u32, b: u32, dim: u32, step: u32, draw: u32)
    requires
        a != b,
    ensures
        counter_word(seed, a, dim, step, draw) != counter_word(seed, b, dim, step, draw),
{
    let h = seed.wrapping_add(0x9e37_79b9);
    let (ha, hb) = (absorbed(h, a, 0x85eb_ca6b), absorbed(h, b, 0x85eb_ca6b));
    if counter_word(seed, a, dim, step, draw) == counter_word(seed, b, dim, step, draw) {
        lemma_rest_absorbed(ha, hb, dim, step, draw);
        assert(0x85eb_ca6bint * 0xa5cb_9243int % 0x1_0000_0000 == 1);
        lemma_absorbed_word(h, a, b, 0x85eb_ca6b, 0xa5cb_9243);
    }
}

/// Different seeds give different words at the same counter.
pub proof fn law_seeds_differ(a: u32, b: u32, env: u32, dim: u32, step: u32, draw: u32)
    requires
        a != b,
    ensures
        counter_word(a, env, dim, step, draw) != counter_word(b, env, dim, step, draw),
{
    let (ga, gb) = (a.wrapping_add(0x9e37_79b9), b.wrapping_add(0x9e37_79b9));
    let (ha, hb) = (absorbed(ga, env, 0x85eb_ca6b), absorbed(gb, env, 0x85eb_ca6b));
    if counter_word(a, env, dim, step, draw) == counter_word(b, env, dim, step, draw) {
        lemma_rest_absorbed(ha, hb, dim, step, draw);
        lemma_absorbed_state(ga, gb, env, 0x85eb_ca6b);
    }
}

/// The last three counter words keep different hash states apart.
proof fn lemma_rest_absorbed(g: u32, h: u32, dim: u32, step: u32, draw: u32)
    requires
        absorbed(absorbed(absorbed(g, dim, 0xc2b2_ae35), step, 0x27d4_eb2f), draw, 0x1656_67b1)
            == absorbed(
            absorbed(absorbed(h, dim, 0xc2b2_ae35), step, 0x27d4_eb2f),
            draw,
            0x1656_67b1,
        ),
    ensures
        g == h,
{
    let (gd, hd) = (absorbed(g, dim, 0xc2b2_ae35), absorbed(h, dim, 0xc2b2_ae35));
    let (gs, hs) = (absorbed(gd, step, 0x27d4_eb2f), absorbed(hd, step, 0x27d4_eb2f));
    lemma_absorbed_state(gs, hs, draw, 0x1656_67b1);
    lemma_absorbed_state(gd, hd, step, 0x27d4_eb2f);
    lemma_absorbed_state(g, h, dim, 0xc2b2_ae35);
}

/// A word has 24 upper bits, which count the steps of `1/2^24` in `[0, 1)`.
pub proof fn law_upper_bits(h: u32)
    ensures
        h >> 8 == h / 256,
        h >> 8 < 0x0100_0000,
{
    assert(h >> 8 == h / 256 && h >> 8 < 0x0100_0000) by (bit_vector);
}

/// The word at a counter is what four rounds of one avalanche make of the seed and the four
/// counter words: each round multiplies its word, modulo `2^32`, by an odd constant of its own
/// and folds it in. No part of any word is left out.
pub proof fn law_counter_rounds(
    seed: u32,
    env: u32,
    dim: u32,
    step: u32,
    draw: u32,
    h0: u32,
    h1: u32,
    h2: u32,
    h3: u32,
)
    requires
        h0 == (seed + 0x9e37_79b9) % 0x1_0000_0000,
        h1 == mixed(h0 ^ (((env * 0x85eb_ca6b) % 0x1_0000_0000) as u32)),
        h2 == mixed(h1 ^ (((dim * 0xc2b2_ae35) % 0x1_0000_0000) as u32)),
        h3 == mixed(h2 ^ (((step * 0x27d4_eb2f) % 0x1_0000_0000) as u32)),
    ensures
        counter_word(seed, env, dim, step, draw) == mixed(
            h3 ^ (((draw * 0x1656_67b1) % 0x1_0000_0000) as u32),
        ),
{
    lemma_wrapping(seed, env, 0x85eb_ca6b);
    lemma_wrapping(seed, dim, 0xc2b2_ae35);
    lemma_wrapping(seed, step, 0x27d4_eb2f);
    lemma_wrapping(seed, draw, 0x1656_67b1);
}

/// Wrapping operations are the integer ones modulo `2^32`.
proof fn lemma_wrapping(seed: u32, word: u32, k: u32)
    ensures
        seed.wrapping_add(0x9e37_79b9) == (seed + 0x9e37_79b9) % 0x1_0000_0000,
        word.wrapping_mul(k) == ((word * k) % 0x1_0000_0000) as u32,
{
}

/// The avalanche: fold the upper half in, multiply, fold by fifteen, multiply, fold the upper
/// half in.
pub proof fn law_avalanche(z: u32, a: u32, b: u32)
    requires
        a == ((z ^ (z >> 16)) * 0x7feb_352d) % 0x1_0000_0000,
        b == ((a ^ (a >> 15)) * 0x846c_a68b) % 0x1_0000_0000,
    ensures
        mixed(z) == b ^ (b >> 16),
{
    lemma_wrapping(0, z ^ (z >> 16), 0x7feb_352d);
    lemma_wrapping(0, a ^ (a >> 15), 0x846c_a68b);
}

} // verus!
