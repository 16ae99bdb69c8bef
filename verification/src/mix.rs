//! The mixing steps of the hash: one step per 32-bit word (or trailing byte)
//! and the final avalanche.
use vstd::prelude::*;

verus! {

/// Seed used by `mwhash` and `Hasher::new`.
pub const SEED_DEFAULT: u32 = 0x9E37_79B9;
/// Multiplier applied to each absorbed word and to the length.
pub const MUL_A: u32 = 0x85EB_CA6B;
/// Multiplier used during finalization.
pub const MUL_B: u32 = 0xC2B2_AE35;
/// First finalization multiplier.
pub const FINAL_XOR_1: u32 = 0x6B43_A9B5;
/// Constant xored into every finished hash.
pub const FINAL_XOR_2: u32 = 0x52DC_E729;

/// `x` rotated left by 13 bits.
pub open spec fn rotl13(x: u32) -> u32 {
    (x << 13u32) | (x >> 19u32)
}

/// One absorption step: add `word * MUL_A` (mod 2^32), rotate left by 13,
/// then xor with the value shifted right by 7.
pub closed spec fn mix_word_spec(acc: u32, word: u32) -> u32 {
    let a = vstd::wrapping::u32_specs::wrapping_add(
        acc,
        vstd::wrapping::u32_specs::wrapping_mul(word, MUL_A),
    );
    let r = rotl13(a);
    r ^ (r >> 7u32)
}

/// The final avalanche over the accumulator and the (wrapped) input length.
pub closed spec fn finalize_spec(h: u32, len: u32) -> u32 {
    let h1 = vstd::wrapping::u32_specs::wrapping_add(
        h,
        vstd::wrapping::u32_specs::wrapping_mul(len, MUL_A),
    );
    let h2 = h1 ^ (h1 >> 16u32);
    let h3 = vstd::wrapping::u32_specs::wrapping_mul(h2, FINAL_XOR_1);
    let h4 = h3 ^ (h3 >> 13u32);
    let h5 = vstd::wrapping::u32_specs::wrapping_mul(h4, MUL_B);
    let h6 = h5 ^ (h5 >> 16u32);
    h6 ^ FINAL_XOR_2
}

/// `mix_word_spec` written out.
pub proof fn lemma_mix_word_unfold(acc: u32, word: u32)
    ensures
        mix_word_spec(acc, word) == ({
            let a = vstd::wrapping::u32_specs::wrapping_add(
                acc,
                vstd::wrapping::u32_specs::wrapping_mul(word, MUL_A),
            );
            let r = rotl13(a);
            r ^ (r >> 7u32)
        }),
{
}

/// `finalize_spec` written out.
pub proof fn lemma_finalize_unfold(h: u32, len: u32)
    ensures
        finalize_spec(h, len) == ({
            let h1 = vstd::wrapping::u32_specs::wrapping_add(
                h,
                vstd::wrapping::u32_specs::wrapping_mul(len, MUL_A),
            );
            let h2 = h1 ^ (h1 >> 16u32);
            let h3 = vstd::wrapping::u32_specs::wrapping_mul(h2, FINAL_XOR_1);
            let h4 = h3 ^ (h3 >> 13u32);
            let h5 = vstd::wrapping::u32_specs::wrapping_mul(h4, MUL_B);
            let h6 = h5 ^ (h5 >> 16u32);
            h6 ^ FINAL_XOR_2
        }),
{
}

proof fn lemma_add_injective(c: u32, x: u32, y: u32)
    requires
        x != y,
    ensures
        vstd::wrapping::u32_specs::wrapping_add(c, x) != vstd::wrapping::u32_specs::wrapping_add(c, y),
        vstd::wrapping::u32_specs::wrapping_add(x, c) != vstd::wrapping::u32_specs::wrapping_add(y, c),
{
}

/// Multiplying by one of the (odd) multipliers modulo 2^32 is injective.
proof fn lemma_mul_injective(x: u32, y: u32)
    requires
        x != y,
    ensures
        vstd::wrapping::u32_specs::wrapping_mul(x, MUL_A) != vstd::wrapping::u32_specs::wrapping_mul(y, MUL_A),
        vstd::wrapping::u32_specs::wrapping_mul(x, MUL_B) != vstd::wrapping::u32_specs::wrapping_mul(y, MUL_B),
        vstd::wrapping::u32_specs::wrapping_mul(x, FINAL_XOR_1)
            != vstd::wrapping::u32_specs::wrapping_mul(y, FINAL_XOR_1),
{
    assert(((x as nat * 0x85EB_CA6Bu32 as nat) % 0x1_0000_0000nat) as u32
        != ((y as nat * 0x85EB_CA6Bu32 as nat) % 0x1_0000_0000nat) as u32) by (bit_vector)
        requires
            x != y,
    ;
    assert(((x as nat * 0xC2B2_AE35u32 as nat) % 0x1_0000_0000nat) as u32
        != ((y as nat * 0xC2B2_AE35u32 as nat) % 0x1_0000_0000nat) as u32) by (bit_vector)
        requires
            x != y,
    ;
    assert(((x as nat * 0x6B43_A9B5u32 as nat) % 0x1_0000_0000nat) as u32
        != ((y as nat * 0x6B43_A9B5u32 as nat) % 0x1_0000_0000nat) as u32) by (bit_vector)
        requires
            x != y,
    ;
}

/// Rotation and the right xor-shifts used by the mixer are injective.
proof fn lemma_shuffles_injective(x: u32, y: u32)
    requires
        x != y,
    ensures
        rotl13(x) != rotl13(y),
        x ^ (x >> 7u32) != y ^ (y >> 7u32),
        x ^ (x >> 13u32) != y ^ (y >> 13u32),
        x ^ (x >> 16u32) != y ^ (y >> 16u32),
        x ^ FINAL_XOR_2 != y ^ FINAL_XOR_2,
{
    assert((x << 13u32) | (x >> 19u32) != (y << 13u32) | (y >> 19u32)) by (bit_vector)
        requires
            x != y,
    ;
    assert(x ^ (x >> 7u32) != y ^ (y >> 7u32)) by (bit_vector)
        requires
            x != y,
    ;
    assert(x ^ (x >> 13u32) != y ^ (y >> 13u32)) by (bit_vector)
        requires
            x != y,
    ;
    assert(x ^ (x >> 16u32) != y ^ (y >> 16u32)) by (bit_vector)
        requires
            x != y,
    ;
    assert(x ^ 0x52DC_E729u32 != y ^ 0x52DC_E729u32) by (bit_vector)
        requires
            x != y,
    ;
}

/// A mixing step is injective in the accumulator: for a fixed word, distinct
/// accumulators stay distinct.
pub proof fn law_mix_word_injective_acc(a1: u32, a2: u32, word: u32)
    requires
        a1 != a2,
    ensures
        mix_word_spec(a1, word) != mix_word_spec(a2, word),
{
    let m = vstd::wrapping::u32_specs::wrapping_mul(word, MUL_A);
    lemma_add_injective(m, a1, a2);
    let b1 = vstd::wrapping::u32_specs::wrapping_add(a1, m);
    let b2 = vstd::wrapping::u32_specs::wrapping_add(a2, m);
    lemma_shuffles_injective(b1, b2);
    lemma_shuffles_injective(rotl13(b1), rotl13(b2));
}

/// A mixing step is injective in the word: for a fixed accumulator, distinct
/// words give distinct results.
pub proof fn law_mix_word_injective_word(acc: u32, w1: u32, w2: u32)
    requires
        w1 != w2,
    ensures
        mix_word_spec(acc, w1) != mix_word_spec(acc, w2),
{
    lemma_mul_injective(w1, w2);
    let m1 = vstd::wrapping::u32_specs::wrapping_mul(w1, MUL_A);
    let m2 = vstd::wrapping::u32_specs::wrapping_mul(w2, MUL_A);
    lemma_add_injective(acc, m1, m2);
    let b1 = vstd::wrapping::u32_specs::wrapping_add(acc, m1);
    let b2 = vstd::wrapping::u32_specs::wrapping_add(acc, m2);
    lemma_shuffles_injective(b1, b2);
    lemma_shuffles_injective(rotl13(b1), rotl13(b2));
}

/// The finalizer is injective in the accumulator, for every length.
pub proof fn law_finalize_injective(h1: u32, h2: u32, len: u32)
    requires
        h1 != h2,
    ensures
        finalize_spec(h1, len) != finalize_spec(h2, len),
{
    let m = vstd::wrapping::u32_specs::wrapping_mul(len, MUL_A);
    lemma_add_injective(m, h1, h2);
    let a1 = vstd::wrapping::u32_specs::wrapping_add(h1, m);
    let a2 = vstd::wrapping::u32_specs::wrapping_add(h2, m);
    lemma_shuffles_injective(a1, a2);
    let b1 = a1 ^ (a1 >> 16u32);
    let b2 = a2 ^ (a2 >> 16u32);
    lemma_mul_injective(b1, b2);
    let c1 = vstd::wrapping::u32_specs::wrapping_mul(b1, FINAL_XOR_1);
    let c2 = vstd::wrapping::u32_specs::wrapping_mul(b2, FINAL_XOR_1);
    lemma_shuffles_injective(c1, c2);
    let d1 = c1 ^ (c1 >> 13u32);
    let d2 = c2 ^ (c2 >> 13u32);
    lemma_mul_injective(d1, d2);
    let e1 = vstd::wrapping::u32_specs::wrapping_mul(d1, MUL_B);
    let e2 = vstd::wrapping::u32_specs::wrapping_mul(d2, MUL_B);
    lemma_shuffles_injective(e1, e2);
    let f1 = e1 ^ (e1 >> 16u32);
    let f2 = e2 ^ (e2 >> 16u32);
    lemma_shuffles_injective(f1, f2);
}

pub(crate) fn mix_word(acc: u32, word: u32) -> (r: u32)
    ensures
        r == mix_word_spec(acc, word),
{
    let mut a = acc.wrapping_add(word.wrapping_mul(MUL_A));
    a = (a << 13u32) | (a >> 19u32);
    a ^ (a >> 7u32)
}

/// A trailing byte is mixed exactly like a word holding the byte's value.
pub(crate) fn mix_byte(acc: u32, byte: u8) -> (r: u32)
    ensures
        r == mix_word_spec(acc, byte as u32),
{
    let v = (byte as u32).wrapping_mul(MUL_A);
    let acc = acc.wrapping_add(v);
    let acc = (acc << 13u32) | (acc >> 19u32);
    acc ^ (acc >> 7u32)
}

pub(crate) fn finalize(h: u32, len: u32) -> (r: u32)
    ensures
        r == finalize_spec(h, len),
{
    let mut h = h.wrapping_add(len.wrapping_mul(MUL_A));
    h ^= h >> 16u32;
    h = h.wrapping_mul(FINAL_XOR_1);
    h ^= h >> 13u32;
    h = h.wrapping_mul(MUL_B);
    h ^= h >> 16u32;
    h ^ FINAL_XOR_2
}

} // verus!
