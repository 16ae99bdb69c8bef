//! mwhash: a fast, non-cryptographic 32-bit hash over byte slices, with a
//! one-shot API and an incremental `Hasher`.
mod hasher;
mod laws;
mod mix;
mod model;

use vstd::prelude::*;

pub use hasher::Hasher;
pub use laws::{
    law_hash_starts_from_seed, law_hash_of_empty, law_hash_of_one_byte, law_hash_of_one_word,
    law_stream_matches_oneshot, law_absorb_concat, law_split_invariant, law_absorb_empty,
    law_initial_finishes_to_empty_hash, law_absorb_keeps_wf, law_hash_injective_in_seed,
    law_one_word_differs, law_one_tail_byte_differs, law_u32_hash_formula, law_u32_hash_injective,
    law_u64_hash_formula, law_u64_hash_separates_halves,
};
pub use mix::{
    SEED_DEFAULT, MUL_A, MUL_B, FINAL_XOR_1, FINAL_XOR_2, mix_word_spec, finalize_spec, rotl13,
    lemma_mix_word_unfold, lemma_finalize_unfold, law_mix_word_injective_acc,
    law_mix_word_injective_word, law_finalize_injective,
};
pub use model::{
    HasherView, absorb, absorb_byte, absorb_words, absorb_tail, finish_spec, hash_spec, initial,
    le_word, word_at, wrap_len, le_bytes_u32, le_bytes_u64,
};

verus! {

/// The hash of `data` with the default seed.
pub fn mwhash(data: &[u8]) -> (r: u32)
    ensures
        r == hash_spec(SEED_DEFAULT, data@),
        data@.len() == 0 ==> r == finalize_spec(SEED_DEFAULT, 0),
{
    let mut h = Hasher::new();
    h.update(data);
    proof {
        laws::law_stream_matches_oneshot(SEED_DEFAULT, data@);
        if data@.len() == 0 {
            assert(data@ =~= Seq::<u8>::empty());
            laws::law_hash_of_empty(SEED_DEFAULT);
        }
    }
    h.finish()
}

/// The hash of `data` with `seed`.
pub fn mwhash_seeded(data: &[u8], seed: u32) -> (r: u32)
    ensures
        r == hash_spec(seed, data@),
        data@.len() == 0 ==> r == finalize_spec(seed, 0),
{
    let mut h = Hasher::with_seed(seed);
    h.update(data);
    proof {
        laws::law_stream_matches_oneshot(seed, data@);
        if data@.len() == 0 {
            assert(data@ =~= Seq::<u8>::empty());
            laws::law_hash_of_empty(seed);
        }
    }
    h.finish()
}

/// The hash (default seed) of the little-endian bytes of `value`.
pub fn mwhash_u32(value: u32) -> (r: u32)
    ensures
        r == hash_spec(SEED_DEFAULT, le_bytes_u32(value)),
{
    let bytes: [u8; 4] = [value as u8, (value >> 8u32) as u8, (value >> 16u32) as u8, (value >> 24u32) as u8];
    assert(bytes@ =~= le_bytes_u32(value));
    mwhash(&bytes)
}

/// The hash (default seed) of the little-endian bytes of `value`.
pub fn mwhash_u64(value: u64) -> (r: u32)
    ensures
        r == hash_spec(SEED_DEFAULT, le_bytes_u64(value)),
{
    let bytes: [u8; 8] = [
        value as u8, (value >> 8u64) as u8, (value >> 16u64) as u8, (value >> 24u64) as u8,
        (value >> 32u64) as u8, (value >> 40u64) as u8, (value >> 48u64) as u8, (value >> 56u64) as u8,
    ];
    assert(bytes@ =~= le_bytes_u64(value));
    mwhash(&bytes)
}

/// The hash (default seed) of `a` followed by `b`, without joining them.
pub fn mwhash_concat(a: &[u8], b: &[u8]) -> (r: u32)
    ensures
        r == hash_spec(SEED_DEFAULT, a@ + b@),
{
    let mut h = Hasher::new();
    h.update(a);
    h.update(b);
    proof {
        laws::law_split_invariant(SEED_DEFAULT, a@, b@);
    }
    h.finish()
}

} // verus!
