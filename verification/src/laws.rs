//! What holds of the library as a whole, over the model of `model.rs`.
use vstd::prelude::*;
use crate::mix::{
    SEED_DEFAULT, mix_word_spec, finalize_spec, law_mix_word_injective_acc,
    law_mix_word_injective_word, law_finalize_injective,
};
use crate::model::{
    HasherView, absorb, absorb_tail, absorb_words, finish_spec, hash_spec, initial, le_word,
    word_at, wrap_len, le_bytes_u32, le_bytes_u64, lemma_absorb_closed, lemma_absorb_tail_shift,
    lemma_absorb_words_prefix,
};

verus! {

/// The hash of `data` under `s` is what a hasher whose accumulator starts
/// at `s` itself, with nothing absorbed yet, finishes to after absorbing
/// `data` (whatever seed it would restart from).
pub proof fn law_hash_starts_from_seed(s: u32, restart: u32, data: Seq<u8>)
    ensures
        hash_spec(s, data) == finish_spec(
            absorb(HasherView { acc: s, seed: restart, len: 0, pending: Seq::empty() }, data),
        ),
{
    let v = HasherView { acc: s, seed: restart, len: 0, pending: Seq::empty() };
    lemma_absorb_closed(v, data);
    assert(v.pending + data =~= data);
    let q = data.len() / 4;
    let w = absorb(v, data);
    assert(w.pending =~= data.subrange(4 * q as int, data.len() as int));
    lemma_absorb_tail_shift(w.acc, w.pending, 0, data, 4 * q as int, w.pending.len());
}

/// Streaming equals one-shot: a byte sequence absorbed by a fresh hasher
/// with `seed` finishes to its hash under `seed`.
pub proof fn law_stream_matches_oneshot(seed: u32, data: Seq<u8>)
    ensures
        finish_spec(absorb(initial(seed), data)) == hash_spec(seed, data),
{
    law_hash_starts_from_seed(seed, seed, data);
    assert(initial(seed) == HasherView { acc: seed, seed, len: 0, pending: Seq::<u8>::empty() });
}

/// The empty input hashes under `s` to the finalizer applied to `s` itself
/// and length 0.
pub proof fn law_hash_of_empty(s: u32)
    ensures
        hash_spec(s, Seq::empty()) == finalize_spec(s, 0),
{
    assert(wrap_len(0) == 0);
}

/// A single byte `b` hashes under `s` to one mixing step of `b` into `s`
/// itself, finalized with length 1.
pub proof fn law_hash_of_one_byte(s: u32, b: u8)
    ensures
        hash_spec(s, seq![b]) == finalize_spec(mix_word_spec(s, b as u32), 1),
{
    let d = seq![b];
    assert(absorb_tail(s, d, 0, 1) == mix_word_spec(absorb_tail(s, d, 0, 0), d[0] as u32));
    assert(wrap_len(1) == 1);
}

/// The four little-endian bytes of `w` hash under `s` to one mixing step of
/// `w` into `s` itself, finalized with length 4.
pub proof fn law_hash_of_one_word(s: u32, w: u32)
    ensures
        hash_spec(s, le_bytes_u32(w)) == finalize_spec(mix_word_spec(s, w), 4),
{
    let d = le_bytes_u32(w);
    assert(le_word(w as u8, (w >> 8u32) as u8, (w >> 16u32) as u8, (w >> 24u32) as u8) == w) by (bit_vector);
    assert(word_at(d, 0) == w);
    assert(absorb_words(s, d, 1) == mix_word_spec(absorb_words(s, d, 0), word_at(d, 0)));
    assert(wrap_len(4) == 4);
}

/// Split invariance: absorbing `a` and then `b` reaches the same state as
/// absorbing `a + b`, from any state.
pub proof fn law_absorb_concat(v: HasherView, a: Seq<u8>, b: Seq<u8>)
    ensures
        absorb(absorb(v, a), b) == absorb(v, a + b),
    decreases b.len(),
{
    if b.len() == 0 {
        assert(a + b =~= a);
    } else {
        law_absorb_concat(v, a, b.drop_last());
        assert((a + b).drop_last() =~= a + b.drop_last());
        assert((a + b).last() == b.last());
    }
}

/// However the input is split into two updates, a fresh hasher finishes to
/// the hash of the whole input.
pub proof fn law_split_invariant(seed: u32, a: Seq<u8>, b: Seq<u8>)
    ensures
        finish_spec(absorb(absorb(initial(seed), a), b)) == hash_spec(seed, a + b),
{
    law_absorb_concat(initial(seed), a, b);
    law_stream_matches_oneshot(seed, a + b);
}

/// Absorbing no bytes leaves the state as it was.
pub proof fn law_absorb_empty(v: HasherView)
    ensures
        absorb(v, Seq::empty()) == v,
{
}

/// A hasher that has absorbed nothing since it was created (or reset) with
/// `seed` finishes to the hash of the empty input under `seed`.
pub proof fn law_initial_finishes_to_empty_hash(seed: u32)
    ensures
        finish_spec(initial(seed)) == hash_spec(seed, Seq::empty()),
{
    law_stream_matches_oneshot(seed, Seq::empty());
}

/// Absorbing keeps a state well formed: never more than three bytes pending.
pub proof fn law_absorb_keeps_wf(v: HasherView, s: Seq<u8>)
    requires
        v.wf(),
    ensures
        absorb(v, s).wf(),
{
    lemma_absorb_closed(v, s);
}

/// Distinct accumulators stay distinct through any number of whole words.
proof fn lemma_absorb_words_injective_acc(a1: u32, a2: u32, s: Seq<u8>, n: nat)
    requires
        a1 != a2,
    ensures
        absorb_words(a1, s, n) != absorb_words(a2, s, n),
    decreases n,
{
    if n > 0 {
        lemma_absorb_words_injective_acc(a1, a2, s, (n - 1) as nat);
        law_mix_word_injective_acc(
            absorb_words(a1, s, (n - 1) as nat),
            absorb_words(a2, s, (n - 1) as nat),
            word_at(s, 4 * (n - 1)),
        );
    }
}

/// Distinct accumulators stay distinct through any number of trailing bytes.
proof fn lemma_absorb_tail_injective_acc(a1: u32, a2: u32, s: Seq<u8>, start: int, k: nat)
    requires
        a1 != a2,
    ensures
        absorb_tail(a1, s, start, k) != absorb_tail(a2, s, start, k),
    decreases k,
{
    if k > 0 {
        lemma_absorb_tail_injective_acc(a1, a2, s, start, (k - 1) as nat);
        law_mix_word_injective_acc(
            absorb_tail(a1, s, start, (k - 1) as nat),
            absorb_tail(a2, s, start, (k - 1) as nat),
            s[start + k - 1] as u32,
        );
    }
}

/// Four bytes are determined by their little-endian word.
proof fn lemma_le_word_injective(b0: u8, b1: u8, b2: u8, b3: u8, c0: u8, c1: u8, c2: u8, c3: u8)
    requires
        b0 != c0 || b1 != c1 || b2 != c2 || b3 != c3,
    ensures
        le_word(b0, b1, b2, b3) != le_word(c0, c1, c2, c3),
{
    assert((b0 as u32) | ((b1 as u32) << 8u32) | ((b2 as u32) << 16u32) | ((b3 as u32) << 24u32)
        != (c0 as u32) | ((c1 as u32) << 8u32) | ((c2 as u32) << 16u32) | ((c3 as u32) << 24u32))
        by (bit_vector)
        requires
            b0 != c0 || b1 != c1 || b2 != c2 || b3 != c3,
    ;
}

/// The hash separates seeds: for the same input, distinct seeds give
/// distinct hashes.
pub proof fn law_hash_injective_in_seed(s1: u32, s2: u32, data: Seq<u8>)
    requires
        s1 != s2,
    ensures
        hash_spec(s1, data) != hash_spec(s2, data),
{
    let q = data.len() / 4;
    lemma_absorb_words_injective_acc(s1, s2, data, q);
    let w1 = absorb_words(s1, data, q);
    let w2 = absorb_words(s2, data, q);
    lemma_absorb_tail_injective_acc(w1, w2, data, 4 * q as int, (data.len() % 4) as nat);
    law_finalize_injective(
        absorb_tail(w1, data, 4 * q as int, (data.len() % 4) as nat),
        absorb_tail(w2, data, 4 * q as int, (data.len() % 4) as nat),
        wrap_len(data.len() as int),
    );
}

proof fn lemma_words_differ_from_block(seed: u32, d1: Seq<u8>, d2: Seq<u8>, i: nat, n: nat)
    requires
        d1.len() == d2.len(),
        i < n,
        4 * n <= d1.len(),
        forall|j: int| 0 <= j < d1.len() && !(4 * i <= j < 4 * i + 4) ==> d1[j] == d2[j],
        word_at(d1, 4 * i as int) != word_at(d2, 4 * i as int),
    ensures
        absorb_words(seed, d1, n) != absorb_words(seed, d2, n),
    decreases n,
{
    if n == i + 1 {
        lemma_absorb_words_prefix(seed, d1, d2, i);
        law_mix_word_injective_word(absorb_words(seed, d1, i), word_at(d1, 4 * i as int), word_at(d2, 4 * i as int));
    } else {
        lemma_words_differ_from_block(seed, d1, d2, i, (n - 1) as nat);
        let k = 4 * (n - 1);
        assert(d1[k] == d2[k] && d1[k + 1] == d2[k + 1] && d1[k + 2] == d2[k + 2] && d1[k + 3] == d2[k + 3]);
        law_mix_word_injective_acc(
            absorb_words(seed, d1, (n - 1) as nat),
            absorb_words(seed, d2, (n - 1) as nat),
            word_at(d1, k),
        );
    }
}

/// Two inputs of the same length that differ only inside one whole word
/// block `[4 * i, 4 * i + 4)` hash differently, under every seed.
pub proof fn law_one_word_differs(seed: u32, d1: Seq<u8>, d2: Seq<u8>, i: nat)
    requires
        d1.len() == d2.len(),
        4 * i + 4 <= d1.len(),
        forall|j: int| 0 <= j < d1.len() && !(4 * i <= j < 4 * i + 4) ==> d1[j] == d2[j],
        d1 != d2,
    ensures
        hash_spec(seed, d1) != hash_spec(seed, d2),
{
    if forall|j: int| 4 * i <= j < 4 * i + 4 ==> d1[j] == d2[j] {
        assert(d1 =~= d2);
    }
    let b: int = 4 * i as int;
    lemma_le_word_injective(d1[b], d1[b + 1], d1[b + 2], d1[b + 3], d2[b], d2[b + 1], d2[b + 2], d2[b + 3]);
    let q = d1.len() / 4;
    lemma_words_differ_from_block(seed, d1, d2, i, q);
    let w1 = absorb_words(seed, d1, q);
    let w2 = absorb_words(seed, d2, q);
    let k = (d1.len() % 4) as nat;
    lemma_absorb_tail_shift(w2, d2, 4 * q as int, d1, 4 * q as int, k);
    lemma_absorb_tail_injective_acc(w1, w2, d1, 4 * q as int, k);
    law_finalize_injective(
        absorb_tail(w1, d1, 4 * q as int, k),
        absorb_tail(w2, d1, 4 * q as int, k),
        wrap_len(d1.len() as int),
    );
}

proof fn lemma_tail_differs_at(acc: u32, d1: Seq<u8>, d2: Seq<u8>, start: int, k: nat, p: int)
    requires
        start <= p < start + k,
        d1[p] != d2[p],
        forall|j: int| start <= j < start + k && j != p ==> d1[j] == d2[j],
    ensures
        absorb_tail(acc, d1, start, k) != absorb_tail(acc, d2, start, k),
    decreases k,
{
    if p == start + k - 1 {
        lemma_absorb_tail_shift(acc, d1, start, d2, start, (k - 1) as nat);
        law_mix_word_injective_word(absorb_tail(acc, d1, start, (k - 1) as nat), d1[p] as u32, d2[p] as u32);
    } else {
        lemma_tail_differs_at(acc, d1, d2, start, (k - 1) as nat, p);
        law_mix_word_injective_acc(
            absorb_tail(acc, d1, start, (k - 1) as nat),
            absorb_tail(acc, d2, start, (k - 1) as nat),
            d1[start + k - 1] as u32,
        );
    }
}

/// Two inputs of the same length that differ in exactly one of the trailing
/// bytes (those after the last whole word) hash differently, under every seed.
pub proof fn law_one_tail_byte_differs(seed: u32, d1: Seq<u8>, d2: Seq<u8>, p: int)
    requires
        d1.len() == d2.len(),
        4 * (d1.len() / 4) <= p < d1.len(),
        d1[p] != d2[p],
        forall|j: int| 0 <= j < d1.len() && j != p ==> d1[j] == d2[j],
    ensures
        hash_spec(seed, d1) != hash_spec(seed, d2),
{
    let q = d1.len() / 4;
    lemma_absorb_words_prefix(seed, d1, d2, q);
    let w = absorb_words(seed, d1, q);
    let k = (d1.len() % 4) as nat;
    lemma_tail_differs_at(w, d1, d2, 4 * q as int, k, p);
    law_finalize_injective(
        absorb_tail(w, d1, 4 * q as int, k),
        absorb_tail(w, d2, 4 * q as int, k),
        wrap_len(d1.len() as int),
    );
}

/// The hash of a `u32`'s little-endian bytes is one mixing step of the value
/// into the default seed, finalized with length 4.
pub proof fn law_u32_hash_formula(x: u32)
    ensures
        hash_spec(SEED_DEFAULT, le_bytes_u32(x)) == finalize_spec(mix_word_spec(SEED_DEFAULT, x), 4),
{
    law_hash_of_one_word(SEED_DEFAULT, x);
}

/// Hashing `u32` values is injective (and so, on a finite set, a bijection):
/// distinct values have distinct hashes.
pub proof fn law_u32_hash_injective(x: u32, y: u32)
    requires
        x != y,
    ensures
        hash_spec(SEED_DEFAULT, le_bytes_u32(x)) != hash_spec(SEED_DEFAULT, le_bytes_u32(y)),
{
    law_u32_hash_formula(x);
    law_u32_hash_formula(y);
    law_mix_word_injective_word(SEED_DEFAULT, x, y);
    law_finalize_injective(mix_word_spec(SEED_DEFAULT, x), mix_word_spec(SEED_DEFAULT, y), 4);
}

/// The hash of a `u64`'s little-endian bytes mixes the low and then the high
/// 32-bit half into the default seed, finalized with length 8.
pub proof fn law_u64_hash_formula(v: u64)
    ensures
        hash_spec(SEED_DEFAULT, le_bytes_u64(v)) == finalize_spec(
            mix_word_spec(mix_word_spec(SEED_DEFAULT, v as u32), (v >> 32u64) as u32),
            8,
        ),
{
    let d = le_bytes_u64(v);
    assert(le_word(v as u8, (v >> 8u64) as u8, (v >> 16u64) as u8, (v >> 24u64) as u8) == v as u32)
        by (bit_vector);
    assert(le_word((v >> 32u64) as u8, (v >> 40u64) as u8, (v >> 48u64) as u8, (v >> 56u64) as u8)
        == (v >> 32u64) as u32) by (bit_vector);
    assert(word_at(d, 0) == v as u32);
    assert(word_at(d, 4) == (v >> 32u64) as u32);
    assert(absorb_words(SEED_DEFAULT, d, 1) == mix_word_spec(absorb_words(SEED_DEFAULT, d, 0), word_at(d, 0)));
    assert(absorb_words(SEED_DEFAULT, d, 2) == mix_word_spec(absorb_words(SEED_DEFAULT, d, 1), word_at(d, 4)));
    assert(wrap_len(8) == 8);
}

/// Two distinct `u64` values that agree on one 32-bit half hash differently.
pub proof fn law_u64_hash_separates_halves(v1: u64, v2: u64)
    requires
        v1 != v2,
        v1 as u32 == v2 as u32 || v1 >> 32u64 == v2 >> 32u64,
    ensures
        hash_spec(SEED_DEFAULT, le_bytes_u64(v1)) != hash_spec(SEED_DEFAULT, le_bytes_u64(v2)),
{
    law_u64_hash_formula(v1);
    law_u64_hash_formula(v2);
    let lo1 = v1 as u32;
    let lo2 = v2 as u32;
    let hi1 = (v1 >> 32u64) as u32;
    let hi2 = (v2 >> 32u64) as u32;
    assert(lo1 != lo2 || hi1 != hi2) by (bit_vector)
        requires
            v1 != v2,
            lo1 == v1 as u32,
            lo2 == v2 as u32,
            hi1 == (v1 >> 32u64) as u32,
            hi2 == (v2 >> 32u64) as u32,
    ;
    assert((lo1 == lo2) == (v1 as u32 == v2 as u32));
    assert(v1 >> 32u64 == v2 >> 32u64 ==> hi1 == hi2);
    let m1 = mix_word_spec(SEED_DEFAULT, lo1);
    let m2 = mix_word_spec(SEED_DEFAULT, lo2);
    if lo1 == lo2 {
        law_mix_word_injective_word(m1, hi1, hi2);
    } else {
        law_mix_word_injective_word(SEED_DEFAULT, lo1, lo2);
        law_mix_word_injective_acc(m1, m2, hi1);
    }
    law_finalize_injective(mix_word_spec(m1, hi1), mix_word_spec(m2, hi2), 8);
}

} // verus!
