//! The mathematical model of the hash.
//!
//! `hash_spec` states the hash of a byte sequence directly: the complete
//! little-endian 32-bit words are mixed into the seed in order, the remaining
//! (at most three) bytes are mixed one by one, and the result is finalized
//! together with the input length modulo 2^32.
//!
//! `HasherView` is the state of the incremental hasher, and `absorb` the
//! byte-at-a-time transition that `Hasher::update` performs on it.
use vstd::prelude::*;
use crate::mix::{mix_word_spec, finalize_spec};

verus! {

/// The little-endian 32-bit word made of four bytes.
pub open spec fn le_word(b0: u8, b1: u8, b2: u8, b3: u8) -> u32 {
    (b0 as u32) | ((b1 as u32) << 8u32) | ((b2 as u32) << 16u32) | ((b3 as u32) << 24u32)
}

/// The four little-endian bytes of `v`.
pub open spec fn le_bytes_u32(v: u32) -> Seq<u8> {
    seq![v as u8, (v >> 8u32) as u8, (v >> 16u32) as u8, (v >> 24u32) as u8]
}

/// The eight little-endian bytes of `v`.
pub open spec fn le_bytes_u64(v: u64) -> Seq<u8> {
    seq![
        v as u8, (v >> 8u64) as u8, (v >> 16u64) as u8, (v >> 24u64) as u8,
        (v >> 32u64) as u8, (v >> 40u64) as u8, (v >> 48u64) as u8, (v >> 56u64) as u8,
    ]
}

/// The little-endian word stored at byte offset `i` of `s`.
pub open spec fn word_at(s: Seq<u8>, i: int) -> u32 {
    le_word(s[i], s[i + 1], s[i + 2], s[i + 3])
}

/// The accumulator after mixing the first `n` complete words of `s` into `acc`.
pub open spec fn absorb_words(acc: u32, s: Seq<u8>, n: nat) -> u32
    decreases n,
{
    if n == 0 {
        acc
    } else {
        mix_word_spec(absorb_words(acc, s, (n - 1) as nat), word_at(s, 4 * (n - 1)))
    }
}

/// The accumulator after mixing the `k` bytes `s[start..start + k]` one by one.
pub open spec fn absorb_tail(acc: u32, s: Seq<u8>, start: int, k: nat) -> u32
    decreases k,
{
    if k == 0 {
        acc
    } else {
        mix_word_spec(absorb_tail(acc, s, start, (k - 1) as nat), s[start + k - 1] as u32)
    }
}

/// `n` reduced modulo 2^32.
pub open spec fn wrap_len(n: int) -> u32 {
    (n % 0x1_0000_0000) as u32
}

/// The hash of `data` under `seed`.
pub open spec fn hash_spec(seed: u32, data: Seq<u8>) -> u32 {
    let q = data.len() / 4;
    let acc = absorb_words(seed, data, q);
    let acc = absorb_tail(acc, data, 4 * q as int, (data.len() % 4) as nat);
    finalize_spec(acc, wrap_len(data.len() as int))
}

/// The state of an incremental hasher: the running accumulator, the seed it
/// restarts from, the number of bytes absorbed modulo 2^32, and the bytes of
/// the current incomplete word.
pub struct HasherView {
    pub acc: u32,
    pub seed: u32,
    pub len: u32,
    pub pending: Seq<u8>,
}

impl HasherView {
    /// A state that a hasher can be in: at most three bytes are pending.
    pub open spec fn wf(self) -> bool {
        self.pending.len() < 4
    }
}

/// The state of a hasher that was just created, or reset, with `seed`.
pub open spec fn initial(seed: u32) -> HasherView {
    HasherView { acc: seed, seed, len: 0, pending: Seq::empty() }
}

/// Absorbing one byte: it joins the pending bytes, and once four are pending
/// they are mixed into the accumulator as one little-endian word.
pub open spec fn absorb_byte(v: HasherView, b: u8) -> HasherView {
    let len = wrap_len(v.len + 1);
    if v.pending.len() == 3 {
        HasherView {
            acc: mix_word_spec(v.acc, le_word(v.pending[0], v.pending[1], v.pending[2], b)),
            seed: v.seed,
            len,
            pending: Seq::empty(),
        }
    } else {
        HasherView { acc: v.acc, seed: v.seed, len, pending: v.pending.push(b) }
    }
}

/// Absorbing a byte sequence, one byte after the other.
pub open spec fn absorb(v: HasherView, s: Seq<u8>) -> HasherView
    decreases s.len(),
{
    if s.len() == 0 {
        v
    } else {
        absorb_byte(absorb(v, s.drop_last()), s.last())
    }
}

/// What `Hasher::finish` returns in state `v`: the pending bytes are mixed one
/// by one into a copy of the accumulator, which is then finalized.
pub open spec fn finish_spec(v: HasherView) -> u32 {
    finalize_spec(absorb_tail(v.acc, v.pending, 0, v.pending.len()), v.len)
}

/// The state reached by absorbing `s` in state `v`, described in one step:
/// all complete words of `v.pending + s` are mixed, the rest stays pending.
pub open spec fn absorb_closed(v: HasherView, s: Seq<u8>) -> HasherView {
    let all = v.pending + s;
    let q = all.len() / 4;
    HasherView {
        acc: absorb_words(v.acc, all, q),
        seed: v.seed,
        len: wrap_len(v.len + s.len()),
        pending: all.subrange(4 * q as int, all.len() as int),
    }
}

/// `absorb_words` reads only the first `4 * n` bytes.
pub proof fn lemma_absorb_words_prefix(acc: u32, s: Seq<u8>, t: Seq<u8>, n: nat)
    requires
        4 * n <= s.len(),
        4 * n <= t.len(),
        forall|i: int| 0 <= i < 4 * n ==> s[i] == t[i],
    ensures
        absorb_words(acc, s, n) == absorb_words(acc, t, n),
    decreases n,
{
    if n > 0 {
        lemma_absorb_words_prefix(acc, s, t, (n - 1) as nat);
        let k = 4 * (n - 1);
        assert(s[k] == t[k] && s[k + 1] == t[k + 1] && s[k + 2] == t[k + 2] && s[k + 3] == t[k + 3]);
    }
}

/// `absorb_tail` reads only the bytes `s[start..start + k]`.
pub proof fn lemma_absorb_tail_shift(acc: u32, s: Seq<u8>, start: int, t: Seq<u8>, tstart: int, k: nat)
    requires
        forall|i: int| start <= i < start + k ==> #[trigger] s[i] == t[tstart + (i - start)],
    ensures
        absorb_tail(acc, s, start, k) == absorb_tail(acc, t, tstart, k),
    decreases k,
{
    if k > 0 {
        lemma_absorb_tail_shift(acc, s, start, t, tstart, (k - 1) as nat);
        assert(s[start + k - 1] == t[tstart + k - 1]);
    }
}

proof fn lemma_wrap_len_succ(a: int, n: int)
    requires
        0 <= a,
        0 <= n,
    ensures
        wrap_len(wrap_len(a + n) + 1) == wrap_len(a + n + 1),
{
    vstd::arithmetic::div_mod::lemma_add_mod_noop(a + n, 1, 0x1_0000_0000);
    vstd::arithmetic::div_mod::lemma_mod_twice(a + n, 0x1_0000_0000);
}

/// Absorbing byte by byte reaches the state that `absorb_closed` describes.
pub proof fn lemma_absorb_closed(v: HasherView, s: Seq<u8>)
    requires
        v.wf(),
    ensures
        absorb(v, s) == absorb_closed(v, s),
        absorb(v, s).wf(),
    decreases s.len(),
{
    if s.len() == 0 {
        assert(v.pending + s =~= v.pending);
        assert(v.pending.subrange(0, v.pending.len() as int) =~= v.pending);
        assert(wrap_len(v.len + 0) == v.len);
    } else {
        let s0 = s.drop_last();
        let b = s.last();
        lemma_absorb_closed(v, s0);
        let w = absorb(v, s0);
        let all0 = v.pending + s0;
        let all = v.pending + s;
        assert(all =~= all0.push(b));
        let q0 = all0.len() / 4;
        let q = all.len() / 4;
        lemma_wrap_len_succ(v.len as int, s0.len() as int);
        assert(w.pending.len() == all0.len() - 4 * q0);
        if w.pending.len() == 3 {
            assert(q == q0 + 1);
            lemma_absorb_words_prefix(v.acc, all, all0, q0);
            assert(word_at(all, 4 * q0 as int) == le_word(w.pending[0], w.pending[1], w.pending[2], b));
            assert(all.subrange(4 * q as int, all.len() as int) =~= Seq::<u8>::empty());
        } else {
            assert(q == q0);
            lemma_absorb_words_prefix(v.acc, all, all0, q0);
            assert(all.subrange(4 * q as int, all.len() as int) =~= w.pending.push(b));
        }
    }
}

} // verus!
