//! The incremental hasher.
use vstd::prelude::*;
use crate::mix::{SEED_DEFAULT, mix_word, mix_byte, finalize, mix_word_spec, finalize_spec};
use crate::model::{
    HasherView, absorb, hash_spec, absorb_words, absorb_tail, finish_spec, initial, le_word,
    word_at, wrap_len, lemma_absorb_closed, lemma_absorb_words_prefix,
};

verus! {

/// An incremental hasher: bytes can be fed in chunks of any size, and the
/// result depends only on the concatenation of the chunks.
#[derive(Clone, Copy, Debug)]
pub struct Hasher {
    acc: u32,
    seed: u32,
    len: u32,
    tail: [u8; 4],
    tail_len: usize,
}

impl View for Hasher {
    type V = HasherView;

    closed spec fn view(&self) -> HasherView {
        HasherView {
            acc: self.acc,
            seed: self.seed,
            len: self.len,
            pending: self.tail@.subrange(0, self.tail_len as int),
        }
    }
}

impl Hasher {
    /// At most three bytes wait for the next word.
    #[verifier::type_invariant]
    spec fn tail_fits(self) -> bool {
        self.tail_len < 4
    }

    /// A hasher with the default seed and no input.
    pub fn new() -> (h: Self)
        ensures
            h@ == initial(SEED_DEFAULT),
            h@.acc == SEED_DEFAULT,
            h@.seed == SEED_DEFAULT,
            h@.len == 0,
            h@.pending.len() == 0,
    {
        let h = Hasher { acc: SEED_DEFAULT, seed: SEED_DEFAULT, len: 0, tail: [0; 4], tail_len: 0 };
        assert(h@.pending =~= Seq::<u8>::empty());
        h
    }

    /// A hasher with the given seed and no input.
    pub fn with_seed(seed: u32) -> (h: Self)
        ensures
            h@ == initial(seed),
            h@.acc == seed,
            h@.seed == seed,
            h@.len == 0,
            h@.pending.len() == 0,
    {
        let h = Hasher { acc: seed, seed, len: 0, tail: [0; 4], tail_len: 0 };
        assert(h@.pending =~= Seq::<u8>::empty());
        h
    }

    /// Absorbs `data`: first the pending word is completed, then whole
    /// words are mixed straight from `data`, and the last bytes stay pending.
    pub fn update(&mut self, data: &[u8])
        ensures
            final(self)@ == absorb(old(self)@, data@),
            final(self)@.seed == old(self)@.seed,
            final(self)@.len == (old(self)@.len + data@.len()) % 0x1_0000_0000,
            data@.len() == 0 ==> final(self)@ == old(self)@,
            old(self)@.pending.len() + data@.len() < 4 ==> final(self)@.acc == old(self)@.acc
                && final(self)@.pending == old(self)@.pending + data@,
            old(self)@.pending.len() + data@.len() == 4 ==> final(self)@.acc == mix_word_spec(
                old(self)@.acc,
                word_at(old(self)@.pending + data@, 0),
            ) && final(self)@.pending.len() == 0,
    {
        proof {
            use_type_invariant(&*self);
        }
        let ghost v = self@;
        let ghost acc0 = self.acc;
        let ghost pending0 = v.pending;
        let n = data.len();
        let seed = self.seed;
        let mut acc = self.acc;
        let mut tail = self.tail;
        let mut tail_len = self.tail_len;
        let mut i: usize = 0;

        proof {
            assert(((n as u32) as u64) == (n as u64) % 0x1_0000_0000u64) by (bit_vector);
            vstd::arithmetic::div_mod::lemma_add_mod_noop(v.len as int, n as int, 0x1_0000_0000);
        }
        let len = self.len.wrapping_add(n as u32);
        assert(len == wrap_len(v.len + data@.len()));

        if tail_len > 0 {
            while tail_len < 4 && i < n
                invariant
                    0 < tail_len <= 4,
                    i <= n,
                    n == data@.len(),
                    tail_len == pending0.len() + i,
                    forall|j: int| 0 <= j < tail_len ==> tail@[j] == (pending0 + data@.take(i as int))[j],
                decreases n - i,
            {
                tail[tail_len] = data[i];
                proof {
                    let p = pending0 + data@.take(i as int);
                    let p1 = pending0 + data@.take(i + 1);
                    assert forall|j: int| 0 <= j < tail_len + 1 implies tail@[j] == p1[j] by {
                        if j < tail_len {
                            assert(p[j] == p1[j]);
                        }
                    }
                }
                tail_len += 1;
                i += 1;
            }
            if tail_len == 4 {
                let word = le_bytes_word(tail[0], tail[1], tail[2], tail[3]);
                proof {
                    let p = pending0 + data@.take(i as int);
                    assert(word == word_at(p, 0));
                    assert(absorb_words(acc0, p, 1) == mix_word_spec(absorb_words(acc0, p, 0), word_at(p, 0)));
                }
                acc = mix_word(acc, word);
                tail_len = 0;
            }
        }

        while n - i >= 4
            invariant
                i <= n,
                n == data@.len(),
                tail_len < 4,
                tail_len == (pending0.len() + i) % 4,
                acc == absorb_words(acc0, pending0 + data@.take(i as int), (pending0.len() + i) as nat / 4),
                forall|j: int| 0 <= j < tail_len ==> #[trigger] tail@[j]
                    == (pending0 + data@.take(i as int))[4 * ((pending0.len() + i) / 4) + j],
                tail_len == 0 || i == n,
            decreases n - i,
        {
            let word = le_bytes_word(data[i], data[i + 1], data[i + 2], data[i + 3]);
            proof {
                let p = pending0 + data@.take(i as int);
                let p1 = pending0 + data@.take(i + 4);
                let k: int = (p.len() / 4) as int;
                assert(p1.len() / 4 == k + 1);
                assert forall|t: int| 0 <= t < 4 * k implies p1[t] == p[t] by {}
                lemma_absorb_words_prefix(acc0, p1, p, k as nat);
                assert(p1[4 * k] == data@[i as int]);
                assert(p1[4 * k + 1] == data@[i + 1]);
                assert(p1[4 * k + 2] == data@[i + 2]);
                assert(p1[4 * k + 3] == data@[i + 3]);
                assert(word == word_at(p1, 4 * k));
            }
            acc = mix_word(acc, word);
            i += 4;
        }

        if i < n {
            let r = n - i;
            let ghost i0 = i;
            let mut k: usize = 0;
            while k < r
                invariant
                    i0 == i,
                    i + r == n,
                    r < 4,
                    k <= r,
                    n == data@.len(),
                    forall|j: int| 0 <= j < k ==> #[trigger] tail@[j] == data@[i + j],
                decreases r - k,
            {
                tail[k] = data[i + k];
                k += 1;
            }
            proof {
                let p = pending0 + data@.take(i as int);
                let p1 = pending0 + data@.take(n as int);
                let q: int = (p.len() / 4) as int;
                assert(p1.len() / 4 == q);
                assert forall|t: int| 0 <= t < 4 * q implies p1[t] == p[t] by {}
                lemma_absorb_words_prefix(acc0, p1, p, q as nat);
                assert forall|j: int| 0 <= j < r implies #[trigger] tail@[j] == p1[4 * q + j] by {
                    assert(p1[4 * q + j] == data@[i + j]);
                }
            }
            tail_len = r;
            i = n;
        }
        proof {
            let all = pending0 + data@;
            assert(data@.take(n as int) =~= data@);
            let q = all.len() / 4;
            assert(tail@.subrange(0, tail_len as int) =~= all.subrange(4 * q as int, all.len() as int));
            lemma_absorb_closed(v, data@);
            assert(absorb_words(acc0, all, 1) == mix_word_spec(absorb_words(acc0, all, 0), word_at(all, 0)));
            if data@.len() == 0 {
                assert(all =~= pending0);
            }
        }
        *self = Hasher { acc, seed, len, tail, tail_len };
    }

    /// Absorbs `data` and hands the hasher back, so that calls can be chained.
    pub fn feed(&mut self, data: &[u8]) -> (r: &mut Self)
        ensures
            (*r)@ == absorb(old(self)@, data@),
            (*r)@.seed == old(self)@.seed,
            *final(self) == *final(r),
    {
        self.update(data);
        self
    }

    /// The hash of everything absorbed so far; the hasher is left unchanged,
    /// so more input can follow.
    pub fn finish(&self) -> (r: u32)
        ensures
            r == finish_spec(self@),
            self@.pending.len() == 0 ==> r == finalize_spec(self@.acc, self@.len),
            self@.pending.len() == 1 ==> r == finalize_spec(
                mix_word_spec(self@.acc, self@.pending[0] as u32),
                self@.len,
            ),
            self@.pending.len() == 2 ==> r == finalize_spec(
                mix_word_spec(mix_word_spec(self@.acc, self@.pending[0] as u32), self@.pending[1] as u32),
                self@.len,
            ),
            self@.pending.len() == 3 ==> r == finalize_spec(
                mix_word_spec(
                    mix_word_spec(mix_word_spec(self@.acc, self@.pending[0] as u32), self@.pending[1] as u32),
                    self@.pending[2] as u32,
                ),
                self@.len,
            ),
    {
        proof {
            use_type_invariant(self);
        }
        let mut cur = self.acc;
        let mut i: usize = 0;
        while i < self.tail_len
            invariant
                i <= self.tail_len,
                self.tail_len < 4,
                cur == absorb_tail(self.acc, self@.pending, 0, i as nat),
            decreases self.tail_len - i,
        {
            cur = mix_byte(cur, self.tail[i]);
            i += 1;
        }
        proof {
            reveal_with_fuel(absorb_tail, 4);
        }
        finalize(cur, self.len)
    }

    /// Returns to the state right after creation with the current seed.
    pub fn reset(&mut self)
        ensures
            final(self)@ == initial(old(self)@.seed),
            final(self)@.acc == old(self)@.seed,
            final(self)@.seed == old(self)@.seed,
            final(self)@.len == 0,
            final(self)@.pending.len() == 0,
    {
        *self = Hasher { acc: self.seed, seed: self.seed, len: 0, tail: self.tail, tail_len: 0 };
        assert(self@.pending =~= Seq::<u8>::empty());
    }

    /// Returns to the state right after creation with `seed`.
    pub fn reset_with_seed(&mut self, seed: u32)
        ensures
            final(self)@ == initial(seed),
            final(self)@.acc == seed,
            final(self)@.seed == seed,
            final(self)@.len == 0,
            final(self)@.pending.len() == 0,
    {
        *self = Hasher { acc: seed, seed, len: 0, tail: self.tail, tail_len: 0 };
        assert(self@.pending =~= Seq::<u8>::empty());
    }

    /// A hasher whose seed is the hash of the UTF-8 bytes of `seed`.
    pub fn with_string_seed(seed: &str) -> (h: Self)
        ensures
            h@ == initial(hash_spec(SEED_DEFAULT, vstd::utf8::encode_utf8(seed@))),
            h@.acc == hash_spec(SEED_DEFAULT, vstd::utf8::encode_utf8(seed@)),
            h@.seed == hash_spec(SEED_DEFAULT, vstd::utf8::encode_utf8(seed@)),
            h@.len == 0,
            h@.pending.len() == 0,
    {
        let seed = crate::mwhash(seed.as_bytes());
        Self::with_seed(seed)
    }

    /// Resets to the state right after creation with the string seed `seed`.
    pub fn reset_with_string_seed(&mut self, seed: &str)
        ensures
            final(self)@ == initial(hash_spec(SEED_DEFAULT, vstd::utf8::encode_utf8(seed@))),
            final(self)@.acc == hash_spec(SEED_DEFAULT, vstd::utf8::encode_utf8(seed@)),
            final(self)@.seed == hash_spec(SEED_DEFAULT, vstd::utf8::encode_utf8(seed@)),
            final(self)@.len == 0,
            final(self)@.pending.len() == 0,
    {
        let seed = crate::mwhash(seed.as_bytes());
        self.reset_with_seed(seed);
    }
}

impl Default for Hasher {
    /// The same as `Hasher::new`.
    fn default() -> (h: Self)
        ensures
            h@ == initial(SEED_DEFAULT),
            h@.acc == SEED_DEFAULT,
            h@.seed == SEED_DEFAULT,
            h@.len == 0,
            h@.pending.len() == 0,
    {
        Self::new()
    }
}

/// The little-endian word of four bytes.
fn le_bytes_word(b0: u8, b1: u8, b2: u8, b3: u8) -> (w: u32)
    ensures
        w == le_word(b0, b1, b2, b3),
{
    (b0 as u32) | ((b1 as u32) << 8u32) | ((b2 as u32) << 16u32) | ((b3 as u32) << 24u32)
}

} // verus!
