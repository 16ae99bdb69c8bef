use mwhash::{mwhash, mwhash_concat, mwhash_seeded, mwhash_u32, Hasher};

// Verify that the result is the same regardless of how the data is divided into segments
#[test]
fn split_invariant_exhaustive() {
    let data = b"abcdefghij"; // 10 bytes is not a multiple of 4
    let expected = mwhash(data);
    for split in 1..data.len() {
        let mut h = Hasher::new();
        h.update(&data[..split]);
        h.update(&data[split..]);
        assert_eq!(
            h.finish(), expected,
            "split at {split} produces a different result"
        );
    }
}

// Verify that resetting the hasher does not cause contamination using `tail`.
#[test]
fn reset_tail_clean() {
    let mut h = Hasher::new();
    h.update(b"abc");
    h.reset();
    assert_eq!(h.finish(), Hasher::new().finish());

    h.update(b"x");
    assert_eq!(h.finish(), mwhash(b"x"));
}

// The `len` variable overflows silently; the wrapping must not break determinism.
#[test]
fn len_wrapping_is_deterministic() {
    let chunk = &[0xABu8; 256];
    let mut h1 = Hasher::new();
    let mut h2 = Hasher::new();

    for _ in 0..100 {
        h1.update(chunk);
        h2.update(chunk);
    }
    assert_eq!(h1.finish(), h2.finish());
}

// Edge cases of update: an empty slice changes nothing.
#[test]
fn update_empty_slice_is_noop() {
    let mut h = Hasher::new();
    h.update(b"hello");
    let before = h.finish();
    h.update(b"");
    assert_eq!(h.finish(), before);
}

// Identical inputs always yield identical hash outputs.
#[test]
fn deterministic() {
    assert_eq!(mwhash(b"hello"), mwhash(b"hello"));
    assert_eq!(mwhash(b""), mwhash(b""));
}

// Resetting a seeded hasher reverts it to the original custom seed, not the default seed.
#[test]
fn reset_preserves_custom_seed() {
    let custom_seed = 0xDEAD_BEEF;
    let mut h = Hasher::with_seed(custom_seed);
    h.update(b"temporary data");
    h.reset();
    assert_eq!(h.finish(), mwhash_seeded(b"", custom_seed));
    assert_ne!(h.finish(), mwhash(b""));
}

// Minor changes in input give different hash values.
#[test]
fn different_inputs_different_hashes() {
    assert_ne!(mwhash(b"hello"), mwhash(b"world"));
    assert_ne!(mwhash(b"hello"), mwhash(b"Hello"));
    assert_ne!(mwhash(b"abc"), mwhash(b"abd"));
}

// An empty input does not hash to zero.
#[test]
fn empty_not_zero() {
    assert_ne!(mwhash(b""), 0);
}

// The length of the input is factored into the hash.
#[test]
fn length_matters() {
    assert_ne!(mwhash(b"a"), mwhash(b"aa"));
    assert_ne!(mwhash(b"aaa"), mwhash(b"aaaa"));
}

// Hashing piece by piece gives the same result as hashing in one go.
#[test]
fn incremental_equals_one_shot() {
    let expected = mwhash(b"helloworld");
    let mut h = Hasher::new();
    h.update(b"hello");
    h.update(b"world");
    assert_eq!(h.finish(), expected);
}

// Hashing two buffers with the helper equals hashing the joined buffer.
#[test]
fn concat_helper() {
    assert_eq!(mwhash_concat(b"foo", b"bar"), mwhash(b"foobar"));
}

// A custom seed gives a different hash than the default seed.
#[test]
fn seeded_differs_from_default() {
    assert_ne!(mwhash(b"test"), mwhash_seeded(b"test", 0xDEAD_BEEF));
}

// Hashing a u32 directly equals hashing its little-endian bytes.
#[test]
fn u32_helper() {
    assert_eq!(mwhash_u32(42), mwhash(&42u32.to_le_bytes()));
}

// Chained feed() calls equal one-shot hashing.
#[test]
fn feed_chain() {
    assert_eq!(Hasher::new().feed(b"foo").feed(b"bar").finish(), mwhash(b"foobar"));
}

// reset restores the hasher to its initial state.
#[test]
fn reset() {
    let mut h = Hasher::new();
    h.update(b"some data");
    h.reset();
    assert_eq!(h.finish(), Hasher::new().finish());
}

// Changing a single input bit flips many output bits.
#[test]
fn avalanche_single_bit() {
    let a = mwhash(b"\x00\x00\x00\x00");
    let b = mwhash(b"\x01\x00\x00\x00");
    let diff = (a ^ b).count_ones();
    assert!(diff >= 8, "bad avalanche: only {} bits have changed", diff);
}

// All zeros and all ones hash differently.
#[test]
fn all_zeros_vs_all_ones() {
    assert_ne!(mwhash(&[0u8; 32]), mwhash(&[0xFFu8; 32]));
}

// finish() is a checkpoint: more data can follow.
#[test]
fn intermediate_checkpoint() {
    let mut h = Hasher::new();
    h.update(b"prefix");
    let mid = h.finish();
    h.update(b"suffix");
    let full = h.finish();
    assert_ne!(mid, full);
    assert_eq!(mid, mwhash(b"prefix"));
}
