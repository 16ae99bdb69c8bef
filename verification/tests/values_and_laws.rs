use mwhash::{mwhash, mwhash_concat, mwhash_seeded, mwhash_u32, mwhash_u64, Hasher, SEED_DEFAULT};

#[test]
fn known_values_default_seed() {
    assert_eq!(mwhash(b""), 0x8ec3_1e87);
    assert_eq!(mwhash(b"a"), 0x538f_e714);
    assert_eq!(mwhash(b"abcd"), 0x918a_65dc);
    assert_eq!(mwhash(b"hello"), 0xa156_df88);
    assert_eq!(mwhash(b"foobar"), 0x600f_f6d3);
    assert_eq!(mwhash(b"hello mwhash"), 0xfa2f_72bd);
}

#[test]
fn known_values_seeded() {
    assert_eq!(mwhash_seeded(b"test", 0xDEAD_BEEF), 0xabed_b197);
    assert_eq!(mwhash_seeded(b"", 0x1234_5678), 0xac3e_d710);
    assert_eq!(mwhash_seeded(b"hello", SEED_DEFAULT), mwhash(b"hello"));
}

#[test]
fn known_values_integers() {
    assert_eq!(mwhash_u32(42), 0x11e9_bd71);
    assert_eq!(mwhash_u64(0x0123_4567_89AB_CDEF), 0x38a6_4969);
    assert_eq!(mwhash_u64(0x0123_4567_89AB_CDEF), mwhash(&0x0123_4567_89AB_CDEFu64.to_le_bytes()));
    assert_ne!(mwhash_u64(42), mwhash_u32(42));
}

#[test]
fn string_seed_is_hash_of_its_bytes() {
    let s = "My-SID";
    let mut h = Hasher::with_string_seed(s);
    h.update(b"data");
    assert_eq!(h.finish(), 0x0480_b198);
    assert_eq!(h.finish(), mwhash_seeded(b"data", mwhash(s.as_bytes())));
    assert_eq!(mwhash("héllo".as_bytes()), 0x847f_a333);
    let mut g = Hasher::with_string_seed("héllo");
    assert_eq!(g.finish(), mwhash_seeded(b"", 0x847f_a333));
    g.reset_with_string_seed(s);
    g.update(b"data");
    assert_eq!(g.finish(), 0x0480_b198);
}

#[test]
fn reset_with_seed_equals_fresh() {
    let mut h = Hasher::new();
    h.update(b"abcdefg");
    h.reset_with_seed(0x1234_5678);
    assert_eq!(h.finish(), mwhash_seeded(b"", 0x1234_5678));
    h.update(b"data2");
    assert_eq!(h.finish(), mwhash_seeded(b"data2", 0x1234_5678));
    h.reset();
    assert_eq!(h.finish(), mwhash_seeded(b"", 0x1234_5678));
}

#[test]
fn default_equals_new() {
    let mut d = Hasher::default();
    d.update(b"xyz");
    assert_eq!(d.finish(), mwhash(b"xyz"));
}

#[test]
fn split_from_any_state_and_seed() {
    let data = b"the quick brown fox jumps";
    for seed in [0u32, 1, 0xDEAD_BEEF, SEED_DEFAULT] {
        let expected = mwhash_seeded(data, seed);
        for a in 0..=data.len() {
            for b in a..=data.len() {
                let mut h = Hasher::with_seed(seed);
                h.update(&data[..a]);
                h.update(&data[a..b]);
                h.update(&data[b..]);
                assert_eq!(h.finish(), expected);
            }
        }
    }
}

#[test]
fn byte_by_byte_equals_one_shot() {
    let data = b"0123456789abcdefXYZ";
    let mut h = Hasher::new();
    for i in 0..data.len() {
        h.update(&data[i..i + 1]);
        assert_eq!(h.finish(), mwhash(&data[..i + 1]));
    }
}

#[test]
fn concat_equals_joined_at_every_split() {
    let data = b"abcdefghijk";
    for i in 0..=data.len() {
        assert_eq!(mwhash_concat(&data[..i], &data[i..]), mwhash(data));
    }
}

#[test]
fn feed_updates_the_hasher_in_place() {
    let mut h = Hasher::with_seed(7);
    h.feed(b"ab").feed(b"cde");
    assert_eq!(h.finish(), mwhash_seeded(b"abcde", 7));
}

#[test]
fn clone_keeps_the_state() {
    let mut h = Hasher::new();
    h.update(b"abcdef");
    let mut c = h.clone();
    c.update(b"gh");
    h.update(b"gh");
    assert_eq!(c.finish(), h.finish());
    assert_eq!(c.finish(), mwhash(b"abcdefgh"));
}

#[test]
fn length_is_mixed_modulo_two_to_the_32() {
    // The pending-byte path and the word path both count every byte.
    assert_ne!(mwhash(&[0u8; 3]), mwhash(&[0u8; 4]));
    assert_ne!(mwhash(&[0u8; 4]), mwhash(&[0u8; 8]));
}

#[test]
fn distinct_seeds_give_distinct_hashes() {
    for data in [&b""[..], b"a", b"abcd", b"hello world"] {
        let seeds = [0u32, 1, 2, 0xFFFF_FFFF, SEED_DEFAULT, 0xDEAD_BEEF];
        for (i, s1) in seeds.iter().enumerate() {
            for s2 in &seeds[i + 1..] {
                assert_ne!(mwhash_seeded(data, *s1), mwhash_seeded(data, *s2));
            }
        }
    }
}

#[test]
fn one_word_block_differs() {
    let base = *b"abcdefghijklm";
    let mut other = base;
    other[4] = b'X';
    other[6] = b'Y';
    assert_ne!(mwhash(&base), mwhash(&other));
    let mut other2 = base;
    other2[11] = b'Z';
    assert_ne!(mwhash(&base), mwhash(&other2));
}

#[test]
fn one_trailing_byte_differs() {
    let base = *b"abcdefghij";
    for p in 8..10 {
        for v in [0u8, 1, 0x7F, 0xFF] {
            let mut other = base;
            if other[p] == v {
                continue;
            }
            other[p] = v;
            assert_ne!(mwhash_seeded(&base, 3), mwhash_seeded(&other, 3));
        }
    }
}

#[test]
fn u32_hashes_are_distinct() {
    let mut seen = std::collections::HashSet::new();
    for x in 0u32..20000 {
        assert!(seen.insert(mwhash_u32(x)));
    }
    assert!(seen.insert(mwhash_u32(u32::MAX)));
}

#[test]
fn u64_values_sharing_a_half_are_distinct() {
    let base = 0x0123_4567_89AB_CDEFu64;
    for d in 1u64..200 {
        assert_ne!(mwhash_u64(base), mwhash_u64(base ^ d));
        assert_ne!(mwhash_u64(base), mwhash_u64(base ^ (d << 32)));
    }
}
