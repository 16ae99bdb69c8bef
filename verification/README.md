# mwhash

A fast, non-cryptographic 32-bit hash over byte slices, with a one-shot API
(`mwhash`, `mwhash_seeded`, `mwhash_u32`, `mwhash_u64`, `mwhash_concat`) and an
incremental `Hasher`, verified with Verus.

- `src/mix.rs`: the constants, the word-mixing step and the finalizer, lemmas
  that unfold them, and their injectivity.
- `src/model.rs`: `hash_spec`, the hash of a byte sequence stated directly, and
  `HasherView` / `absorb`, the byte-at-a-time model of the incremental hasher.
- `src/hasher.rs`: `Hasher`, whose `update` is proved to perform `absorb` and
  whose `finish` is proved to return `finish_spec` of its state.
- `src/laws.rs`: streaming equals one-shot, split invariance, separation of
  seeds, of one-word and one-byte differences and of integer inputs, and the
  other properties that hold across calls.
- `src/lib.rs`: the one-shot functions.
