# sha_blocks

The block functions of SHA-1 and of the SHA-2 family (FIPS 180-4), written in
Verus and proved equal to the mathematical definitions of the standard.

- `src/digest/sha2.rs`: the word traits `Word` and `Sha2` with their
  implementations for `u32` (SHA-224/256) and `u64` (SHA-384/512); the
  functions `Ch`, `Maj`, `Σ0`, `Σ1`, `σ0`, `σ1`; the message schedule, the
  compression function and the block functions, each with a contract over the
  spec functions `spec_schedule_word`, `spec_rounds`, `spec_compress` and
  `spec_block_data_order`; and the proof functions (`lemma_*`) that state the
  laws of these functions.
- `src/digest/sha1.rs`: the SHA-1 message schedule, its four stretches of
  twenty rounds and its block function, with the same kind of contracts.
- `tests/`: the examples of FIPS 180-4 and further tests on concrete values.

Words are plain `u32`/`u64` with wrapping addition; blocks are given as
sixteen big-endian byte groups.
