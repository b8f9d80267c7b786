//! The SHA-2 block function (FIPS 180-4, sections 4.1.2, 4.1.3, 4.2.2, 4.2.3,
//! 6.2.2 and 6.4.2), generic over the word type: `u32` gives SHA-256 (and
//! SHA-224), `u64` gives SHA-512 (and SHA-384).
use vstd::prelude::*;

verus! {

/// The largest number of rounds of any SHA-2 function (SHA-512 has 80).
pub const MAX_ROUNDS: usize = 80;

/// Number of words in the SHA-2 chaining state.
pub const CHAINING_WORDS: usize = 8;

/// Big-endian value of four bytes.
pub open spec fn be_value32(b: [u8; 4]) -> int {
    b[0] as int * 0x100_0000 + b[1] as int * 0x1_0000 + b[2] as int * 0x100 + b[3] as int
}

/// Big-endian value of eight bytes.
pub open spec fn be_value64(b: [u8; 8]) -> int {
    b[0] as int * 0x100_0000_0000_0000 + b[1] as int * 0x1_0000_0000_0000
        + b[2] as int * 0x100_0000_0000 + b[3] as int * 0x1_0000_0000 + b[4] as int * 0x100_0000
        + b[5] as int * 0x1_0000 + b[6] as int * 0x100 + b[7] as int
}

/// Right rotation of a 32-bit word, FIPS 180-4 section 3.2: `(x >> n) | (x << (32 - n))`,
/// with the count taken modulo the word size.
pub open spec fn rotr32(x: u32, count: u32) -> u32 {
    let n = count % 32;
    (x >> n) | (x << ((32 - n) % 32) as u32)
}

/// Right rotation of a 64-bit word, FIPS 180-4 section 3.2.
pub open spec fn rotr64(x: u64, count: u32) -> u64 {
    let n = count % 64;
    (x >> n) | (x << ((64 - n) % 64) as u64)
}

/// Commonality between SHA-1 and SHA-2 words: arithmetic modulo `2^w` and the
/// bitwise operations of FIPS 180-4 section 2.2.2.
pub trait Word: 'static + Sized + Copy {
    const ZERO: Self;

    type InputBytes: Copy;

    /// Addition modulo `2^w`.
    spec fn spec_add(a: Self, b: Self) -> Self;

    spec fn spec_and(a: Self, b: Self) -> Self;

    spec fn spec_or(a: Self, b: Self) -> Self;

    spec fn spec_not(a: Self) -> Self;

    /// The word whose big-endian encoding is `input`.
    spec fn spec_from_be_bytes(input: Self::InputBytes) -> Self;

    /// Rotation to the right by `count` bits.
    spec fn spec_rotr(x: Self, count: u32) -> Self;

    fn wrapping_add(self, other: Self) -> (r: Self)
        ensures
            r == Self::spec_add(self, other),
    ;

    fn bitand(self, other: Self) -> (r: Self)
        ensures
            r == Self::spec_and(self, other),
    ;

    fn bitor(self, other: Self) -> (r: Self)
        ensures
            r == Self::spec_or(self, other),
    ;

    fn not(self) -> (r: Self)
        ensures
            r == Self::spec_not(self),
    ;

    fn from_be_bytes(input: Self::InputBytes) -> (r: Self)
        ensures
            r == Self::spec_from_be_bytes(input),
    ;

    fn rotr(self, count: u32) -> (r: Self)
        ensures
            r == Self::spec_rotr(self, count),
    ;
}

/// A SHA-2 input word, with the shift amounts of the four sigma functions and
/// the round constants of its hash function.
pub trait Sha2: Word {
    const BIG_SIGMA_0: (u32, u32, u32);

    const BIG_SIGMA_1: (u32, u32, u32);

    const SMALL_SIGMA_0: (u32, u32, usize);

    const SMALL_SIGMA_1: (u32, u32, usize);

    spec fn spec_xor(a: Self, b: Self) -> Self;

    /// Right shift by `n` bits (taken modulo the word size).
    spec fn spec_shr(x: Self, n: usize) -> Self;

    /// The round constants `K_0, ..., K_{rounds-1}`.
    spec fn spec_k() -> Seq<Self>;

    fn bitxor(self, other: Self) -> (r: Self)
        ensures
            r == Self::spec_xor(self, other),
    ;

    fn shr(self, n: usize) -> (r: Self)
        ensures
            r == Self::spec_shr(self, n),
    ;

    fn k() -> (r: &'static [Self])
        ensures
            r@ == Self::spec_k(),
            16 <= r@.len() <= MAX_ROUNDS,
    ;
}

/// Big-endian decoding of four bytes.
pub fn u32_from_be_bytes(input: [u8; 4]) -> (r: u32)
    ensures
        r as int == be_value32(input),
{
    let b0 = input[0];
    let b1 = input[1];
    let b2 = input[2];
    let b3 = input[3];
    assert(((b0 as u32) << 24u32 | (b1 as u32) << 16u32 | (b2 as u32) << 8u32 | (b3 as u32))
        == b0 as int * 0x100_0000 + b1 as int * 0x1_0000 + b2 as int * 0x100 + b3 as int)
        by (bit_vector);
    (b0 as u32) << 24u32 | (b1 as u32) << 16u32 | (b2 as u32) << 8u32 | (b3 as u32)
}

/// Big-endian decoding of eight bytes.
pub fn u64_from_be_bytes(input: [u8; 8]) -> (r: u64)
    ensures
        r as int == be_value64(input),
{
    let b0 = input[0];
    let b1 = input[1];
    let b2 = input[2];
    let b3 = input[3];
    let b4 = input[4];
    let b5 = input[5];
    let b6 = input[6];
    let b7 = input[7];
    assert(((b0 as u64) << 56u64 | (b1 as u64) << 48u64 | (b2 as u64) << 40u64 | (b3 as u64)
        << 32u64 | (b4 as u64) << 24u64 | (b5 as u64) << 16u64 | (b6 as u64) << 8u64
        | (b7 as u64)) == b0 as int * 0x100_0000_0000_0000 + b1 as int * 0x1_0000_0000_0000
        + b2 as int * 0x100_0000_0000 + b3 as int * 0x1_0000_0000 + b4 as int * 0x100_0000
        + b5 as int * 0x1_0000 + b6 as int * 0x100 + b7 as int) by (bit_vector);
    (b0 as u64) << 56u64 | (b1 as u64) << 48u64 | (b2 as u64) << 40u64 | (b3 as u64) << 32u64
        | (b4 as u64) << 24u64 | (b5 as u64) << 16u64 | (b6 as u64) << 8u64 | (b7 as u64)
}

impl Word for u32 {
    const ZERO: Self = 0;

    type InputBytes = [u8; 4];

    open spec fn spec_add(a: Self, b: Self) -> Self {
        vstd::wrapping::u32_specs::wrapping_add(a, b)
    }

    open spec fn spec_and(a: Self, b: Self) -> Self {
        a & b
    }

    open spec fn spec_or(a: Self, b: Self) -> Self {
        a | b
    }

    open spec fn spec_not(a: Self) -> Self {
        !a
    }

    open spec fn spec_from_be_bytes(input: [u8; 4]) -> Self {
        be_value32(input) as u32
    }

    open spec fn spec_rotr(x: Self, count: u32) -> Self {
        rotr32(x, count)
    }

    fn wrapping_add(self, other: Self) -> (r: Self) {
        u32::wrapping_add(self, other)
    }

    fn bitand(self, other: Self) -> (r: Self) {
        self & other
    }

    fn bitor(self, other: Self) -> (r: Self) {
        self | other
    }

    fn not(self) -> (r: Self) {
        !self
    }

    fn from_be_bytes(input: [u8; 4]) -> (r: Self) {
        u32_from_be_bytes(input)
    }

    fn rotr(self, count: u32) -> (r: Self) {
        let n = count % 32;
        (self >> n) | (self << ((32 - n) % 32))
    }
}

impl Word for u64 {
    const ZERO: Self = 0;

    type InputBytes = [u8; 8];

    open spec fn spec_add(a: Self, b: Self) -> Self {
        vstd::wrapping::u64_specs::wrapping_add(a, b)
    }

    open spec fn spec_and(a: Self, b: Self) -> Self {
        a & b
    }

    open spec fn spec_or(a: Self, b: Self) -> Self {
        a | b
    }

    open spec fn spec_not(a: Self) -> Self {
        !a
    }

    open spec fn spec_from_be_bytes(input: [u8; 8]) -> Self {
        be_value64(input) as u64
    }

    open spec fn spec_rotr(x: Self, count: u32) -> Self {
        rotr64(x, count)
    }

    fn wrapping_add(self, other: Self) -> (r: Self) {
        u64::wrapping_add(self, other)
    }

    fn bitand(self, other: Self) -> (r: Self) {
        self & other
    }

    fn bitor(self, other: Self) -> (r: Self) {
        self | other
    }

    fn not(self) -> (r: Self) {
        !self
    }

    fn from_be_bytes(input: [u8; 8]) -> (r: Self) {
        u64_from_be_bytes(input)
    }

    fn rotr(self, count: u32) -> (r: Self) {
        let n = count % 64;
        (self >> n) | (self << ((64 - n) % 64) as u64)
    }
}

/// SHA-224 and SHA-256 round constants, FIPS 180-4 section 4.2.2.
pub const K256: [u32; 64] = [
    0x428a2f98, 0x71374491, 0xb5c0fbcf, 0xe9b5dba5, 0x3956c25b, 0x59f111f1, 0x923f82a4, 0xab1c5ed5,
    0xd807aa98, 0x12835b01, 0x243185be, 0x550c7dc3, 0x72be5d74, 0x80deb1fe, 0x9bdc06a7, 0xc19bf174,
    0xe49b69c1, 0xefbe4786, 0x0fc19dc6, 0x240ca1cc, 0x2de92c6f, 0x4a7484aa, 0x5cb0a9dc, 0x76f988da,
    0x983e5152, 0xa831c66d, 0xb00327c8, 0xbf597fc7, 0xc6e00bf3, 0xd5a79147, 0x06ca6351, 0x14292967,
    0x27b70a85, 0x2e1b2138, 0x4d2c6dfc, 0x53380d13, 0x650a7354, 0x766a0abb, 0x81c2c92e, 0x92722c85,
    0xa2bfe8a1, 0xa81a664b, 0xc24b8b70, 0xc76c51a3, 0xd192e819, 0xd6990624, 0xf40e3585, 0x106aa070,
    0x19a4c116, 0x1e376c08, 0x2748774c, 0x34b0bcb5, 0x391c0cb3, 0x4ed8aa4a, 0x5b9cca4f, 0x682e6ff3,
    0x748f82ee, 0x78a5636f, 0x84c87814, 0x8cc70208, 0x90befffa, 0xa4506ceb, 0xbef9a3f7, 0xc67178f2,
];

/// SHA-384 and SHA-512 round constants, FIPS 180-4 section 4.2.3.
pub const K512: [u64; 80] = [
    0x428a2f98d728ae22, 0x7137449123ef65cd, 0xb5c0fbcfec4d3b2f, 0xe9b5dba58189dbbc,
    0x3956c25bf348b538, 0x59f111f1b605d019, 0x923f82a4af194f9b, 0xab1c5ed5da6d8118,
    0xd807aa98a3030242, 0x12835b0145706fbe, 0x243185be4ee4b28c, 0x550c7dc3d5ffb4e2,
    0x72be5d74f27b896f, 0x80deb1fe3b1696b1, 0x9bdc06a725c71235, 0xc19bf174cf692694,
    0xe49b69c19ef14ad2, 0xefbe4786384f25e3, 0x0fc19dc68b8cd5b5, 0x240ca1cc77ac9c65,
    0x2de92c6f592b0275, 0x4a7484aa6ea6e483, 0x5cb0a9dcbd41fbd4, 0x76f988da831153b5,
    0x983e5152ee66dfab, 0xa831c66d2db43210, 0xb00327c898fb213f, 0xbf597fc7beef0ee4,
    0xc6e00bf33da88fc2, 0xd5a79147930aa725, 0x06ca6351e003826f, 0x142929670a0e6e70,
    0x27b70a8546d22ffc, 0x2e1b21385c26c926, 0x4d2c6dfc5ac42aed, 0x53380d139d95b3df,
    0x650a73548baf63de, 0x766a0abb3c77b2a8, 0x81c2c92e47edaee6, 0x92722c851482353b,
    0xa2bfe8a14cf10364, 0xa81a664bbc423001, 0xc24b8b70d0f89791, 0xc76c51a30654be30,
    0xd192e819d6ef5218, 0xd69906245565a910, 0xf40e35855771202a, 0x106aa07032bbd1b8,
    0x19a4c116b8d2d0c8, 0x1e376c085141ab53, 0x2748774cdf8eeb99, 0x34b0bcb5e19b48a8,
    0x391c0cb3c5c95a63, 0x4ed8aa4ae3418acb, 0x5b9cca4f7763e373, 0x682e6ff3d6b2b8a3,
    0x748f82ee5defb2fc, 0x78a5636f43172f60, 0x84c87814a1f0ab72, 0x8cc702081a6439ec,
    0x90befffa23631e28, 0xa4506cebde82bde9, 0xbef9a3f7b2c67915, 0xc67178f2e372532b,
    0xca273eceea26619c, 0xd186b8c721c0c207, 0xeada7dd6cde0eb1e, 0xf57d4f7fee6ed178,
    0x06f067aa72176fba, 0x0a637dc5a2c898a6, 0x113f9804bef90dae, 0x1b710b35131c471b,
    0x28db77f523047d84, 0x32caab7b40c72493, 0x3c9ebe0a15c9bebc, 0x431d67c49c100d4c,
    0x4cc5d4becb3e42b6, 0x597f299cfc657e2a, 0x5fcb6fab3ad6faec, 0x6c44198c4a475817,
];

// SHA-256
impl Sha2 for u32 {
    // FIPS 180-4 4.1.2
    const BIG_SIGMA_0: (u32, u32, u32) = (2, 13, 22);

    const BIG_SIGMA_1: (u32, u32, u32) = (6, 11, 25);

    const SMALL_SIGMA_0: (u32, u32, usize) = (7, 18, 3);

    const SMALL_SIGMA_1: (u32, u32, usize) = (17, 19, 10);

    open spec fn spec_xor(a: Self, b: Self) -> Self {
        a ^ b
    }

    open spec fn spec_shr(x: Self, n: usize) -> Self {
        x >> ((n % 32) as u32)
    }

    open spec fn spec_k() -> Seq<Self> {
        K256@
    }

    fn bitxor(self, other: Self) -> (r: Self) {
        self ^ other
    }

    fn shr(self, n: usize) -> (r: Self) {
        self >> ((n % 32) as u32)
    }

    fn k() -> (r: &'static [Self]) {
        &K256
    }
}

// SHA-384 and SHA-512
impl Sha2 for u64 {
    // FIPS 180-4 4.1.3
    const BIG_SIGMA_0: (u32, u32, u32) = (28, 34, 39);

    const BIG_SIGMA_1: (u32, u32, u32) = (14, 18, 41);

    const SMALL_SIGMA_0: (u32, u32, usize) = (1, 8, 7);

    const SMALL_SIGMA_1: (u32, u32, usize) = (19, 61, 6);

    open spec fn spec_xor(a: Self, b: Self) -> Self {
        a ^ b
    }

    open spec fn spec_shr(x: Self, n: usize) -> Self {
        x >> ((n % 64) as u64)
    }

    open spec fn spec_k() -> Seq<Self> {
        K512@
    }

    fn bitxor(self, other: Self) -> (r: Self) {
        self ^ other
    }

    fn shr(self, n: usize) -> (r: Self) {
        self >> ((n % 64) as u64)
    }

    fn k() -> (r: &'static [Self]) {
        &K512
    }
}

// ---------------------------------------------------------------------------
// The mathematical definitions, FIPS 180-4 sections 4.1.2, 4.1.3, 6.2.2, 6.4.2.
// ---------------------------------------------------------------------------

/// `Ch(x, y, z) = (x & y) | (!x & z)`.
pub open spec fn spec_ch<W: Word>(x: W, y: W, z: W) -> W {
    W::spec_or(W::spec_and(x, y), W::spec_and(W::spec_not(x), z))
}

/// `Maj(x, y, z) = (x & y) | (x & z) | (y & z)`.
pub open spec fn spec_maj<W: Word>(x: W, y: W, z: W) -> W {
    W::spec_or(W::spec_or(W::spec_and(x, y), W::spec_and(x, z)), W::spec_and(y, z))
}

/// `Σ0(x) = ROTR^a(x) ^ ROTR^b(x) ^ ROTR^c(x)` with `(a, b, c) = BIG_SIGMA_0`.
pub open spec fn spec_big_sigma_0<S: Sha2>(x: S) -> S {
    S::spec_xor(
        S::spec_xor(S::spec_rotr(x, S::BIG_SIGMA_0.0), S::spec_rotr(x, S::BIG_SIGMA_0.1)),
        S::spec_rotr(x, S::BIG_SIGMA_0.2),
    )
}

/// `Σ1(x) = ROTR^a(x) ^ ROTR^b(x) ^ ROTR^c(x)` with `(a, b, c) = BIG_SIGMA_1`.
pub open spec fn spec_big_sigma_1<S: Sha2>(x: S) -> S {
    S::spec_xor(
        S::spec_xor(S::spec_rotr(x, S::BIG_SIGMA_1.0), S::spec_rotr(x, S::BIG_SIGMA_1.1)),
        S::spec_rotr(x, S::BIG_SIGMA_1.2),
    )
}

/// `σ0(x) = ROTR^a(x) ^ ROTR^b(x) ^ SHR^c(x)` with `(a, b, c) = SMALL_SIGMA_0`.
pub open spec fn spec_small_sigma_0<S: Sha2>(x: S) -> S {
    S::spec_xor(
        S::spec_xor(S::spec_rotr(x, S::SMALL_SIGMA_0.0), S::spec_rotr(x, S::SMALL_SIGMA_0.1)),
        S::spec_shr(x, S::SMALL_SIGMA_0.2),
    )
}

/// `σ1(x) = ROTR^a(x) ^ ROTR^b(x) ^ SHR^c(x)` with `(a, b, c) = SMALL_SIGMA_1`.
pub open spec fn spec_small_sigma_1<S: Sha2>(x: S) -> S {
    S::spec_xor(
        S::spec_xor(S::spec_rotr(x, S::SMALL_SIGMA_1.0), S::spec_rotr(x, S::SMALL_SIGMA_1.1)),
        S::spec_shr(x, S::SMALL_SIGMA_1.2),
    )
}

/// One message-schedule step: `σ1(W_{t-2}) + W_{t-7} + σ0(W_{t-15}) + W_{t-16}`.
pub open spec fn spec_schedule_one<S: Sha2>(w2: S, w7: S, w15: S, w16: S) -> S {
    S::spec_add(S::spec_add(S::spec_add(spec_small_sigma_1(w2), w7), spec_small_sigma_0(w15)), w16)
}

/// The message schedule word `W_t` of the block `m` (16 words).
pub open spec fn spec_schedule_word<S: Sha2>(m: Seq<S>, t: nat) -> S
    decreases t,
{
    if t < 16 {
        m[t as int]
    } else {
        spec_schedule_one(
            spec_schedule_word(m, (t - 2) as nat),
            spec_schedule_word(m, (t - 7) as nat),
            spec_schedule_word(m, (t - 15) as nat),
            spec_schedule_word(m, (t - 16) as nat),
        )
    }
}

/// The message schedule `W_0, ..., W_{rounds-1}` of the block `m`.
pub open spec fn spec_schedule<S: Sha2>(m: Seq<S>) -> Seq<S> {
    Seq::new(S::spec_k().len(), |t: int| spec_schedule_word(m, t as nat))
}

/// `T1 = h + Σ1(e) + Ch(e, f, g) + K_t + W_t`.
pub open spec fn spec_t1<S: Sha2>(e: S, f: S, g: S, h: S, k_t: S, w_t: S) -> S {
    S::spec_add(
        S::spec_add(S::spec_add(S::spec_add(h, spec_big_sigma_1(e)), spec_ch(e, f, g)), k_t),
        w_t,
    )
}

/// `T2 = Σ0(a) + Maj(a, b, c)`.
pub open spec fn spec_t2<S: Sha2>(a: S, b: S, c: S) -> S {
    S::spec_add(spec_big_sigma_0(a), spec_maj(a, b, c))
}

/// One round on the working variables `v = [a, b, c, d, e, f, g, h]`.
pub open spec fn spec_round<S: Sha2>(v: Seq<S>, k_t: S, w_t: S) -> Seq<S> {
    let t1 = spec_t1(v[4], v[5], v[6], v[7], k_t, w_t);
    let t2 = spec_t2(v[0], v[1], v[2]);
    seq![S::spec_add(t1, t2), v[0], v[1], v[2], S::spec_add(v[3], t1), v[4], v[5], v[6]]
}

/// The working variables after the first `n` rounds, starting from `v`.
pub open spec fn spec_rounds<S: Sha2>(v: Seq<S>, w: Seq<S>, n: nat) -> Seq<S>
    decreases n,
{
    if n == 0 {
        v
    } else {
        spec_round(spec_rounds(v, w, (n - 1) as nat), S::spec_k()[n - 1], w[n - 1])
    }
}

/// The compression of the schedule `w` into the chaining value `h`: all rounds,
/// then the word-wise sum with `h`.
pub open spec fn spec_compress<S: Sha2>(h: Seq<S>, w: Seq<S>) -> Seq<S> {
    let v = spec_rounds(h, w, S::spec_k().len());
    Seq::new(CHAINING_WORDS as nat, |i: int| S::spec_add(h[i], v[i]))
}

/// The hash computation for one block of 16 words.
pub open spec fn spec_process_block<S: Sha2>(h: Seq<S>, m: Seq<S>) -> Seq<S> {
    spec_compress(h, spec_schedule(m))
}

/// The chaining value after processing the blocks `ms` in order, starting from `h`.
pub open spec fn spec_block_data_order<S: Sha2>(h: Seq<S>, ms: Seq<Seq<S>>) -> Seq<S>
    decreases ms.len(),
{
    if ms.len() == 0 {
        h
    } else {
        spec_process_block(spec_block_data_order(h, ms.drop_last()), ms.last())
    }
}

/// The 16 words of a block given as big-endian bytes.
pub open spec fn spec_block_words<S: Word>(m: [S::InputBytes; 16]) -> Seq<S> {
    Seq::new(16, |t: int| S::spec_from_be_bytes(m[t]))
}

/// The word blocks of a sequence of blocks given as big-endian bytes.
pub open spec fn spec_blocks_of_bytes<S: Word>(ms: Seq<[S::InputBytes; 16]>) -> Seq<Seq<S>> {
    Seq::new(ms.len(), |i: int| spec_block_words::<S>(ms[i]))
}

/// The word blocks of a sequence of word arrays.
pub open spec fn spec_blocks_of_words<S: Word>(ms: Seq<[S; 16]>) -> Seq<Seq<S>> {
    Seq::new(ms.len(), |i: int| ms[i]@)
}

// ---------------------------------------------------------------------------
// The functions of FIPS 180-4 sections 4.1.1, 4.1.2 and 4.1.3.
// ---------------------------------------------------------------------------

// FIPS 180-4 {4.1.1, 4.1.2, 4.1.3}
pub fn ch<W: Word>(x: W, y: W, z: W) -> (r: W)
    ensures
        r == spec_ch(x, y, z),
{
    x.bitand(y).bitor(x.not().bitand(z))
}

// FIPS 180-4 {4.1.1, 4.1.2, 4.1.3}
pub fn maj<W: Word>(x: W, y: W, z: W) -> (r: W)
    ensures
        r == spec_maj(x, y, z),
{
    x.bitand(y).bitor(x.bitand(z)).bitor(y.bitand(z))
}

// FIPS 180-4 {4.1.2, 4.1.3}
pub fn SIGMA_0<S: Sha2>(x: S) -> (r: S)
    ensures
        r == spec_big_sigma_0(x),
{
    x.rotr(S::BIG_SIGMA_0.0).bitxor(x.rotr(S::BIG_SIGMA_0.1)).bitxor(x.rotr(S::BIG_SIGMA_0.2))
}

// FIPS 180-4 {4.1.2, 4.1.3}
pub fn SIGMA_1<S: Sha2>(x: S) -> (r: S)
    ensures
        r == spec_big_sigma_1(x),
{
    x.rotr(S::BIG_SIGMA_1.0).bitxor(x.rotr(S::BIG_SIGMA_1.1)).bitxor(x.rotr(S::BIG_SIGMA_1.2))
}

// FIPS 180-4 {4.1.2, 4.1.3}
pub fn sigma_0<S: Sha2>(x: S) -> (r: S)
    ensures
        r == spec_small_sigma_0(x),
{
    x.rotr(S::SMALL_SIGMA_0.0).bitxor(x.rotr(S::SMALL_SIGMA_0.1)).bitxor(
        x.shr(S::SMALL_SIGMA_0.2),
    )
}

// FIPS 180-4 {4.1.2, 4.1.3}
pub fn sigma_1<S: Sha2>(x: S) -> (r: S)
    ensures
        r == spec_small_sigma_1(x),
{
    x.rotr(S::SMALL_SIGMA_1.0).bitxor(x.rotr(S::SMALL_SIGMA_1.1)).bitxor(
        x.shr(S::SMALL_SIGMA_1.2),
    )
}

/// One step of the message schedule: `σ1(a) + b + σ0(c) + d`.
pub fn message_schedule_one<S: Sha2>(a: S, b: S, c: S, d: S) -> (r: S)
    ensures
        r == spec_schedule_one(a, b, c, d),
{
    sigma_1(a).wrapping_add(b).wrapping_add(sigma_0(c)).wrapping_add(d)
}

/// `T1 = h + Σ1(e) + Ch(e, f, g) + K_t + W_t`.
pub fn compress_t1<S: Sha2>(e: S, f: S, g: S, h: S, k_t: S, w_t: S) -> (r: S)
    ensures
        r == spec_t1(e, f, g, h, k_t, w_t),
{
    h.wrapping_add(SIGMA_1(e)).wrapping_add(ch(e, f, g)).wrapping_add(k_t).wrapping_add(w_t)
}

/// `T2 = Σ0(a) + Maj(a, b, c)`.
pub fn compress_t2<S: Sha2>(a: S, b: S, c: S) -> (r: S)
    ensures
        r == spec_t2(a, b, c),
{
    SIGMA_0(a).wrapping_add(maj(a, b, c))
}

/// The message schedule of one block: `W_t` for every round `t`; the entries
/// past the last round of the hash function stay zero.
pub fn message_schedule_words<S: Sha2>(M: &[S; 16]) -> (r: [S; MAX_ROUNDS])
    ensures
        forall|t: int| 0 <= t < 16 ==> r[t] == M[t],
        forall|t: int|
            16 <= t < S::spec_k().len() ==> #[trigger] r[t] == S::spec_add(
                S::spec_add(
                    S::spec_add(spec_small_sigma_1(r[t - 2]), r[t - 7]),
                    spec_small_sigma_0(r[t - 15]),
                ),
                r[t - 16],
            ),
        forall|t: int| 0 <= t < S::spec_k().len() ==> r[t] == spec_schedule_word(M@, t as nat),
        forall|t: int| S::spec_k().len() <= t < MAX_ROUNDS ==> r[t] == S::ZERO,
{
    let rounds = S::k().len();
    let mut W = [S::ZERO; MAX_ROUNDS];
    for t in 0..16
        invariant
            forall|j: int| 0 <= j < t ==> W[j] == M[j],
            forall|j: int| t <= j < MAX_ROUNDS ==> W[j] == S::ZERO,
    {
        W[t] = M[t];
    }
    for t in 16..rounds
        invariant
            rounds == S::spec_k().len(),
            16 <= rounds <= MAX_ROUNDS,
            forall|j: int| 0 <= j < t ==> W[j] == spec_schedule_word(M@, j as nat),
            forall|j: int| rounds <= j < MAX_ROUNDS ==> W[j] == S::ZERO,
    {
        W[t] = message_schedule_one(W[t - 2], W[t - 7], W[t - 15], W[t - 16]);
    }
    W
}

/// The compression function: all rounds over the schedule `W`, then the
/// word-wise sum with the chaining value `H`.
pub fn compress_words<S: Sha2>(H: [S; CHAINING_WORDS], W: &[S]) -> (r: [S; CHAINING_WORDS])
    requires
        W@.len() == S::spec_k().len(),
    ensures
        r@ == spec_compress(H@, W@),
{
    let K = S::k();
    // FIPS 180-4 {6.2.2, 6.4.2} Step 2
    let mut a = H[0];
    let mut b = H[1];
    let mut c = H[2];
    let mut d = H[3];
    let mut e = H[4];
    let mut f = H[5];
    let mut g = H[6];
    let mut h = H[7];

    // FIPS 180-4 {6.2.2, 6.4.2} Step 3
    let mut t: usize = 0;
    assert(seq![a, b, c, d, e, f, g, h] =~= H@);
    while t < K.len()
        invariant
            K@ == S::spec_k(),
            W@.len() == K@.len(),
            t <= K@.len(),
            seq![a, b, c, d, e, f, g, h] == spec_rounds(H@, W@, t as nat),
        decreases K@.len() - t,
    {
        let T1 = compress_t1(e, f, g, h, K[t], W[t]);
        let T2 = compress_t2(a, b, c);
        h = g;
        g = f;
        f = e;
        e = d.wrapping_add(T1);
        d = c;
        c = b;
        b = a;
        a = T1.wrapping_add(T2);
        t = t + 1;
    }

    // FIPS 180-4 {6.2.2, 6.4.2} Step 4
    let ghost h0 = H@;
    let mut H = H;
    H[0] = H[0].wrapping_add(a);
    H[1] = H[1].wrapping_add(b);
    H[2] = H[2].wrapping_add(c);
    H[3] = H[3].wrapping_add(d);
    H[4] = H[4].wrapping_add(e);
    H[5] = H[5].wrapping_add(f);
    H[6] = H[6].wrapping_add(g);
    H[7] = H[7].wrapping_add(h);
    assert(H@ =~= spec_compress(h0, W@));
    H
}

/// The hash computation over word blocks, by way of the message schedule and
/// the compression function.
pub fn block_data_order_slice_words<S: Sha2>(H: [S; CHAINING_WORDS], M: &[[S; 16]]) -> (r: [S;
    CHAINING_WORDS])
    ensures
        r@ == spec_block_data_order(H@, spec_blocks_of_words(M@)),
{
    let mut H = H;
    let ghost h0 = H@;
    let mut i: usize = 0;
    while i < M.len()
        invariant
            i <= M@.len(),
            H@ == spec_block_data_order(h0, spec_blocks_of_words(M@).take(i as int)),
        decreases M@.len() - i,
    {
        let W = message_schedule_words(&M[i]);
        let rounds = S::k().len();
        let W = &W[0..rounds];
        assert(W@ =~= spec_schedule(M@[i as int]@));
        H = compress_words(H, W);
        proof {
            let blocks = spec_blocks_of_words(M@);
            assert(blocks.take(i + 1).drop_last() =~= blocks.take(i as int));
        }
        i = i + 1;
    }
    assert(spec_blocks_of_words(M@).take(M@.len() as int) =~= spec_blocks_of_words(M@));
    H
}

/// The hash computation over blocks of big-endian bytes: for each block, the
/// message schedule (FIPS 180-4 {6.2.2, 6.4.2} step 1), the rounds (steps 2
/// and 3) and the feed-forward into the chaining value (step 4).
pub fn block_data_order_slice<S: Sha2>(H: [S; CHAINING_WORDS], M: &[[S::InputBytes; 16]]) -> (r: [S;
    CHAINING_WORDS])
    ensures
        r@ == spec_block_data_order(H@, spec_blocks_of_bytes::<S>(M@)),
{
    let mut H = H;
    let ghost h0 = H@;
    let K = S::k();
    let rounds = K.len();
    let mut i: usize = 0;
    while i < M.len()
        invariant
            K@ == S::spec_k(),
            rounds == K@.len(),
            16 <= rounds <= MAX_ROUNDS,
            i <= M@.len(),
            H@ == spec_block_data_order(h0, spec_blocks_of_bytes::<S>(M@).take(i as int)),
        decreases M@.len() - i,
    {
        let ghost m = spec_block_words::<S>(M@[i as int]);
        // FIPS 180-4 {6.2.2, 6.4.2} Step 1
        let mut W = [S::ZERO; MAX_ROUNDS];
        for t in 0..16
            invariant
                i < M@.len(),
                m == spec_block_words::<S>(M@[i as int]),
                forall|j: int| 0 <= j < t ==> W[j] == m[j],
        {
            W[t] = S::from_be_bytes(M[i][t]);
        }
        for t in 16..rounds
            invariant
                rounds <= MAX_ROUNDS,
                m.len() == 16,
                forall|j: int| 0 <= j < t ==> W[j] == spec_schedule_word(m, j as nat),
        {
            W[t] = sigma_1(W[t - 2]).wrapping_add(W[t - 7]).wrapping_add(
                sigma_0(W[t - 15]),
            ).wrapping_add(W[t - 16]);
        }

        // FIPS 180-4 {6.2.2, 6.4.2} Step 2
        let mut a = H[0];
        let mut b = H[1];
        let mut c = H[2];
        let mut d = H[3];
        let mut e = H[4];
        let mut f = H[5];
        let mut g = H[6];
        let mut h = H[7];

        // FIPS 180-4 {6.2.2, 6.4.2} Step 3
        let ghost w = spec_schedule(m);
        let ghost hi = H@;
        assert(seq![a, b, c, d, e, f, g, h] =~= hi);
        let mut t: usize = 0;
        while t < rounds
            invariant
                K@ == S::spec_k(),
                rounds == K@.len(),
                rounds <= MAX_ROUNDS,
                t <= rounds,
                w == spec_schedule(m),
                forall|j: int| 0 <= j < rounds ==> W[j] == spec_schedule_word(m, j as nat),
                seq![a, b, c, d, e, f, g, h] == spec_rounds(hi, w, t as nat),
            decreases rounds - t,
        {
            let T1 = h.wrapping_add(SIGMA_1(e)).wrapping_add(ch(e, f, g)).wrapping_add(
                K[t],
            ).wrapping_add(W[t]);
            let T2 = SIGMA_0(a).wrapping_add(maj(a, b, c));
            h = g;
            g = f;
            f = e;
            e = d.wrapping_add(T1);
            d = c;
            c = b;
            b = a;
            a = T1.wrapping_add(T2);
            t = t + 1;
        }

        // FIPS 180-4 {6.2.2, 6.4.2} Step 4
        H[0] = H[0].wrapping_add(a);
        H[1] = H[1].wrapping_add(b);
        H[2] = H[2].wrapping_add(c);
        H[3] = H[3].wrapping_add(d);
        H[4] = H[4].wrapping_add(e);
        H[5] = H[5].wrapping_add(f);
        H[6] = H[6].wrapping_add(g);
        H[7] = H[7].wrapping_add(h);
        proof {
            assert(H@ =~= spec_compress(hi, w));
            let blocks = spec_blocks_of_bytes::<S>(M@);
            assert(blocks.take(i + 1).drop_last() =~= blocks.take(i as int));
            assert(blocks.take(i + 1).last() == m);
        }
        i = i + 1;
    }
    assert(spec_blocks_of_bytes::<S>(M@).take(M@.len() as int) =~= spec_blocks_of_bytes::<S>(M@));
    H
}

/// The block function over the chaining value `H` and the blocks `M`.
pub fn block_data_order<S: Sha2>(H: [S; CHAINING_WORDS], M: &[[S::InputBytes; 16]]) -> (r: [S;
    CHAINING_WORDS])
    ensures
        r@ == spec_block_data_order(H@, spec_blocks_of_bytes::<S>(M@)),
{
    block_data_order_slice::<S>(H, M)
}

/// SHA-256 (and SHA-224) block function: updates `state` with the blocks of `data`.
pub fn GFp_sha256_block_data_order(state: &mut [u32; CHAINING_WORDS], data: &[[[u8; 4]; 16]])
    ensures
        final(state)@ == spec_block_data_order(old(state)@, spec_blocks_of_bytes::<u32>(data@)),
{
    *state = block_data_order::<u32>(*state, data)
}

/// SHA-512 (and SHA-384) block function: updates `state` with the blocks of `data`.
pub fn GFp_sha512_block_data_order(state: &mut [u64; CHAINING_WORDS], data: &[[[u8; 8]; 16]])
    ensures
        final(state)@ == spec_block_data_order(old(state)@, spec_blocks_of_bytes::<u64>(data@)),
{
    *state = block_data_order::<u64>(*state, data)
}

/// Big-endian encoding of a 32-bit word.
pub fn u32_to_be_bytes(x: u32) -> (r: [u8; 4])
    ensures
        be_value32(r) == x,
{
    let r = [(x >> 24u32) as u8, (x >> 16u32) as u8, (x >> 8u32) as u8, x as u8];
    assert(((x >> 24u32) as u8) as int * 0x100_0000 + ((x >> 16u32) as u8) as int * 0x1_0000
        + ((x >> 8u32) as u8) as int * 0x100 + (x as u8) as int == x) by (bit_vector);
    r
}

/// Copies the raw words `src` into the word buffer `dest` of the same length.
pub fn wrap_slice<T: Copy>(src: &[T], dest: &mut [T])
    requires
        src@.len() == old(dest)@.len(),
    ensures
        final(dest)@ == src@,
{
    let n = src.len();
    for i in 0..n
        invariant
            n == src@.len(),
            dest@.len() == n,
            forall|j: int| 0 <= j < i ==> dest@[j] == src@[j],
    {
        dest[i] = src[i];
    }
    assert(dest@ =~= src@);
}

/// Copies the words `src` out into the raw buffer `dest` of the same length.
pub fn unwrap_slice<T: Copy>(src: &[T], dest: &mut [T])
    requires
        src@.len() == old(dest)@.len(),
    ensures
        final(dest)@ == src@,
{
    let n = src.len();
    for i in 0..n
        invariant
            n == src@.len(),
            dest@.len() == n,
            forall|j: int| 0 <= j < i ==> dest@[j] == src@[j],
    {
        dest[i] = src[i];
    }
    assert(dest@ =~= src@);
}

/// Encodes each word of `src` big-endian into the entry of `dest` at the same index.
pub fn words_to_bytes(src: &[u32], dest: &mut [[u8; 4]])
    requires
        src@.len() == old(dest)@.len(),
    ensures
        final(dest)@.len() == src@.len(),
        forall|i: int| 0 <= i < src@.len() ==> be_value32(#[trigger] final(dest)@[i]) == src@[i],
{
    let n = src.len();
    for i in 0..n
        invariant
            n == src@.len(),
            dest@.len() == n,
            forall|j: int| 0 <= j < i ==> be_value32(#[trigger] dest@[j]) == src@[j],
    {
        dest[i] = u32_to_be_bytes(src[i]);
    }
}

// ---------------------------------------------------------------------------
// Laws.
// ---------------------------------------------------------------------------

/// `Ch` chooses: each bit of `Ch(x, y, z)` is the bit of `y` where `x` has a one
/// and the bit of `z` where `x` has a zero; and the `|` form computed here is
/// the `^` form of FIPS 180-4 (4.2), for 32-bit words.
pub proof fn lemma_ch_chooses_u32(x: u32, y: u32, z: u32, i: u32)
    requires
        i < 32,
    ensures
        spec_ch::<u32>(x, y, z) == (x & y) ^ (!x & z),
        (spec_ch::<u32>(x, y, z) >> i) & 1 == if (x >> i) & 1 == 1 {
            (y >> i) & 1
        } else {
            (z >> i) & 1
        },
{
    assert((x & y) | (!x & z) == (x & y) ^ (!x & z)) by (bit_vector);
    assert((((x & y) | (!x & z)) >> i) & 1 == if (x >> i) & 1 == 1 {
        (y >> i) & 1
    } else {
        (z >> i) & 1
    }) by (bit_vector)
        requires
            i < 32,
    ;
}

/// `Ch` chooses, for 64-bit words (FIPS 180-4 (4.8)).
pub proof fn lemma_ch_chooses_u64(x: u64, y: u64, z: u64, i: u64)
    requires
        i < 64,
    ensures
        spec_ch::<u64>(x, y, z) == (x & y) ^ (!x & z),
        (spec_ch::<u64>(x, y, z) >> i) & 1 == if (x >> i) & 1 == 1 {
            (y >> i) & 1
        } else {
            (z >> i) & 1
        },
{
    assert((x & y) | (!x & z) == (x & y) ^ (!x & z)) by (bit_vector);
    assert((((x & y) | (!x & z)) >> i) & 1 == if (x >> i) & 1 == 1 {
        (y >> i) & 1
    } else {
        (z >> i) & 1
    }) by (bit_vector)
        requires
            i < 64,
    ;
}

/// `Maj` is the bitwise majority: a bit of `Maj(x, y, z)` is one exactly when at
/// least two of the bits of `x`, `y`, `z` at that place are; the `|` form
/// computed here is the `^` form of FIPS 180-4 (4.3); and `Maj` is symmetric.
pub proof fn lemma_maj_majority_u32(x: u32, y: u32, z: u32, i: u32)
    requires
        i < 32,
    ensures
        spec_maj::<u32>(x, y, z) == (x & y) ^ (x & z) ^ (y & z),
        ((spec_maj::<u32>(x, y, z) >> i) & 1 == 1) == (((x >> i) & 1) + ((y >> i) & 1) + ((z
            >> i) & 1) >= 2),
        spec_maj::<u32>(x, y, z) == spec_maj::<u32>(y, x, z),
        spec_maj::<u32>(x, y, z) == spec_maj::<u32>(x, z, y),
{
    assert((x & y) | (x & z) | (y & z) == (x & y) ^ (x & z) ^ (y & z)) by (bit_vector);
    assert(((((x & y) | (x & z) | (y & z)) >> i) & 1 == 1) == (((x >> i) & 1) + ((y >> i) & 1)
        + ((z >> i) & 1) >= 2)) by (bit_vector)
        requires
            i < 32,
    ;
    assert((x & y) | (x & z) | (y & z) == (y & x) | (y & z) | (x & z)) by (bit_vector);
    assert((x & y) | (x & z) | (y & z) == (x & z) | (x & y) | (z & y)) by (bit_vector);
}

/// `Maj` is the bitwise majority, for 64-bit words (FIPS 180-4 (4.9)).
pub proof fn lemma_maj_majority_u64(x: u64, y: u64, z: u64, i: u64)
    requires
        i < 64,
    ensures
        spec_maj::<u64>(x, y, z) == (x & y) ^ (x & z) ^ (y & z),
        ((spec_maj::<u64>(x, y, z) >> i) & 1 == 1) == (((x >> i) & 1) + ((y >> i) & 1) + ((z
            >> i) & 1) >= 2),
        spec_maj::<u64>(x, y, z) == spec_maj::<u64>(y, x, z),
        spec_maj::<u64>(x, y, z) == spec_maj::<u64>(x, z, y),
{
    assert((x & y) | (x & z) | (y & z) == (x & y) ^ (x & z) ^ (y & z)) by (bit_vector);
    assert(((((x & y) | (x & z) | (y & z)) >> i) & 1 == 1) == (((x >> i) & 1) + ((y >> i) & 1)
        + ((z >> i) & 1) >= 2)) by (bit_vector)
        requires
            i < 64,
    ;
    assert((x & y) | (x & z) | (y & z) == (y & x) | (y & z) | (x & z)) by (bit_vector);
    assert((x & y) | (x & z) | (y & z) == (x & z) | (x & y) | (z & y)) by (bit_vector);
}

/// `ROTR^n` is a rotation: bit `i` of `ROTR^n(x)` is bit `(i + n) mod 32` of `x`.
pub proof fn lemma_rotr32_bit(x: u32, n: u32, i: u32)
    requires
        i < 32,
    ensures
        (rotr32(x, n) >> i) & 1 == (x >> ((i + n % 32) % 32) as u32) & 1,
{
    let m = n % 32;
    assert(m < 32);
    assert(((x >> m) | (x << ((32 - m) % 32) as u32)) >> i & 1 == (x >> ((i + m) % 32) as u32)
        & 1) by (bit_vector)
        requires
            i < 32,
            m < 32,
    ;
}

/// `ROTR^n` is a rotation, for 64-bit words: bit `i` of `ROTR^n(x)` is bit
/// `(i + n) mod 64` of `x`.
pub proof fn lemma_rotr64_bit(x: u64, n: u32, i: u64)
    requires
        i < 64,
    ensures
        (rotr64(x, n) >> i) & 1 == (x >> ((i + n % 64) % 64) as u64) & 1,
{
    let m = (n % 64) as u64;
    assert(m < 64);
    assert(((x >> m) | (x << ((64 - m) % 64) as u64)) >> i & 1 == (x >> ((i + m) % 64) as u64)
        & 1) by (bit_vector)
        requires
            i < 64,
            m < 64,
    ;
}

/// Four bytes are determined by their big-endian value.
pub proof fn lemma_be_value32_injective(a: [u8; 4], b: [u8; 4])
    requires
        be_value32(a) == be_value32(b),
    ensures
        a == b,
{
    let (a0, a1, a2, a3) = (a[0], a[1], a[2], a[3]);
    let (b0, b1, b2, b3) = (b[0], b[1], b[2], b[3]);
    assert(a0 == b0 && a1 == b1 && a2 == b2 && a3 == b3) by (nonlinear_arith)
        requires
            a0 as int * 0x100_0000 + a1 as int * 0x1_0000 + a2 as int * 0x100 + a3 as int == b0 as int
                * 0x100_0000 + b1 as int * 0x1_0000 + b2 as int * 0x100 + b3 as int,
            a0 < 256 && a1 < 256 && a2 < 256 && a3 < 256,
            b0 < 256 && b1 < 256 && b2 < 256 && b3 < 256,
    ;
    assert(a@ =~= b@);
    assert(a == b);
}

/// Processing the blocks `a` and then the blocks `b` gives the chaining value
/// of processing `a + b`: the block function can be fed a message in pieces.
pub proof fn lemma_block_data_order_append<S: Sha2>(h: Seq<S>, a: Seq<Seq<S>>, b: Seq<Seq<S>>)
    ensures
        spec_block_data_order(h, a + b) == spec_block_data_order(spec_block_data_order(h, a), b),
    decreases b.len(),
{
    if b.len() == 0 {
        assert(a + b =~= a);
    } else {
        lemma_block_data_order_append(h, a, b.drop_last());
        assert((a + b).drop_last() =~= a + b.drop_last());
        assert((a + b).last() == b.last());
    }
}

/// The block function over big-endian byte blocks agrees with the one over
/// word blocks whenever the bytes are the big-endian encoding of the words.
pub proof fn lemma_bytes_agree_with_words<S: Sha2>(
    h: Seq<S>,
    bs: Seq<[S::InputBytes; 16]>,
    ws: Seq<[S; 16]>,
)
    requires
        bs.len() == ws.len(),
        forall|i: int, t: int|
            0 <= i < bs.len() && 0 <= t < 16 ==> S::spec_from_be_bytes(#[trigger] bs[i][t])
                == ws[i][t],
    ensures
        spec_block_data_order(h, spec_blocks_of_bytes::<S>(bs)) == spec_block_data_order(
            h,
            spec_blocks_of_words(ws),
        ),
{
    assert forall|i: int| 0 <= i < bs.len() implies spec_blocks_of_bytes::<S>(bs)[i]
        =~= spec_blocks_of_words(ws)[i] by {
        assert forall|t: int| 0 <= t < 16 implies spec_blocks_of_bytes::<S>(bs)[i][t]
            == spec_blocks_of_words(ws)[i][t] by {
            assert(S::spec_from_be_bytes(bs[i][t]) == ws[i][t]);
        }
    }
    assert(spec_blocks_of_bytes::<S>(bs) =~= spec_blocks_of_words(ws));
}

/// For 32-bit words the functions are those of SHA-256, FIPS 180-4 (4.4) to
/// (4.7), with 64 rounds.
pub proof fn lemma_sha256_functions(x: u32)
    ensures
        spec_big_sigma_0::<u32>(x) == rotr32(x, 2) ^ rotr32(x, 13) ^ rotr32(x, 22),
        spec_big_sigma_1::<u32>(x) == rotr32(x, 6) ^ rotr32(x, 11) ^ rotr32(x, 25),
        spec_small_sigma_0::<u32>(x) == rotr32(x, 7) ^ rotr32(x, 18) ^ (x >> 3u32),
        spec_small_sigma_1::<u32>(x) == rotr32(x, 17) ^ rotr32(x, 19) ^ (x >> 10u32),
        <u32 as Sha2>::spec_k().len() == 64,
{
}

/// For 64-bit words the functions are those of SHA-512, FIPS 180-4 (4.10) to
/// (4.13), with 80 rounds.
pub proof fn lemma_sha512_functions(x: u64)
    ensures
        spec_big_sigma_0::<u64>(x) == rotr64(x, 28) ^ rotr64(x, 34) ^ rotr64(x, 39),
        spec_big_sigma_1::<u64>(x) == rotr64(x, 14) ^ rotr64(x, 18) ^ rotr64(x, 41),
        spec_small_sigma_0::<u64>(x) == rotr64(x, 1) ^ rotr64(x, 8) ^ (x >> 7u64),
        spec_small_sigma_1::<u64>(x) == rotr64(x, 19) ^ rotr64(x, 61) ^ (x >> 6u64),
        <u64 as Sha2>::spec_k().len() == 80,
{
}

/// The zero word is `0`, for both word sizes (so the schedule's unused tail is
/// all zeros).
pub proof fn lemma_zero_words()
    ensures
        <u32 as Word>::ZERO == 0u32,
        <u64 as Word>::ZERO == 0u64,
{
}

/// Feeding byte blocks in pieces: the block function over `a + b` is the block
/// function over `b` from the chaining value that `a` leaves; and no blocks
/// leave the chaining value as it is.
pub proof fn lemma_byte_blocks_append<S: Sha2>(
    h: Seq<S>,
    a: Seq<[S::InputBytes; 16]>,
    b: Seq<[S::InputBytes; 16]>,
)
    ensures
        spec_block_data_order(h, spec_blocks_of_bytes::<S>(a + b)) == spec_block_data_order(
            spec_block_data_order(h, spec_blocks_of_bytes::<S>(a)),
            spec_blocks_of_bytes::<S>(b),
        ),
        spec_block_data_order(h, spec_blocks_of_bytes::<S>(Seq::empty())) == h,
{
    assert(spec_blocks_of_bytes::<S>(a + b) =~= spec_blocks_of_bytes::<S>(a)
        + spec_blocks_of_bytes::<S>(b));
    lemma_block_data_order_append(h, spec_blocks_of_bytes::<S>(a), spec_blocks_of_bytes::<S>(b));
    assert(spec_blocks_of_bytes::<S>(Seq::empty()) =~= Seq::<Seq<S>>::empty());
}

/// The 32-bit word operations are the machine operations: addition modulo
/// `2^32`, the bitwise operations, rotation, shift modulo the word size, and the
/// big-endian value of four bytes.
pub proof fn lemma_u32_word_operations(a: u32, b: u32, n: u32, k: usize, input: [u8; 4])
    ensures
        <u32 as Word>::spec_add(a, b) as int == (a as int + b as int) % 0x1_0000_0000,
        <u32 as Word>::spec_and(a, b) == a & b,
        <u32 as Word>::spec_or(a, b) == a | b,
        <u32 as Word>::spec_not(a) == !a,
        <u32 as Sha2>::spec_xor(a, b) == a ^ b,
        <u32 as Word>::spec_rotr(a, n) == rotr32(a, n),
        <u32 as Sha2>::spec_shr(a, k) == a >> ((k % 32) as u32),
        <u32 as Word>::spec_from_be_bytes(input) as int == input[0] as int * 0x100_0000
            + input[1] as int * 0x1_0000 + input[2] as int * 0x100 + input[3] as int,
        be_value32(input) == input[0] as int * 0x100_0000 + input[1] as int * 0x1_0000
            + input[2] as int * 0x100 + input[3] as int,
{
}

/// The 64-bit word operations are the machine operations: addition modulo
/// `2^64`, the bitwise operations, rotation, shift modulo the word size, and the
/// big-endian value of eight bytes.
pub proof fn lemma_u64_word_operations(a: u64, b: u64, n: u32, k: usize, input: [u8; 8])
    ensures
        <u64 as Word>::spec_add(a, b) as int == (a as int + b as int) % 0x1_0000_0000_0000_0000,
        <u64 as Word>::spec_and(a, b) == a & b,
        <u64 as Word>::spec_or(a, b) == a | b,
        <u64 as Word>::spec_not(a) == !a,
        <u64 as Sha2>::spec_xor(a, b) == a ^ b,
        <u64 as Word>::spec_rotr(a, n) == rotr64(a, n),
        <u64 as Sha2>::spec_shr(a, k) == a >> ((k % 64) as u64),
        <u64 as Word>::spec_from_be_bytes(input) as int == input[0] as int
            * 0x100_0000_0000_0000 + input[1] as int * 0x1_0000_0000_0000 + input[2] as int
            * 0x100_0000_0000 + input[3] as int * 0x1_0000_0000 + input[4] as int * 0x100_0000
            + input[5] as int * 0x1_0000 + input[6] as int * 0x100 + input[7] as int,
        be_value64(input) == input[0] as int * 0x100_0000_0000_0000 + input[1] as int
            * 0x1_0000_0000_0000 + input[2] as int * 0x100_0000_0000 + input[3] as int
            * 0x1_0000_0000 + input[4] as int * 0x100_0000 + input[5] as int * 0x1_0000
            + input[6] as int * 0x100 + input[7] as int,
{
}

/// The message schedule: the first sixteen words are the block, and every later
/// word is `σ1(W_{t-2}) + W_{t-7} + σ0(W_{t-15}) + W_{t-16}` of the earlier words.
pub proof fn lemma_schedule_recurrence<S: Sha2>(m: Seq<S>, t: nat)
    ensures
        t < 16 ==> spec_schedule_word(m, t) == m[t as int],
        t >= 16 ==> spec_schedule_word(m, t) == S::spec_add(
            S::spec_add(
                S::spec_add(
                    spec_small_sigma_1(spec_schedule_word(m, (t - 2) as nat)),
                    spec_schedule_word(m, (t - 7) as nat),
                ),
                spec_small_sigma_0(spec_schedule_word(m, (t - 15) as nat)),
            ),
            spec_schedule_word(m, (t - 16) as nat),
        ),
        spec_schedule(m).len() == S::spec_k().len(),
        t < S::spec_k().len() ==> spec_schedule(m)[t as int] == spec_schedule_word(m, t),
{
}

/// Each round: with `[a, b, c, d, e, f, g, h]` the working variables before round
/// `n`, `T1 = h + Σ1(e) + Ch(e, f, g) + K_n + W_n` and `T2 = Σ0(a) + Maj(a, b, c)`,
/// the variables after it are `[T1 + T2, a, b, c, d + T1, e, f, g]`; before the
/// first round they are the chaining value.
pub proof fn lemma_round_step<S: Sha2>(v: Seq<S>, w: Seq<S>, n: nat)
    ensures
        spec_rounds(v, w, 0) == v,
        ({
            let p = spec_rounds(v, w, n);
            let r = spec_rounds(v, w, n + 1);
            let t1 = S::spec_add(
                S::spec_add(
                    S::spec_add(S::spec_add(p[7], spec_big_sigma_1(p[4])), spec_ch(p[4], p[5], p[6])),
                    S::spec_k()[n as int],
                ),
                w[n as int],
            );
            let t2 = S::spec_add(spec_big_sigma_0(p[0]), spec_maj(p[0], p[1], p[2]));
            &&& r.len() == 8
            &&& r[0] == S::spec_add(t1, t2)
            &&& r[1] == p[0]
            &&& r[2] == p[1]
            &&& r[3] == p[2]
            &&& r[4] == S::spec_add(p[3], t1)
            &&& r[5] == p[4]
            &&& r[6] == p[5]
            &&& r[7] == p[6]
        }),
{
    assert(spec_rounds(v, w, n + 1) == spec_round(spec_rounds(v, w, n), S::spec_k()[n as int], w[n as int]));
}

/// The compression function adds the working variables after all rounds to the
/// chaining value, word by word; a block is compressed over its message
/// schedule.
pub proof fn lemma_compress_feed_forward<S: Sha2>(h: Seq<S>, w: Seq<S>, m: Seq<S>)
    ensures
        spec_compress(h, w).len() == CHAINING_WORDS,
        forall|i: int|
            0 <= i < CHAINING_WORDS ==> #[trigger] spec_compress(h, w)[i] == S::spec_add(
                h[i],
                spec_rounds(h, w, S::spec_k().len())[i],
            ),
        spec_process_block(h, m) == spec_compress(h, spec_schedule(m)),
{
}

/// The block function processes the blocks in order, one block at a time: no
/// blocks leave the chaining value unchanged, and one more block is processed
/// from the chaining value the earlier ones leave.
pub proof fn lemma_block_data_order_steps<S: Sha2>(h: Seq<S>, ms: Seq<Seq<S>>, m: Seq<S>)
    ensures
        spec_block_data_order(h, Seq::empty()) == h,
        spec_block_data_order(h, ms.push(m)) == spec_process_block(
            spec_block_data_order(h, ms),
            m,
        ),
        spec_block_data_order(h, seq![m]) == spec_process_block(h, m),
{
    assert(ms.push(m).drop_last() =~= ms);
    assert(seq![m].drop_last() =~= Seq::<Seq<S>>::empty());
}

/// The words of a block of bytes are the big-endian values of its groups.
pub proof fn lemma_block_words<S: Word>(ms: Seq<[S::InputBytes; 16]>, i: int, t: int)
    requires
        0 <= i < ms.len(),
        0 <= t < 16,
    ensures
        spec_blocks_of_bytes::<S>(ms).len() == ms.len(),
        spec_blocks_of_bytes::<S>(ms)[i].len() == 16,
        spec_blocks_of_bytes::<S>(ms)[i][t] == S::spec_from_be_bytes(ms[i][t]),
{
}

/// The word blocks of word arrays are the arrays themselves, in order.
pub proof fn lemma_blocks_of_words<S: Word>(ms: Seq<[S; 16]>, i: int)
    requires
        0 <= i < ms.len(),
    ensures
        spec_blocks_of_words(ms).len() == ms.len(),
        spec_blocks_of_words(ms)[i] == ms[i]@,
        spec_blocks_of_words(ms)[i].len() == 16,
{
}

/// The first eighty prime numbers.
pub open spec fn first_primes() -> Seq<int> {
    seq![
        2, 3, 5, 7, 11, 13, 17, 19, 23, 29, 31, 37, 41, 43, 47, 53,
        59, 61, 67, 71, 73, 79, 83, 89, 97, 101, 103, 107, 109, 113, 127, 131,
        137, 139, 149, 151, 157, 163, 167, 173, 179, 181, 191, 193, 197, 199, 211, 223,
        227, 229, 233, 239, 241, 251, 257, 263, 269, 271, 277, 281, 283, 293, 307, 311,
        313, 317, 331, 337, 347, 349, 353, 359, 367, 373, 379, 383, 389, 397, 401, 409,
    ]
}

/// `c * scale + k` is the integer cube root of `p * scale^3`: `k < scale` holds the
/// leading digits (base `scale`) of the fractional part of the cube root of `p`,
/// whose integer part is `c`.
pub open spec fn cube_root_fraction(p: int, c: int, k: int, scale: int) -> bool {
    let x = c * scale + k;
    &&& 0 <= k < scale
    &&& x * x * x <= p * (scale * scale * scale)
    &&& p * (scale * scale * scale) < (x + 1) * (x + 1) * (x + 1)
}

/// The SHA-224/256 round constant `K_t` is the first 32 bits of the fractional
/// part of the cube root of the `t`-th prime (FIPS 180-4 4.2.2).
pub proof fn lemma_k256_cube_roots(t: int)
    requires
        0 <= t < 64,
    ensures
        <u32 as Sha2>::spec_k().len() == 64,
        exists|c: int|
            #[trigger] cube_root_fraction(first_primes()[t], c, <u32 as Sha2>::spec_k()[t] as int, 0x1_0000_0000),
{
    if t == 0 {
        assert(K256@[0] == 0x428a2f98);
        assert(cube_root_fraction(2, 1, 0x428a2f98, 0x1_0000_0000)) by (nonlinear_arith);
        assert(first_primes()[t] == 2);
        assert(cube_root_fraction(first_primes()[t], 1, <u32 as Sha2>::spec_k()[t] as int, 0x1_0000_0000));
    } else if t == 1 {
        assert(K256@[1] == 0x71374491);
        assert(cube_root_fraction(3, 1, 0x71374491, 0x1_0000_0000)) by (nonlinear_arith);
        assert(first_primes()[t] == 3);
        assert(cube_root_fraction(first_primes()[t], 1, <u32 as Sha2>::spec_k()[t] as int, 0x1_0000_0000));
    } else if t == 2 {
        assert(K256@[2] == 0xb5c0fbcf);
        assert(cube_root_fraction(5, 1, 0xb5c0fbcf, 0x1_0000_0000)) by (nonlinear_arith);
        assert(first_primes()[t] == 5);
        assert(cube_root_fraction(first_primes()[t], 1, <u32 as Sha2>::spec_k()[t] as int, 0x1_0000_0000));
    } else if t == 3 {
        assert(K256@[3] == 0xe9b5dba5);
        assert(cube_root_fraction(7, 1, 0xe9b5dba5, 0x1_0000_0000)) by (nonlinear_arith);
        assert(first_primes()[t] == 7);
        assert(cube_root_fraction(first_primes()[t], 1, <u32 as Sha2>::spec_k()[t] as int, 0x1_0000_0000));
    } else if t == 4 {
        assert(K256@[4] == 0x3956c25b);
        assert(cube_root_fraction(11, 2, 0x3956c25b, 0x1_0000_0000)) by (nonlinear_arith);
        assert(first_primes()[t] == 11);
        assert(cube_root_fraction(first_primes()[t], 2, <u32 as Sha2>::spec_k()[t] as int, 0x1_0000_0000));
    } else if t == 5 {
        assert(K256@[5] == 0x59f111f1);
        assert(cube_root_fraction(13, 2, 0x59f111f1, 0x1_0000_0000)) by (nonlinear_arith);
        assert(first_primes()[t] == 13);
        assert(cube_root_fraction(first_primes()[t], 2, <u32 as Sha2>::spec_k()[t] as int, 0x1_0000_0000));
    } else if t == 6 {
        assert(K256@[6] == 0x923f82a4);
        assert(cube_root_fraction(17, 2, 0x923f82a4, 0x1_0000_0000)) by (nonlinear_arith);
        assert(first_primes()[t] == 17);
        assert(cube_root_fraction(first_primes()[t], 2, <u32 as Sha2>::spec_k()[t] as int, 0x1_0000_0000));
    } else if t == 7 {
        assert(K256@[7] == 0xab1c5ed5);
        assert(cube_root_fraction(19, 2, 0xab1c5ed5, 0x1_0000_0000)) by (nonlinear_arith);
        assert(first_primes()[t] == 19);
        assert(cube_root_fraction(first_primes()[t], 2, <u32 as Sha2>::spec_k()[t] as int, 0x1_0000_0000));
    } else if t == 8 {
        assert(K256@[8] == 0xd807aa98);
        assert(cube_root_fraction(23, 2, 0xd807aa98, 0x1_0000_0000)) by (nonlinear_arith);
        assert(first_primes()[t] == 23);
        assert(cube_root_fraction(first_primes()[t], 2, <u32 as Sha2>::spec_k()[t] as int, 0x1_0000_0000));
    } else if t == 9 {
        assert(K256@[9] == 0x12835b01);
        assert(cube_root_fraction(29, 3, 0x12835b01, 0x1_0000_0000)) by (nonlinear_arith);
        assert(first_primes()[t] == 29);
        assert(cube_root_fraction(first_primes()[t], 3, <u32 as Sha2>::spec_k()[t] as int, 0x1_0000_0000));
    } else if t == 10 {
        assert(K256@[10] == 0x243185be);
        assert(cube_root_fraction(31, 3, 0x243185be, 0x1_0000_0000)) by (nonlinear_arith);
        assert(first_primes()[t] == 31);
        assert(cube_root_fraction(first_primes()[t], 3, <u32 as Sha2>::spec_k()[t] as int, 0x1_0000_0000));
    } else if t == 11 {
        assert(K256@[11] == 0x550c7dc3);
        assert(cube_root_fraction(37, 3, 0x550c7dc3, 0x1_0000_0000)) by (nonlinear_arith);
        assert(first_primes()[t] == 37);
        assert(cube_root_fraction(first_primes()[t], 3, <u32 as Sha2>::spec_k()[t] as int, 0x1_0000_0000));
    } else if t == 12 {
        assert(K256@[12] == 0x72be5d74);
        assert(cube_root_fraction(41, 3, 0x72be5d74, 0x1_0000_0000)) by (nonlinear_arith);
        assert(first_primes()[t] == 41);
        assert(cube_root_fraction(first_primes()[t], 3, <u32 as Sha2>::spec_k()[t] as int, 0x1_0000_0000));
    } else if t == 13 {
        assert(K256@[13] == 0x80deb1fe);
        assert(cube_root_fraction(43, 3, 0x80deb1fe, 0x1_0000_0000)) by (nonlinear_arith);
        assert(first_primes()[t] == 43);
        assert(cube_root_fraction(first_primes()[t], 3, <u32 as Sha2>::spec_k()[t] as int, 0x1_0000_0000));
    } else if t == 14 {
        assert(K256@[14] == 0x9bdc06a7);
        assert(cube_root_fraction(47, 3, 0x9bdc06a7, 0x1_0000_0000)) by (nonlinear_arith);
        assert(first_primes()[t] == 47);
        assert(cube_root_fraction(first_primes()[t], 3, <u32 as Sha2>::spec_k()[t] as int, 0x1_0000_0000));
    } else if t == 15 {
        assert(K256@[15] == 0xc19bf174);
        assert(cube_root_fraction(53, 3, 0xc19bf174, 0x1_0000_0000)) by (nonlinear_arith);
        assert(first_primes()[t] == 53);
        assert(cube_root_fraction(first_primes()[t], 3, <u32 as Sha2>::spec_k()[t] as int, 0x1_0000_0000));
    } else if t == 16 {
        assert(K256@[16] == 0xe49b69c1);
        assert(cube_root_fraction(59, 3, 0xe49b69c1, 0x1_0000_0000)) by (nonlinear_arith);
        assert(first_primes()[t] == 59);
        assert(cube_root_fraction(first_primes()[t], 3, <u32 as Sha2>::spec_k()[t] as int, 0x1_0000_0000));
    } else if t == 17 {
        assert(K256@[17] == 0xefbe4786);
        assert(cube_root_fraction(61, 3, 0xefbe4786, 0x1_0000_0000)) by (nonlinear_arith);
        assert(first_primes()[t] == 61);
        assert(cube_root_fraction(first_primes()[t], 3, <u32 as Sha2>::spec_k()[t] as int, 0x1_0000_0000));
    } else if t == 18 {
        assert(K256@[18] == 0xfc19dc6);
        assert(cube_root_fraction(67, 4, 0xfc19dc6, 0x1_0000_0000)) by (nonlinear_arith);
        assert(first_primes()[t] == 67);
        assert(cube_root_fraction(first_primes()[t], 4, <u32 as Sha2>::spec_k()[t] as int, 0x1_0000_0000));
    } else if t == 19 {
        assert(K256@[19] == 0x240ca1cc);
        assert(cube_root_fraction(71, 4, 0x240ca1cc, 0x1_0000_0000)) by (nonlinear_arith);
        assert(first_primes()[t] == 71);
        assert(cube_root_fraction(first_primes()[t], 4, <u32 as Sha2>::spec_k()[t] as int, 0x1_0000_0000));
    } else if t == 20 {
        assert(K256@[20] == 0x2de92c6f);
        assert(cube_root_fraction(73, 4, 0x2de92c6f, 0x1_0000_0000)) by (nonlinear_arith);
        assert(first_primes()[t] == 73);
        assert(cube_root_fraction(first_primes()[t], 4, <u32 as Sha2>::spec_k()[t] as int, 0x1_0000_0000));
    } else if t == 21 {
        assert(K256@[21] == 0x4a7484aa);
        assert(cube_root_fraction(79, 4, 0x4a7484aa, 0x1_0000_0000)) by (nonlinear_arith);
        assert(first_primes()[t] == 79);
        assert(cube_root_fraction(first_primes()[t], 4, <u32 as Sha2>::spec_k()[t] as int, 0x1_0000_0000));
    } else if t == 22 {
        assert(K256@[22] == 0x5cb0a9dc);
        assert(cube_root_fraction(83, 4, 0x5cb0a9dc, 0x1_0000_0000)) by (nonlinear_arith);
        assert(first_primes()[t] == 83);
        assert(cube_root_fraction(first_primes()[t], 4, <u32 as Sha2>::spec_k()[t] as int, 0x1_0000_0000));
    } else if t == 23 {
        assert(K256@[23] == 0x76f988da);
        assert(cube_root_fraction(89, 4, 0x76f988da, 0x1_0000_0000)) by (nonlinear_arith);
        assert(first_primes()[t] == 89);
        assert(cube_root_fraction(first_primes()[t], 4, <u32 as Sha2>::spec_k()[t] as int, 0x1_0000_0000));
    } else if t == 24 {
        assert(K256@[24] == 0x983e5152);
        assert(cube_root_fraction(97, 4, 0x983e5152, 0x1_0000_0000)) by (nonlinear_arith);
        assert(first_primes()[t] == 97);
        assert(cube_root_fraction(first_primes()[t], 4, <u32 as Sha2>::spec_k()[t] as int, 0x1_0000_0000));
    } else if t == 25 {
        assert(K256@[25] == 0xa831c66d);
        assert(cube_root_fraction(101, 4, 0xa831c66d, 0x1_0000_0000)) by (nonlinear_arith);
        assert(first_primes()[t] == 101);
        assert(cube_root_fraction(first_primes()[t], 4, <u32 as Sha2>::spec_k()[t] as int, 0x1_0000_0000));
    } else if t == 26 {
        assert(K256@[26] == 0xb00327c8);
        assert(cube_root_fraction(103, 4, 0xb00327c8, 0x1_0000_0000)) by (nonlinear_arith);
        assert(first_primes()[t] == 103);
        assert(cube_root_fraction(first_primes()[t], 4, <u32 as Sha2>::spec_k()[t] as int, 0x1_0000_0000));
    } else if t == 27 {
        assert(K256@[27] == 0xbf597fc7);
        assert(cube_root_fraction(107, 4, 0xbf597fc7, 0x1_0000_0000)) by (nonlinear_arith);
        assert(first_primes()[t] == 107);
        assert(cube_root_fraction(first_primes()[t], 4, <u32 as Sha2>::spec_k()[t] as int, 0x1_0000_0000));
    } else if t == 28 {
        assert(K256@[28] == 0xc6e00bf3);
        assert(cube_root_fraction(109, 4, 0xc6e00bf3, 0x1_0000_0000)) by (nonlinear_arith);
        assert(first_primes()[t] == 109);
        assert(cube_root_fraction(first_primes()[t], 4, <u32 as Sha2>::spec_k()[t] as int, 0x1_0000_0000));
    } else if t == 29 {
        assert(K256@[29] == 0xd5a79147);
        assert(cube_root_fraction(113, 4, 0xd5a79147, 0x1_0000_0000)) by (nonlinear_arith);
        assert(first_primes()[t] == 113);
        assert(cube_root_fraction(first_primes()[t], 4, <u32 as Sha2>::spec_k()[t] as int, 0x1_0000_0000));
    } else if t == 30 {
        assert(K256@[30] == 0x6ca6351);
        assert(cube_root_fraction(127, 5, 0x6ca6351, 0x1_0000_0000)) by (nonlinear_arith);
        assert(first_primes()[t] == 127);
        assert(cube_root_fraction(first_primes()[t], 5, <u32 as Sha2>::spec_k()[t] as int, 0x1_0000_0000));
    } else if t == 31 {
        assert(K256@[31] == 0x14292967);
        assert(cube_root_fraction(131, 5, 0x14292967, 0x1_0000_0000)) by (nonlinear_arith);
        assert(first_primes()[t] == 131);
        assert(cube_root_fraction(first_primes()[t], 5, <u32 as Sha2>::spec_k()[t] as int, 0x1_0000_0000));
    } else if t == 32 {
        assert(K256@[32] == 0x27b70a85);
        assert(cube_root_fraction(137, 5, 0x27b70a85, 0x1_0000_0000)) by (nonlinear_arith);
        assert(first_primes()[t] == 137);
        assert(cube_root_fraction(first_primes()[t], 5, <u32 as Sha2>::spec_k()[t] as int, 0x1_0000_0000));
    } else if t == 33 {
        assert(K256@[33] == 0x2e1b2138);
        assert(cube_root_fraction(139, 5, 0x2e1b2138, 0x1_0000_0000)) by (nonlinear_arith);
        assert(first_primes()[t] == 139);
        assert(cube_root_fraction(first_primes()[t], 5, <u32 as Sha2>::spec_k()[t] as int, 0x1_0000_0000));
    } else if t == 34 {
        assert(K256@[34] == 0x4d2c6dfc);
        assert(cube_root_fraction(149, 5, 0x4d2c6dfc, 0x1_0000_0000)) by (nonlinear_arith);
        assert(first_primes()[t] == 149);
        assert(cube_root_fraction(first_primes()[t], 5, <u32 as Sha2>::spec_k()[t] as int, 0x1_0000_0000));
    } else if t == 35 {
        assert(K256@[35] == 0x53380d13);
        assert(cube_root_fraction(151, 5, 0x53380d13, 0x1_0000_0000)) by (nonlinear_arith);
        assert(first_primes()[t] == 151);
        assert(cube_root_fraction(first_primes()[t], 5, <u32 as Sha2>::spec_k()[t] as int, 0x1_0000_0000));
    } else if t == 36 {
        assert(K256@[36] == 0x650a7354);
        assert(cube_root_fraction(157, 5, 0x650a7354, 0x1_0000_0000)) by (nonlinear_arith);
        assert(first_primes()[t] == 157);
        assert(cube_root_fraction(first_primes()[t], 5, <u32 as Sha2>::spec_k()[t] as int, 0x1_0000_0000));
    } else if t == 37 {
        assert(K256@[37] == 0x766a0abb);
        assert(cube_root_fraction(163, 5, 0x766a0abb, 0x1_0000_0000)) by (nonlinear_arith);
        assert(first_primes()[t] == 163);
        assert(cube_root_fraction(first_primes()[t], 5, <u32 as Sha2>::spec_k()[t] as int, 0x1_0000_0000));
    } else if t == 38 {
        assert(K256@[38] == 0x81c2c92e);
        assert(cube_root_fraction(167, 5, 0x81c2c92e, 0x1_0000_0000)) by (nonlinear_arith);
        assert(first_primes()[t] == 167);
        assert(cube_root_fraction(first_primes()[t], 5, <u32 as Sha2>::spec_k()[t] as int, 0x1_0000_0000));
    } else if t == 39 {
        assert(K256@[39] == 0x92722c85);
        assert(cube_root_fraction(173, 5, 0x92722c85, 0x1_0000_0000)) by (nonlinear_arith);
        assert(first_primes()[t] == 173);
        assert(cube_root_fraction(first_primes()[t], 5, <u32 as Sha2>::spec_k()[t] as int, 0x1_0000_0000));
    } else if t == 40 {
        assert(K256@[40] == 0xa2bfe8a1);
        assert(cube_root_fraction(179, 5, 0xa2bfe8a1, 0x1_0000_0000)) by (nonlinear_arith);
        assert(first_primes()[t] == 179);
        assert(cube_root_fraction(first_primes()[t], 5, <u32 as Sha2>::spec_k()[t] as int, 0x1_0000_0000));
    } else if t == 41 {
        assert(K256@[41] == 0xa81a664b);
        assert(cube_root_fraction(181, 5, 0xa81a664b, 0x1_0000_0000)) by (nonlinear_arith);
        assert(first_primes()[t] == 181);
        assert(cube_root_fraction(first_primes()[t], 5, <u32 as Sha2>::spec_k()[t] as int, 0x1_0000_0000));
    } else if t == 42 {
        assert(K256@[42] == 0xc24b8b70);
        assert(cube_root_fraction(191, 5, 0xc24b8b70, 0x1_0000_0000)) by (nonlinear_arith);
        assert(first_primes()[t] == 191);
        assert(cube_root_fraction(first_primes()[t], 5, <u32 as Sha2>::spec_k()[t] as int, 0x1_0000_0000));
    } else if t == 43 {
        assert(K256@[43] == 0xc76c51a3);
        assert(cube_root_fraction(193, 5, 0xc76c51a3, 0x1_0000_0000)) by (nonlinear_arith);
        assert(first_primes()[t] == 193);
        assert(cube_root_fraction(first_primes()[t], 5, <u32 as Sha2>::spec_k()[t] as int, 0x1_0000_0000));
    } else if t == 44 {
        assert(K256@[44] == 0xd192e819);
        assert(cube_root_fraction(197, 5, 0xd192e819, 0x1_0000_0000)) by (nonlinear_arith);
        assert(first_primes()[t] == 197);
        assert(cube_root_fraction(first_primes()[t], 5, <u32 as Sha2>::spec_k()[t] as int, 0x1_0000_0000));
    } else if t == 45 {
        assert(K256@[45] == 0xd6990624);
        assert(cube_root_fraction(199, 5, 0xd6990624, 0x1_0000_0000)) by (nonlinear_arith);
        assert(first_primes()[t] == 199);
        assert(cube_root_fraction(first_primes()[t], 5, <u32 as Sha2>::spec_k()[t] as int, 0x1_0000_0000));
    } else if t == 46 {
        assert(K256@[46] == 0xf40e3585);
        assert(cube_root_fraction(211, 5, 0xf40e3585, 0x1_0000_0000)) by (nonlinear_arith);
        assert(first_primes()[t] == 211);
        assert(cube_root_fraction(first_primes()[t], 5, <u32 as Sha2>::spec_k()[t] as int, 0x1_0000_0000));
    } else if t == 47 {
        assert(K256@[47] == 0x106aa070);
        assert(cube_root_fraction(223, 6, 0x106aa070, 0x1_0000_0000)) by (nonlinear_arith);
        assert(first_primes()[t] == 223);
        assert(cube_root_fraction(first_primes()[t], 6, <u32 as Sha2>::spec_k()[t] as int, 0x1_0000_0000));
    } else if t == 48 {
        assert(K256@[48] == 0x19a4c116);
        assert(cube_root_fraction(227, 6, 0x19a4c116, 0x1_0000_0000)) by (nonlinear_arith);
        assert(first_primes()[t] == 227);
        assert(cube_root_fraction(first_primes()[t], 6, <u32 as Sha2>::spec_k()[t] as int, 0x1_0000_0000));
    } else if t == 49 {
        assert(K256@[49] == 0x1e376c08);
        assert(cube_root_fraction(229, 6, 0x1e376c08, 0x1_0000_0000)) by (nonlinear_arith);
        assert(first_primes()[t] == 229);
        assert(cube_root_fraction(first_primes()[t], 6, <u32 as Sha2>::spec_k()[t] as int, 0x1_0000_0000));
    } else if t == 50 {
        assert(K256@[50] == 0x2748774c);
        assert(cube_root_fraction(233, 6, 0x2748774c, 0x1_0000_0000)) by (nonlinear_arith);
        assert(first_primes()[t] == 233);
        assert(cube_root_fraction(first_primes()[t], 6, <u32 as Sha2>::spec_k()[t] as int, 0x1_0000_0000));
    } else if t == 51 {
        assert(K256@[51] == 0x34b0bcb5);
        assert(cube_root_fraction(239, 6, 0x34b0bcb5, 0x1_0000_0000)) by (nonlinear_arith);
        assert(first_primes()[t] == 239);
        assert(cube_root_fraction(first_primes()[t], 6, <u32 as Sha2>::spec_k()[t] as int, 0x1_0000_0000));
    } else if t == 52 {
        assert(K256@[52] == 0x391c0cb3);
        assert(cube_root_fraction(241, 6, 0x391c0cb3, 0x1_0000_0000)) by (nonlinear_arith);
        assert(first_primes()[t] == 241);
        assert(cube_root_fraction(first_primes()[t], 6, <u32 as Sha2>::spec_k()[t] as int, 0x1_0000_0000));
    } else if t == 53 {
        assert(K256@[53] == 0x4ed8aa4a);
        assert(cube_root_fraction(251, 6, 0x4ed8aa4a, 0x1_0000_0000)) by (nonlinear_arith);
        assert(first_primes()[t] == 251);
        assert(cube_root_fraction(first_primes()[t], 6, <u32 as Sha2>::spec_k()[t] as int, 0x1_0000_0000));
    } else if t == 54 {
        assert(K256@[54] == 0x5b9cca4f);
        assert(cube_root_fraction(257, 6, 0x5b9cca4f, 0x1_0000_0000)) by (nonlinear_arith);
        assert(first_primes()[t] == 257);
        assert(cube_root_fraction(first_primes()[t], 6, <u32 as Sha2>::spec_k()[t] as int, 0x1_0000_0000));
    } else if t == 55 {
        assert(K256@[55] == 0x682e6ff3);
        assert(cube_root_fraction(263, 6, 0x682e6ff3, 0x1_0000_0000)) by (nonlinear_arith);
        assert(first_primes()[t] == 263);
        assert(cube_root_fraction(first_primes()[t], 6, <u32 as Sha2>::spec_k()[t] as int, 0x1_0000_0000));
    } else if t == 56 {
        assert(K256@[56] == 0x748f82ee);
        assert(cube_root_fraction(269, 6, 0x748f82ee, 0x1_0000_0000)) by (nonlinear_arith);
        assert(first_primes()[t] == 269);
        assert(cube_root_fraction(first_primes()[t], 6, <u32 as Sha2>::spec_k()[t] as int, 0x1_0000_0000));
    } else if t == 57 {
        assert(K256@[57] == 0x78a5636f);
        assert(cube_root_fraction(271, 6, 0x78a5636f, 0x1_0000_0000)) by (nonlinear_arith);
        assert(first_primes()[t] == 271);
        assert(cube_root_fraction(first_primes()[t], 6, <u32 as Sha2>::spec_k()[t] as int, 0x1_0000_0000));
    } else if t == 58 {
        assert(K256@[58] == 0x84c87814);
        assert(cube_root_fraction(277, 6, 0x84c87814, 0x1_0000_0000)) by (nonlinear_arith);
        assert(first_primes()[t] == 277);
        assert(cube_root_fraction(first_primes()[t], 6, <u32 as Sha2>::spec_k()[t] as int, 0x1_0000_0000));
    } else if t == 59 {
        assert(K256@[59] == 0x8cc70208);
        assert(cube_root_fraction(281, 6, 0x8cc70208, 0x1_0000_0000)) by (nonlinear_arith);
        assert(first_primes()[t] == 281);
        assert(cube_root_fraction(first_primes()[t], 6, <u32 as Sha2>::spec_k()[t] as int, 0x1_0000_0000));
    } else if t == 60 {
        assert(K256@[60] == 0x90befffa);
        assert(cube_root_fraction(283, 6, 0x90befffa, 0x1_0000_0000)) by (nonlinear_arith);
        assert(first_primes()[t] == 283);
        assert(cube_root_fraction(first_primes()[t], 6, <u32 as Sha2>::spec_k()[t] as int, 0x1_0000_0000));
    } else if t == 61 {
        assert(K256@[61] == 0xa4506ceb);
        assert(cube_root_fraction(293, 6, 0xa4506ceb, 0x1_0000_0000)) by (nonlinear_arith);
        assert(first_primes()[t] == 293);
        assert(cube_root_fraction(first_primes()[t], 6, <u32 as Sha2>::spec_k()[t] as int, 0x1_0000_0000));
    } else if t == 62 {
        assert(K256@[62] == 0xbef9a3f7);
        assert(cube_root_fraction(307, 6, 0xbef9a3f7, 0x1_0000_0000)) by (nonlinear_arith);
        assert(first_primes()[t] == 307);
        assert(cube_root_fraction(first_primes()[t], 6, <u32 as Sha2>::spec_k()[t] as int, 0x1_0000_0000));
    } else if t == 63 {
        assert(K256@[63] == 0xc67178f2);
        assert(cube_root_fraction(311, 6, 0xc67178f2, 0x1_0000_0000)) by (nonlinear_arith);
        assert(first_primes()[t] == 311);
        assert(cube_root_fraction(first_primes()[t], 6, <u32 as Sha2>::spec_k()[t] as int, 0x1_0000_0000));
    }
}

/// The SHA-384/512 round constant `K_t` is the first 64 bits of the fractional
/// part of the cube root of the `t`-th prime (FIPS 180-4 4.2.3).
pub proof fn lemma_k512_cube_roots(t: int)
    requires
        0 <= t < 80,
    ensures
        <u64 as Sha2>::spec_k().len() == 80,
        exists|c: int|
            #[trigger] cube_root_fraction(
                first_primes()[t],
                c,
                <u64 as Sha2>::spec_k()[t] as int,
                0x1_0000_0000_0000_0000,
            ),
{
    if t == 0 {
        assert(K512@[0] == 0x428a2f98d728ae22);
        assert(cube_root_fraction(2, 1, 0x428a2f98d728ae22, 0x1_0000_0000_0000_0000)) by (nonlinear_arith);
        assert(first_primes()[t] == 2);
        assert(cube_root_fraction(first_primes()[t], 1, <u64 as Sha2>::spec_k()[t] as int, 0x1_0000_0000_0000_0000));
    } else if t == 1 {
        assert(K512@[1] == 0x7137449123ef65cd);
        assert(cube_root_fraction(3, 1, 0x7137449123ef65cd, 0x1_0000_0000_0000_0000)) by (nonlinear_arith);
        assert(first_primes()[t] == 3);
        assert(cube_root_fraction(first_primes()[t], 1, <u64 as Sha2>::spec_k()[t] as int, 0x1_0000_0000_0000_0000));
    } else if t == 2 {
        assert(K512@[2] == 0xb5c0fbcfec4d3b2f);
        assert(cube_root_fraction(5, 1, 0xb5c0fbcfec4d3b2f, 0x1_0000_0000_0000_0000)) by (nonlinear_arith);
        assert(first_primes()[t] == 5);
        assert(cube_root_fraction(first_primes()[t], 1, <u64 as Sha2>::spec_k()[t] as int, 0x1_0000_0000_0000_0000));
    } else if t == 3 {
        assert(K512@[3] == 0xe9b5dba58189dbbc);
        assert(cube_root_fraction(7, 1, 0xe9b5dba58189dbbc, 0x1_0000_0000_0000_0000)) by (nonlinear_arith);
        assert(first_primes()[t] == 7);
        assert(cube_root_fraction(first_primes()[t], 1, <u64 as Sha2>::spec_k()[t] as int, 0x1_0000_0000_0000_0000));
    } else if t == 4 {
        assert(K512@[4] == 0x3956c25bf348b538);
        assert(cube_root_fraction(11, 2, 0x3956c25bf348b538, 0x1_0000_0000_0000_0000)) by (nonlinear_arith);
        assert(first_primes()[t] == 11);
        assert(cube_root_fraction(first_primes()[t], 2, <u64 as Sha2>::spec_k()[t] as int, 0x1_0000_0000_0000_0000));
    } else if t == 5 {
        assert(K512@[5] == 0x59f111f1b605d019);
        assert(cube_root_fraction(13, 2, 0x59f111f1b605d019, 0x1_0000_0000_0000_0000)) by (nonlinear_arith);
        assert(first_primes()[t] == 13);
        assert(cube_root_fraction(first_primes()[t], 2, <u64 as Sha2>::spec_k()[t] as int, 0x1_0000_0000_0000_0000));
    } else if t == 6 {
        assert(K512@[6] == 0x923f82a4af194f9b);
        assert(cube_root_fraction(17, 2, 0x923f82a4af194f9b, 0x1_0000_0000_0000_0000)) by (nonlinear_arith);
        assert(first_primes()[t] == 17);
        assert(cube_root_fraction(first_primes()[t], 2, <u64 as Sha2>::spec_k()[t] as int, 0x1_0000_0000_0000_0000));
    } else if t == 7 {
        assert(K512@[7] == 0xab1c5ed5da6d8118);
        assert(cube_root_fraction(19, 2, 0xab1c5ed5da6d8118, 0x1_0000_0000_0000_0000)) by (nonlinear_arith);
        assert(first_primes()[t] == 19);
        assert(cube_root_fraction(first_primes()[t], 2, <u64 as Sha2>::spec_k()[t] as int, 0x1_0000_0000_0000_0000));
    } else if t == 8 {
        assert(K512@[8] == 0xd807aa98a3030242);
        assert(cube_root_fraction(23, 2, 0xd807aa98a3030242, 0x1_0000_0000_0000_0000)) by (nonlinear_arith);
        assert(first_primes()[t] == 23);
        assert(cube_root_fraction(first_primes()[t], 2, <u64 as Sha2>::spec_k()[t] as int, 0x1_0000_0000_0000_0000));
    } else if t == 9 {
        assert(K512@[9] == 0x12835b0145706fbe);
        assert(cube_root_fraction(29, 3, 0x12835b0145706fbe, 0x1_0000_0000_0000_0000)) by (nonlinear_arith);
        assert(first_primes()[t] == 29);
        assert(cube_root_fraction(first_primes()[t], 3, <u64 as Sha2>::spec_k()[t] as int, 0x1_0000_0000_0000_0000));
    } else if t == 10 {
        assert(K512@[10] == 0x243185be4ee4b28c);
        assert(cube_root_fraction(31, 3, 0x243185be4ee4b28c, 0x1_0000_0000_0000_0000)) by (nonlinear_arith);
        assert(first_primes()[t] == 31);
        assert(cube_root_fraction(first_primes()[t], 3, <u64 as Sha2>::spec_k()[t] as int, 0x1_0000_0000_0000_0000));
    } else if t == 11 {
        assert(K512@[11] == 0x550c7dc3d5ffb4e2);
        assert(cube_root_fraction(37, 3, 0x550c7dc3d5ffb4e2, 0x1_0000_0000_0000_0000)) by (nonlinear_arith);
        assert(first_primes()[t] == 37);
        assert(cube_root_fraction(first_primes()[t], 3, <u64 as Sha2>::spec_k()[t] as int, 0x1_0000_0000_0000_0000));
    } else if t == 12 {
        assert(K512@[12] == 0x72be5d74f27b896f);
        assert(cube_root_fraction(41, 3, 0x72be5d74f27b896f, 0x1_0000_0000_0000_0000)) by (nonlinear_arith);
        assert(first_primes()[t] == 41);
        assert(cube_root_fraction(first_primes()[t], 3, <u64 as Sha2>::spec_k()[t] as int, 0x1_0000_0000_0000_0000));
    } else if t == 13 {
        assert(K512@[13] == 0x80deb1fe3b1696b1);
        assert(cube_root_fraction(43, 3, 0x80deb1fe3b1696b1, 0x1_0000_0000_0000_0000)) by (nonlinear_arith);
        assert(first_primes()[t] == 43);
        assert(cube_root_fraction(first_primes()[t], 3, <u64 as Sha2>::spec_k()[t] as int, 0x1_0000_0000_0000_0000));
    } else if t == 14 {
        assert(K512@[14] == 0x9bdc06a725c71235);
        assert(cube_root_fraction(47, 3, 0x9bdc06a725c71235, 0x1_0000_0000_0000_0000)) by (nonlinear_arith);
        assert(first_primes()[t] == 47);
        assert(cube_root_fraction(first_primes()[t], 3, <u64 as Sha2>::spec_k()[t] as int, 0x1_0000_0000_0000_0000));
    } else if t == 15 {
        assert(K512@[15] == 0xc19bf174cf692694);
        assert(cube_root_fraction(53, 3, 0xc19bf174cf692694, 0x1_0000_0000_0000_0000)) by (nonlinear_arith);
        assert(first_primes()[t] == 53);
        assert(cube_root_fraction(first_primes()[t], 3, <u64 as Sha2>::spec_k()[t] as int, 0x1_0000_0000_0000_0000));
    } else if t == 16 {
        assert(K512@[16] == 0xe49b69c19ef14ad2);
        assert(cube_root_fraction(59, 3, 0xe49b69c19ef14ad2, 0x1_0000_0000_0000_0000)) by (nonlinear_arith);
        assert(first_primes()[t] == 59);
        assert(cube_root_fraction(first_primes()[t], 3, <u64 as Sha2>::spec_k()[t] as int, 0x1_0000_0000_0000_0000));
    } else if t == 17 {
        assert(K512@[17] == 0xefbe4786384f25e3);
        assert(cube_root_fraction(61, 3, 0xefbe4786384f25e3, 0x1_0000_0000_0000_0000)) by (nonlinear_arith);
        assert(first_primes()[t] == 61);
        assert(cube_root_fraction(first_primes()[t], 3, <u64 as Sha2>::spec_k()[t] as int, 0x1_0000_0000_0000_0000));
    } else if t == 18 {
        assert(K512@[18] == 0xfc19dc68b8cd5b5);
        assert(cube_root_fraction(67, 4, 0xfc19dc68b8cd5b5, 0x1_0000_0000_0000_0000)) by (nonlinear_arith);
        assert(first_primes()[t] == 67);
        assert(cube_root_fraction(first_primes()[t], 4, <u64 as Sha2>::spec_k()[t] as int, 0x1_0000_0000_0000_0000));
    } else if t == 19 {
        assert(K512@[19] == 0x240ca1cc77ac9c65);
        assert(cube_root_fraction(71, 4, 0x240ca1cc77ac9c65, 0x1_0000_0000_0000_0000)) by (nonlinear_arith);
        assert(first_primes()[t] == 71);
        assert(cube_root_fraction(first_primes()[t], 4, <u64 as Sha2>::spec_k()[t] as int, 0x1_0000_0000_0000_0000));
    } else if t == 20 {
        assert(K512@[20] == 0x2de92c6f592b0275);
        assert(cube_root_fraction(73, 4, 0x2de92c6f592b0275, 0x1_0000_0000_0000_0000)) by (nonlinear_arith);
        assert(first_primes()[t] == 73);
        assert(cube_root_fraction(first_primes()[t], 4, <u64 as Sha2>::spec_k()[t] as int, 0x1_0000_0000_0000_0000));
    } else if t == 21 {
        assert(K512@[21] == 0x4a7484aa6ea6e483);
        assert(cube_root_fraction(79, 4, 0x4a7484aa6ea6e483, 0x1_0000_0000_0000_0000)) by (nonlinear_arith);
        assert(first_primes()[t] == 79);
        assert(cube_root_fraction(first_primes()[t], 4, <u64 as Sha2>::spec_k()[t] as int, 0x1_0000_0000_0000_0000));
    } else if t == 22 {
        assert(K512@[22] == 0x5cb0a9dcbd41fbd4);
        assert(cube_root_fraction(83, 4, 0x5cb0a9dcbd41fbd4, 0x1_0000_0000_0000_0000)) by (nonlinear_arith);
        assert(first_primes()[t] == 83);
        assert(cube_root_fraction(first_primes()[t], 4, <u64 as Sha2>::spec_k()[t] as int, 0x1_0000_0000_0000_0000));
    } else if t == 23 {
        assert(K512@[23] == 0x76f988da831153b5);
        assert(cube_root_fraction(89, 4, 0x76f988da831153b5, 0x1_0000_0000_0000_0000)) by (nonlinear_arith);
        assert(first_primes()[t] == 89);
        assert(cube_root_fraction(first_primes()[t], 4, <u64 as Sha2>::spec_k()[t] as int, 0x1_0000_0000_0000_0000));
    } else if t == 24 {
        assert(K512@[24] == 0x983e5152ee66dfab);
        assert(cube_root_fraction(97, 4, 0x983e5152ee66dfab, 0x1_0000_0000_0000_0000)) by (nonlinear_arith);
        assert(first_primes()[t] == 97);
        assert(cube_root_fraction(first_primes()[t], 4, <u64 as Sha2>::spec_k()[t] as int, 0x1_0000_0000_0000_0000));
    } else if t == 25 {
        assert(K512@[25] == 0xa831c66d2db43210);
        assert(cube_root_fraction(101, 4, 0xa831c66d2db43210, 0x1_0000_0000_0000_0000)) by (nonlinear_arith);
        assert(first_primes()[t] == 101);
        assert(cube_root_fraction(first_primes()[t], 4, <u64 as Sha2>::spec_k()[t] as int, 0x1_0000_0000_0000_0000));
    } else if t == 26 {
        assert(K512@[26] == 0xb00327c898fb213f);
        assert(cube_root_fraction(103, 4, 0xb00327c898fb213f, 0x1_0000_0000_0000_0000)) by (nonlinear_arith);
        assert(first_primes()[t] == 103);
        assert(cube_root_fraction(first_primes()[t], 4, <u64 as Sha2>::spec_k()[t] as int, 0x1_0000_0000_0000_0000));
    } else if t == 27 {
        assert(K512@[27] == 0xbf597fc7beef0ee4);
        assert(cube_root_fraction(107, 4, 0xbf597fc7beef0ee4, 0x1_0000_0000_0000_0000)) by (nonlinear_arith);
        assert(first_primes()[t] == 107);
        assert(cube_root_fraction(first_primes()[t], 4, <u64 as Sha2>::spec_k()[t] as int, 0x1_0000_0000_0000_0000));
    } else if t == 28 {
        assert(K512@[28] == 0xc6e00bf33da88fc2);
        assert(cube_root_fraction(109, 4, 0xc6e00bf33da88fc2, 0x1_0000_0000_0000_0000)) by (nonlinear_arith);
        assert(first_primes()[t] == 109);
        assert(cube_root_fraction(first_primes()[t], 4, <u64 as Sha2>::spec_k()[t] as int, 0x1_0000_0000_0000_0000));
    } else if t == 29 {
        assert(K512@[29] == 0xd5a79147930aa725);
        assert(cube_root_fraction(113, 4, 0xd5a79147930aa725, 0x1_0000_0000_0000_0000)) by (nonlinear_arith);
        assert(first_primes()[t] == 113);
        assert(cube_root_fraction(first_primes()[t], 4, <u64 as Sha2>::spec_k()[t] as int, 0x1_0000_0000_0000_0000));
    } else if t == 30 {
        assert(K512@[30] == 0x6ca6351e003826f);
        assert(cube_root_fraction(127, 5, 0x6ca6351e003826f, 0x1_0000_0000_0000_0000)) by (nonlinear_arith);
        assert(first_primes()[t] == 127);
        assert(cube_root_fraction(first_primes()[t], 5, <u64 as Sha2>::spec_k()[t] as int, 0x1_0000_0000_0000_0000));
    } else if t == 31 {
        assert(K512@[31] == 0x142929670a0e6e70);
        assert(cube_root_fraction(131, 5, 0x142929670a0e6e70, 0x1_0000_0000_0000_0000)) by (nonlinear_arith);
        assert(first_primes()[t] == 131);
        assert(cube_root_fraction(first_primes()[t], 5, <u64 as Sha2>::spec_k()[t] as int, 0x1_0000_0000_0000_0000));
    } else if t == 32 {
        assert(K512@[32] == 0x27b70a8546d22ffc);
        assert(cube_root_fraction(137, 5, 0x27b70a8546d22ffc, 0x1_0000_0000_0000_0000)) by (nonlinear_arith);
        assert(first_primes()[t] == 137);
        assert(cube_root_fraction(first_primes()[t], 5, <u64 as Sha2>::spec_k()[t] as int, 0x1_0000_0000_0000_0000));
    } else if t == 33 {
        assert(K512@[33] == 0x2e1b21385c26c926);
        assert(cube_root_fraction(139, 5, 0x2e1b21385c26c926, 0x1_0000_0000_0000_0000)) by (nonlinear_arith);
        assert(first_primes()[t] == 139);
        assert(cube_root_fraction(first_primes()[t], 5, <u64 as Sha2>::spec_k()[t] as int, 0x1_0000_0000_0000_0000));
    } else if t == 34 {
        assert(K512@[34] == 0x4d2c6dfc5ac42aed);
        assert(cube_root_fraction(149, 5, 0x4d2c6dfc5ac42aed, 0x1_0000_0000_0000_0000)) by (nonlinear_arith);
        assert(first_primes()[t] == 149);
        assert(cube_root_fraction(first_primes()[t], 5, <u64 as Sha2>::spec_k()[t] as int, 0x1_0000_0000_0000_0000));
    } else if t == 35 {
        assert(K512@[35] == 0x53380d139d95b3df);
        assert(cube_root_fraction(151, 5, 0x53380d139d95b3df, 0x1_0000_0000_0000_0000)) by (nonlinear_arith);
        assert(first_primes()[t] == 151);
        assert(cube_root_fraction(first_primes()[t], 5, <u64 as Sha2>::spec_k()[t] as int, 0x1_0000_0000_0000_0000));
    } else if t == 36 {
        assert(K512@[36] == 0x650a73548baf63de);
        assert(cube_root_fraction(157, 5, 0x650a73548baf63de, 0x1_0000_0000_0000_0000)) by (nonlinear_arith);
        assert(first_primes()[t] == 157);
        assert(cube_root_fraction(first_primes()[t], 5, <u64 as Sha2>::spec_k()[t] as int, 0x1_0000_0000_0000_0000));
    } else if t == 37 {
        assert(K512@[37] == 0x766a0abb3c77b2a8);
        assert(cube_root_fraction(163, 5, 0x766a0abb3c77b2a8, 0x1_0000_0000_0000_0000)) by (nonlinear_arith);
        assert(first_primes()[t] == 163);
        assert(cube_root_fraction(first_primes()[t], 5, <u64 as Sha2>::spec_k()[t] as int, 0x1_0000_0000_0000_0000));
    } else if t == 38 {
        assert(K512@[38] == 0x81c2c92e47edaee6);
        assert(cube_root_fraction(167, 5, 0x81c2c92e47edaee6, 0x1_0000_0000_0000_0000)) by (nonlinear_arith);
        assert(first_primes()[t] == 167);
        assert(cube_root_fraction(first_primes()[t], 5, <u64 as Sha2>::spec_k()[t] as int, 0x1_0000_0000_0000_0000));
    } else if t == 39 {
        assert(K512@[39] == 0x92722c851482353b);
        assert(cube_root_fraction(173, 5, 0x92722c851482353b, 0x1_0000_0000_0000_0000)) by (nonlinear_arith);
        assert(first_primes()[t] == 173);
        assert(cube_root_fraction(first_primes()[t], 5, <u64 as Sha2>::spec_k()[t] as int, 0x1_0000_0000_0000_0000));
    } else if t == 40 {
        assert(K512@[40] == 0xa2bfe8a14cf10364);
        assert(cube_root_fraction(179, 5, 0xa2bfe8a14cf10364, 0x1_0000_0000_0000_0000)) by (nonlinear_arith);
        assert(first_primes()[t] == 179);
        assert(cube_root_fraction(first_primes()[t], 5, <u64 as Sha2>::spec_k()[t] as int, 0x1_0000_0000_0000_0000));
    } else if t == 41 {
        assert(K512@[41] == 0xa81a664bbc423001);
        assert(cube_root_fraction(181, 5, 0xa81a664bbc423001, 0x1_0000_0000_0000_0000)) by (nonlinear_arith);
        assert(first_primes()[t] == 181);
        assert(cube_root_fraction(first_primes()[t], 5, <u64 as Sha2>::spec_k()[t] as int, 0x1_0000_0000_0000_0000));
    } else if t == 42 {
        assert(K512@[42] == 0xc24b8b70d0f89791);
        assert(cube_root_fraction(191, 5, 0xc24b8b70d0f89791, 0x1_0000_0000_0000_0000)) by (nonlinear_arith);
        assert(first_primes()[t] == 191);
        assert(cube_root_fraction(first_primes()[t], 5, <u64 as Sha2>::spec_k()[t] as int, 0x1_0000_0000_0000_0000));
    } else if t == 43 {
        assert(K512@[43] == 0xc76c51a30654be30);
        assert(cube_root_fraction(193, 5, 0xc76c51a30654be30, 0x1_0000_0000_0000_0000)) by (nonlinear_arith);
        assert(first_primes()[t] == 193);
        assert(cube_root_fraction(first_primes()[t], 5, <u64 as Sha2>::spec_k()[t] as int, 0x1_0000_0000_0000_0000));
    } else if t == 44 {
        assert(K512@[44] == 0xd192e819d6ef5218);
        assert(cube_root_fraction(197, 5, 0xd192e819d6ef5218, 0x1_0000_0000_0000_0000)) by (nonlinear_arith);
        assert(first_primes()[t] == 197);
        assert(cube_root_fraction(first_primes()[t], 5, <u64 as Sha2>::spec_k()[t] as int, 0x1_0000_0000_0000_0000));
    } else if t == 45 {
        assert(K512@[45] == 0xd69906245565a910);
        assert(cube_root_fraction(199, 5, 0xd69906245565a910, 0x1_0000_0000_0000_0000)) by (nonlinear_arith);
        assert(first_primes()[t] == 199);
        assert(cube_root_fraction(first_primes()[t], 5, <u64 as Sha2>::spec_k()[t] as int, 0x1_0000_0000_0000_0000));
    } else if t == 46 {
        assert(K512@[46] == 0xf40e35855771202a);
        assert(cube_root_fraction(211, 5, 0xf40e35855771202a, 0x1_0000_0000_0000_0000)) by (nonlinear_arith);
        assert(first_primes()[t] == 211);
        assert(cube_root_fraction(first_primes()[t], 5, <u64 as Sha2>::spec_k()[t] as int, 0x1_0000_0000_0000_0000));
    } else if t == 47 {
        assert(K512@[47] == 0x106aa07032bbd1b8);
        assert(cube_root_fraction(223, 6, 0x106aa07032bbd1b8, 0x1_0000_0000_0000_0000)) by (nonlinear_arith);
        assert(first_primes()[t] == 223);
        assert(cube_root_fraction(first_primes()[t], 6, <u64 as Sha2>::spec_k()[t] as int, 0x1_0000_0000_0000_0000));
    } else if t == 48 {
        assert(K512@[48] == 0x19a4c116b8d2d0c8);
        assert(cube_root_fraction(227, 6, 0x19a4c116b8d2d0c8, 0x1_0000_0000_0000_0000)) by (nonlinear_arith);
        assert(first_primes()[t] == 227);
        assert(cube_root_fraction(first_primes()[t], 6, <u64 as Sha2>::spec_k()[t] as int, 0x1_0000_0000_0000_0000));
    } else if t == 49 {
        assert(K512@[49] == 0x1e376c085141ab53);
        assert(cube_root_fraction(229, 6, 0x1e376c085141ab53, 0x1_0000_0000_0000_0000)) by (nonlinear_arith);
        assert(first_primes()[t] == 229);
        assert(cube_root_fraction(first_primes()[t], 6, <u64 as Sha2>::spec_k()[t] as int, 0x1_0000_0000_0000_0000));
    } else if t == 50 {
        assert(K512@[50] == 0x2748774cdf8eeb99);
        assert(cube_root_fraction(233, 6, 0x2748774cdf8eeb99, 0x1_0000_0000_0000_0000)) by (nonlinear_arith);
        assert(first_primes()[t] == 233);
        assert(cube_root_fraction(first_primes()[t], 6, <u64 as Sha2>::spec_k()[t] as int, 0x1_0000_0000_0000_0000));
    } else if t == 51 {
        assert(K512@[51] == 0x34b0bcb5e19b48a8);
        assert(cube_root_fraction(239, 6, 0x34b0bcb5e19b48a8, 0x1_0000_0000_0000_0000)) by (nonlinear_arith);
        assert(first_primes()[t] == 239);
        assert(cube_root_fraction(first_primes()[t], 6, <u64 as Sha2>::spec_k()[t] as int, 0x1_0000_0000_0000_0000));
    } else if t == 52 {
        assert(K512@[52] == 0x391c0cb3c5c95a63);
        assert(cube_root_fraction(241, 6, 0x391c0cb3c5c95a63, 0x1_0000_0000_0000_0000)) by (nonlinear_arith);
        assert(first_primes()[t] == 241);
        assert(cube_root_fraction(first_primes()[t], 6, <u64 as Sha2>::spec_k()[t] as int, 0x1_0000_0000_0000_0000));
    } else if t == 53 {
        assert(K512@[53] == 0x4ed8aa4ae3418acb);
        assert(cube_root_fraction(251, 6, 0x4ed8aa4ae3418acb, 0x1_0000_0000_0000_0000)) by (nonlinear_arith);
        assert(first_primes()[t] == 251);
        assert(cube_root_fraction(first_primes()[t], 6, <u64 as Sha2>::spec_k()[t] as int, 0x1_0000_0000_0000_0000));
    } else if t == 54 {
        assert(K512@[54] == 0x5b9cca4f7763e373);
        assert(cube_root_fraction(257, 6, 0x5b9cca4f7763e373, 0x1_0000_0000_0000_0000)) by (nonlinear_arith);
        assert(first_primes()[t] == 257);
        assert(cube_root_fraction(first_primes()[t], 6, <u64 as Sha2>::spec_k()[t] as int, 0x1_0000_0000_0000_0000));
    } else if t == 55 {
        assert(K512@[55] == 0x682e6ff3d6b2b8a3);
        assert(cube_root_fraction(263, 6, 0x682e6ff3d6b2b8a3, 0x1_0000_0000_0000_0000)) by (nonlinear_arith);
        assert(first_primes()[t] == 263);
        assert(cube_root_fraction(first_primes()[t], 6, <u64 as Sha2>::spec_k()[t] as int, 0x1_0000_0000_0000_0000));
    } else if t == 56 {
        assert(K512@[56] == 0x748f82ee5defb2fc);
        assert(cube_root_fraction(269, 6, 0x748f82ee5defb2fc, 0x1_0000_0000_0000_0000)) by (nonlinear_arith);
        assert(first_primes()[t] == 269);
        assert(cube_root_fraction(first_primes()[t], 6, <u64 as Sha2>::spec_k()[t] as int, 0x1_0000_0000_0000_0000));
    } else if t == 57 {
        assert(K512@[57] == 0x78a5636f43172f60);
        assert(cube_root_fraction(271, 6, 0x78a5636f43172f60, 0x1_0000_0000_0000_0000)) by (nonlinear_arith);
        assert(first_primes()[t] == 271);
        assert(cube_root_fraction(first_primes()[t], 6, <u64 as Sha2>::spec_k()[t] as int, 0x1_0000_0000_0000_0000));
    } else if t == 58 {
        assert(K512@[58] == 0x84c87814a1f0ab72);
        assert(cube_root_fraction(277, 6, 0x84c87814a1f0ab72, 0x1_0000_0000_0000_0000)) by (nonlinear_arith);
        assert(first_primes()[t] == 277);
        assert(cube_root_fraction(first_primes()[t], 6, <u64 as Sha2>::spec_k()[t] as int, 0x1_0000_0000_0000_0000));
    } else if t == 59 {
        assert(K512@[59] == 0x8cc702081a6439ec);
        assert(cube_root_fraction(281, 6, 0x8cc702081a6439ec, 0x1_0000_0000_0000_0000)) by (nonlinear_arith);
        assert(first_primes()[t] == 281);
        assert(cube_root_fraction(first_primes()[t], 6, <u64 as Sha2>::spec_k()[t] as int, 0x1_0000_0000_0000_0000));
    } else if t == 60 {
        assert(K512@[60] == 0x90befffa23631e28);
        assert(cube_root_fraction(283, 6, 0x90befffa23631e28, 0x1_0000_0000_0000_0000)) by (nonlinear_arith);
        assert(first_primes()[t] == 283);
        assert(cube_root_fraction(first_primes()[t], 6, <u64 as Sha2>::spec_k()[t] as int, 0x1_0000_0000_0000_0000));
    } else if t == 61 {
        assert(K512@[61] == 0xa4506cebde82bde9);
        assert(cube_root_fraction(293, 6, 0xa4506cebde82bde9, 0x1_0000_0000_0000_0000)) by (nonlinear_arith);
        assert(first_primes()[t] == 293);
        assert(cube_root_fraction(first_primes()[t], 6, <u64 as Sha2>::spec_k()[t] as int, 0x1_0000_0000_0000_0000));
    } else if t == 62 {
        assert(K512@[62] == 0xbef9a3f7b2c67915);
        assert(cube_root_fraction(307, 6, 0xbef9a3f7b2c67915, 0x1_0000_0000_0000_0000)) by (nonlinear_arith);
        assert(first_primes()[t] == 307);
        assert(cube_root_fraction(first_primes()[t], 6, <u64 as Sha2>::spec_k()[t] as int, 0x1_0000_0000_0000_0000));
    } else if t == 63 {
        assert(K512@[63] == 0xc67178f2e372532b);
        assert(cube_root_fraction(311, 6, 0xc67178f2e372532b, 0x1_0000_0000_0000_0000)) by (nonlinear_arith);
        assert(first_primes()[t] == 311);
        assert(cube_root_fraction(first_primes()[t], 6, <u64 as Sha2>::spec_k()[t] as int, 0x1_0000_0000_0000_0000));
    } else if t == 64 {
        assert(K512@[64] == 0xca273eceea26619c);
        assert(cube_root_fraction(313, 6, 0xca273eceea26619c, 0x1_0000_0000_0000_0000)) by (nonlinear_arith);
        assert(first_primes()[t] == 313);
        assert(cube_root_fraction(first_primes()[t], 6, <u64 as Sha2>::spec_k()[t] as int, 0x1_0000_0000_0000_0000));
    } else if t == 65 {
        assert(K512@[65] == 0xd186b8c721c0c207);
        assert(cube_root_fraction(317, 6, 0xd186b8c721c0c207, 0x1_0000_0000_0000_0000)) by (nonlinear_arith);
        assert(first_primes()[t] == 317);
        assert(cube_root_fraction(first_primes()[t], 6, <u64 as Sha2>::spec_k()[t] as int, 0x1_0000_0000_0000_0000));
    } else if t == 66 {
        assert(K512@[66] == 0xeada7dd6cde0eb1e);
        assert(cube_root_fraction(331, 6, 0xeada7dd6cde0eb1e, 0x1_0000_0000_0000_0000)) by (nonlinear_arith);
        assert(first_primes()[t] == 331);
        assert(cube_root_fraction(first_primes()[t], 6, <u64 as Sha2>::spec_k()[t] as int, 0x1_0000_0000_0000_0000));
    } else if t == 67 {
        assert(K512@[67] == 0xf57d4f7fee6ed178);
        assert(cube_root_fraction(337, 6, 0xf57d4f7fee6ed178, 0x1_0000_0000_0000_0000)) by (nonlinear_arith);
        assert(first_primes()[t] == 337);
        assert(cube_root_fraction(first_primes()[t], 6, <u64 as Sha2>::spec_k()[t] as int, 0x1_0000_0000_0000_0000));
    } else if t == 68 {
        assert(K512@[68] == 0x6f067aa72176fba);
        assert(cube_root_fraction(347, 7, 0x6f067aa72176fba, 0x1_0000_0000_0000_0000)) by (nonlinear_arith);
        assert(first_primes()[t] == 347);
        assert(cube_root_fraction(first_primes()[t], 7, <u64 as Sha2>::spec_k()[t] as int, 0x1_0000_0000_0000_0000));
    } else if t == 69 {
        assert(K512@[69] == 0xa637dc5a2c898a6);
        assert(cube_root_fraction(349, 7, 0xa637dc5a2c898a6, 0x1_0000_0000_0000_0000)) by (nonlinear_arith);
        assert(first_primes()[t] == 349);
        assert(cube_root_fraction(first_primes()[t], 7, <u64 as Sha2>::spec_k()[t] as int, 0x1_0000_0000_0000_0000));
    } else if t == 70 {
        assert(K512@[70] == 0x113f9804bef90dae);
        assert(cube_root_fraction(353, 7, 0x113f9804bef90dae, 0x1_0000_0000_0000_0000)) by (nonlinear_arith);
        assert(first_primes()[t] == 353);
        assert(cube_root_fraction(first_primes()[t], 7, <u64 as Sha2>::spec_k()[t] as int, 0x1_0000_0000_0000_0000));
    } else if t == 71 {
        assert(K512@[71] == 0x1b710b35131c471b);
        assert(cube_root_fraction(359, 7, 0x1b710b35131c471b, 0x1_0000_0000_0000_0000)) by (nonlinear_arith);
        assert(first_primes()[t] == 359);
        assert(cube_root_fraction(first_primes()[t], 7, <u64 as Sha2>::spec_k()[t] as int, 0x1_0000_0000_0000_0000));
    } else if t == 72 {
        assert(K512@[72] == 0x28db77f523047d84);
        assert(cube_root_fraction(367, 7, 0x28db77f523047d84, 0x1_0000_0000_0000_0000)) by (nonlinear_arith);
        assert(first_primes()[t] == 367);
        assert(cube_root_fraction(first_primes()[t], 7, <u64 as Sha2>::spec_k()[t] as int, 0x1_0000_0000_0000_0000));
    } else if t == 73 {
        assert(K512@[73] == 0x32caab7b40c72493);
        assert(cube_root_fraction(373, 7, 0x32caab7b40c72493, 0x1_0000_0000_0000_0000)) by (nonlinear_arith);
        assert(first_primes()[t] == 373);
        assert(cube_root_fraction(first_primes()[t], 7, <u64 as Sha2>::spec_k()[t] as int, 0x1_0000_0000_0000_0000));
    } else if t == 74 {
        assert(K512@[74] == 0x3c9ebe0a15c9bebc);
        assert(cube_root_fraction(379, 7, 0x3c9ebe0a15c9bebc, 0x1_0000_0000_0000_0000)) by (nonlinear_arith);
        assert(first_primes()[t] == 379);
        assert(cube_root_fraction(first_primes()[t], 7, <u64 as Sha2>::spec_k()[t] as int, 0x1_0000_0000_0000_0000));
    } else if t == 75 {
        assert(K512@[75] == 0x431d67c49c100d4c);
        assert(cube_root_fraction(383, 7, 0x431d67c49c100d4c, 0x1_0000_0000_0000_0000)) by (nonlinear_arith);
        assert(first_primes()[t] == 383);
        assert(cube_root_fraction(first_primes()[t], 7, <u64 as Sha2>::spec_k()[t] as int, 0x1_0000_0000_0000_0000));
    } else if t == 76 {
        assert(K512@[76] == 0x4cc5d4becb3e42b6);
        assert(cube_root_fraction(389, 7, 0x4cc5d4becb3e42b6, 0x1_0000_0000_0000_0000)) by (nonlinear_arith);
        assert(first_primes()[t] == 389);
        assert(cube_root_fraction(first_primes()[t], 7, <u64 as Sha2>::spec_k()[t] as int, 0x1_0000_0000_0000_0000));
    } else if t == 77 {
        assert(K512@[77] == 0x597f299cfc657e2a);
        assert(cube_root_fraction(397, 7, 0x597f299cfc657e2a, 0x1_0000_0000_0000_0000)) by (nonlinear_arith);
        assert(first_primes()[t] == 397);
        assert(cube_root_fraction(first_primes()[t], 7, <u64 as Sha2>::spec_k()[t] as int, 0x1_0000_0000_0000_0000));
    } else if t == 78 {
        assert(K512@[78] == 0x5fcb6fab3ad6faec);
        assert(cube_root_fraction(401, 7, 0x5fcb6fab3ad6faec, 0x1_0000_0000_0000_0000)) by (nonlinear_arith);
        assert(first_primes()[t] == 401);
        assert(cube_root_fraction(first_primes()[t], 7, <u64 as Sha2>::spec_k()[t] as int, 0x1_0000_0000_0000_0000));
    } else if t == 79 {
        assert(K512@[79] == 0x6c44198c4a475817);
        assert(cube_root_fraction(409, 7, 0x6c44198c4a475817, 0x1_0000_0000_0000_0000)) by (nonlinear_arith);
        assert(first_primes()[t] == 409);
        assert(cube_root_fraction(first_primes()[t], 7, <u64 as Sha2>::spec_k()[t] as int, 0x1_0000_0000_0000_0000));
    }
}

} // verus!
