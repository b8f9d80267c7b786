//! The SHA-1 block function (FIPS 180-4, sections 4.1.1, 4.2.1 and 6.1.2).
use vstd::prelude::*;

use super::sha2::{ch, maj, rotr32, spec_ch, spec_maj, Word};

verus! {

pub const BLOCK_LEN: usize = 512 / 8;

pub const CHAINING_LEN: usize = 160 / 8;

pub const OUTPUT_LEN: usize = 160 / 8;

/// Number of words in the SHA-1 chaining state.
pub const CHAINING_WORDS: usize = CHAINING_LEN / 4;

/// Number of SHA-1 rounds.
pub const ROUNDS: usize = 80;

/// Addition modulo `2^32`.
pub open spec fn add32(a: u32, b: u32) -> u32 {
    vstd::wrapping::u32_specs::wrapping_add(a, b)
}

/// Left rotation of a 32-bit word, FIPS 180-4 section 3.2: `(x << n) | (x >> (32 - n))`,
/// with the count taken modulo the word size.
pub open spec fn rotl32(x: u32, count: u32) -> u32 {
    let n = count % 32;
    (x << n) | (x >> ((32 - n) % 32) as u32)
}

/// `Parity(x, y, z) = x ^ y ^ z`, FIPS 180-4 section 4.1.1.
pub open spec fn spec_parity(x: u32, y: u32, z: u32) -> u32 {
    x ^ y ^ z
}

/// The function `f_t` of round `t`, FIPS 180-4 section 4.1.1.
pub open spec fn spec_f(t: nat, x: u32, y: u32, z: u32) -> u32 {
    if t < 20 {
        spec_ch::<u32>(x, y, z)
    } else if t < 40 {
        spec_parity(x, y, z)
    } else if t < 60 {
        spec_maj::<u32>(x, y, z)
    } else {
        spec_parity(x, y, z)
    }
}

/// The constant `K_t` of round `t`, FIPS 180-4 section 4.2.1.
pub open spec fn spec_k(t: nat) -> u32 {
    if t < 20 {
        0x5a827999
    } else if t < 40 {
        0x6ed9eba1
    } else if t < 60 {
        0x8f1bbcdc
    } else {
        0xca62c1d6
    }
}

/// The message schedule word `W_t` of the block `m` (16 words), FIPS 180-4 6.1.2 step 1.
pub open spec fn spec_schedule_word(m: Seq<u32>, t: nat) -> u32
    decreases t,
{
    if t < 16 {
        m[t as int]
    } else {
        rotl32(
            spec_schedule_word(m, (t - 3) as nat) ^ spec_schedule_word(m, (t - 8) as nat)
                ^ spec_schedule_word(m, (t - 14) as nat) ^ spec_schedule_word(m, (t - 16) as nat),
            1,
        )
    }
}

/// The 80 message schedule words of the block `m`.
pub open spec fn spec_schedule(m: Seq<u32>) -> Seq<u32> {
    Seq::new(ROUNDS as nat, |t: int| spec_schedule_word(m, t as nat))
}

/// One round on the working variables `v = [a, b, c, d, e]` with the value `f`
/// of the round function, the constant `k` and the schedule word `w`:
/// `T = ROTL^5(a) + f + e + k + w; e = d; d = c; c = ROTL^30(b); b = a; a = T`.
pub open spec fn spec_round(v: Seq<u32>, f: u32, k: u32, w: u32) -> Seq<u32> {
    let t = add32(add32(add32(add32(rotl32(v[0], 5), f), v[4]), k), w);
    seq![t, v[0], rotl32(v[1], 30), v[2], v[3]]
}

/// The working variables after rounds `t0, ..., t0 + n - 1`, starting from `v`,
/// where round `t0 + i` takes the schedule word `w[i]`.
pub open spec fn spec_phase(v: Seq<u32>, w: Seq<u32>, t0: nat, n: nat) -> Seq<u32>
    decreases n,
{
    if n == 0 {
        v
    } else {
        let p = spec_phase(v, w, t0, (n - 1) as nat);
        let t = (t0 + n - 1) as nat;
        spec_round(p, spec_f(t, p[1], p[2], p[3]), spec_k(t), w[n - 1])
    }
}

/// The working variables after the first `n` rounds over the schedule `w`
/// (FIPS 180-4 6.1.2 steps 2 and 3).
pub open spec fn spec_rounds(v: Seq<u32>, w: Seq<u32>, n: nat) -> Seq<u32> {
    spec_phase(v, w, 0, n)
}

/// The hash computation for one block of 16 words (FIPS 180-4 6.1.2).
pub open spec fn spec_process_block(h: Seq<u32>, m: Seq<u32>) -> Seq<u32> {
    let v = spec_rounds(h, spec_schedule(m), ROUNDS as nat);
    Seq::new(CHAINING_WORDS as nat, |i: int| add32(h[i], v[i]))
}

/// The chaining value after processing the blocks `ms` in order, starting from `h`.
pub open spec fn spec_block_data_order(h: Seq<u32>, ms: Seq<Seq<u32>>) -> Seq<u32>
    decreases ms.len(),
{
    if ms.len() == 0 {
        h
    } else {
        spec_process_block(spec_block_data_order(h, ms.drop_last()), ms.last())
    }
}

/// The 16 words of a block given as big-endian bytes.
pub open spec fn spec_block_words(m: [[u8; 4]; 16]) -> Seq<u32> {
    Seq::new(16, |t: int| <u32 as Word>::spec_from_be_bytes(m[t]))
}

/// The word blocks of a sequence of blocks given as big-endian bytes.
pub open spec fn spec_blocks_of_bytes(ms: Seq<[[u8; 4]; 16]>) -> Seq<Seq<u32>> {
    Seq::new(ms.len(), |i: int| spec_block_words(ms[i]))
}

/// `n` rounds with one round function `f` and one constant `k`, starting from `v`.
pub open spec fn spec_step3(
    v: Seq<u32>,
    w: Seq<u32>,
    k: u32,
    f: spec_fn(u32, u32, u32) -> u32,
    n: nat,
) -> Seq<u32>
    decreases n,
{
    if n == 0 {
        v
    } else {
        let p = spec_step3(v, w, k, f, (n - 1) as nat);
        spec_round(p, f(p[1], p[2], p[3]), k, w[n - 1])
    }
}

// FIPS 180-4 4.1.1
pub fn parity(x: u32, y: u32, z: u32) -> (r: u32)
    ensures
        r == spec_parity(x, y, z),
{
    x ^ y ^ z
}

/// Left rotation by `n` bits.
pub fn rotl(x: u32, n: u32) -> (r: u32)
    ensures
        r == rotl32(x, n),
{
    let n = n % 32;
    (x << n) | (x >> ((32 - n) % 32))
}

/// Rounds 0 to 19 (FIPS 180-4 6.1.2 step 3): `f_t = Ch`, `K_t = 0x5a827999`.
pub fn step3_ch(
    a: u32,
    b: u32,
    c: u32,
    d: u32,
    e: u32,
    W: [u32; 20],
) -> (r: (u32, u32, u32, u32, u32))
    ensures
        seq![r.0, r.1, r.2, r.3, r.4] == spec_phase(seq![a, b, c, d, e], W@, 0, 20),
{
    let mut a = a;
    let mut b = b;
    let mut c = c;
    let mut d = d;
    let mut e = e;
    let k: u32 = 0x5a827999;
    let ghost v0 = seq![a, b, c, d, e];
    for t in 0..20
        invariant
            k == spec_k(0),
            seq![a, b, c, d, e] == spec_phase(v0, W@, 0, t as nat),
    {
        let T = rotl(a, 5).wrapping_add(ch(b, c, d)).wrapping_add(e).wrapping_add(k).wrapping_add(
            W[t],
        );
        e = d;
        d = c;
        c = rotl(b, 30);
        b = a;
        a = T;
    }
    (a, b, c, d, e)
}

/// Rounds 20 to 39 (FIPS 180-4 6.1.2 step 3): `f_t = Parity`, `K_t = 0x6ed9eba1`.
pub fn step3_parity1(
    a: u32,
    b: u32,
    c: u32,
    d: u32,
    e: u32,
    W: [u32; 20],
) -> (r: (u32, u32, u32, u32, u32))
    ensures
        seq![r.0, r.1, r.2, r.3, r.4] == spec_phase(seq![a, b, c, d, e], W@, 20, 20),
{
    let mut a = a;
    let mut b = b;
    let mut c = c;
    let mut d = d;
    let mut e = e;
    let k: u32 = 0x6ed9eba1;
    let ghost v0 = seq![a, b, c, d, e];
    for t in 0..20
        invariant
            k == spec_k(20),
            seq![a, b, c, d, e] == spec_phase(v0, W@, 20, t as nat),
    {
        let T = rotl(a, 5).wrapping_add(parity(b, c, d)).wrapping_add(e).wrapping_add(k).wrapping_add(
            W[t],
        );
        e = d;
        d = c;
        c = rotl(b, 30);
        b = a;
        a = T;
    }
    (a, b, c, d, e)
}

/// Rounds 40 to 59 (FIPS 180-4 6.1.2 step 3): `f_t = Maj`, `K_t = 0x8f1bbcdc`.
pub fn step3_maj(
    a: u32,
    b: u32,
    c: u32,
    d: u32,
    e: u32,
    W: [u32; 20],
) -> (r: (u32, u32, u32, u32, u32))
    ensures
        seq![r.0, r.1, r.2, r.3, r.4] == spec_phase(seq![a, b, c, d, e], W@, 40, 20),
{
    let mut a = a;
    let mut b = b;
    let mut c = c;
    let mut d = d;
    let mut e = e;
    let k: u32 = 0x8f1bbcdc;
    let ghost v0 = seq![a, b, c, d, e];
    for t in 0..20
        invariant
            k == spec_k(40),
            seq![a, b, c, d, e] == spec_phase(v0, W@, 40, t as nat),
    {
        let T = rotl(a, 5).wrapping_add(maj(b, c, d)).wrapping_add(e).wrapping_add(k).wrapping_add(
            W[t],
        );
        e = d;
        d = c;
        c = rotl(b, 30);
        b = a;
        a = T;
    }
    (a, b, c, d, e)
}

/// Rounds 60 to 79 (FIPS 180-4 6.1.2 step 3): `f_t = Parity`, `K_t = 0xca62c1d6`.
pub fn step3_parity2(
    a: u32,
    b: u32,
    c: u32,
    d: u32,
    e: u32,
    W: [u32; 20],
) -> (r: (u32, u32, u32, u32, u32))
    ensures
        seq![r.0, r.1, r.2, r.3, r.4] == spec_phase(seq![a, b, c, d, e], W@, 60, 20),
{
    let mut a = a;
    let mut b = b;
    let mut c = c;
    let mut d = d;
    let mut e = e;
    let k: u32 = 0xca62c1d6;
    let ghost v0 = seq![a, b, c, d, e];
    for t in 0..20
        invariant
            k == spec_k(60),
            seq![a, b, c, d, e] == spec_phase(v0, W@, 60, t as nat),
    {
        let T = rotl(a, 5).wrapping_add(parity(b, c, d)).wrapping_add(e).wrapping_add(k).wrapping_add(
            W[t],
        );
        e = d;
        d = c;
        c = rotl(b, 30);
        b = a;
        a = T;
    }
    (a, b, c, d, e)
}

/// Twenty rounds with the one round function `f` (a closure whose results are
/// those of the spec function `fs`) and the one constant `k`.
#[allow(dead_code)]
fn step3(
    a: u32,
    b: u32,
    c: u32,
    d: u32,
    e: u32,
    W: [u32; 20],
    k: u32,
    f: impl Fn(u32, u32, u32) -> u32,
    Ghost(fs): Ghost<spec_fn(u32, u32, u32) -> u32>,
) -> (r: (u32, u32, u32, u32, u32))
    requires
        forall|x: u32, y: u32, z: u32| f.requires((x, y, z)),
        forall|x: u32, y: u32, z: u32, o: u32| f.ensures((x, y, z), o) ==> o == fs(x, y, z),
    ensures
        seq![r.0, r.1, r.2, r.3, r.4] == spec_step3(seq![a, b, c, d, e], W@, k, fs, 20),
{
    let mut a = a;
    let mut b = b;
    let mut c = c;
    let mut d = d;
    let mut e = e;
    let ghost v0 = seq![a, b, c, d, e];
    for t in 0..20
        invariant
            forall|x: u32, y: u32, z: u32| f.requires((x, y, z)),
            forall|x: u32, y: u32, z: u32, o: u32| f.ensures((x, y, z), o) ==> o == fs(x, y, z),
            seq![a, b, c, d, e] == spec_step3(v0, W@, k, fs, t as nat),
    {
        let T = rotl(a, 5).wrapping_add(f(b, c, d)).wrapping_add(e).wrapping_add(k).wrapping_add(
            W[t],
        );
        e = d;
        d = c;
        c = rotl(b, 30);
        b = a;
        a = T;
    }
    (a, b, c, d, e)
}

/// The rounds `t0 .. t0 + n1 + n2` are the rounds `t0 .. t0 + n1` followed by
/// the rounds `t0 + n1 .. t0 + n1 + n2`, whose schedule words `w2` are those of
/// `w` from `n1` on.
pub proof fn lemma_phase_split(v: Seq<u32>, w: Seq<u32>, w2: Seq<u32>, t0: nat, n1: nat, n2: nat)
    requires
        forall|i: int| 0 <= i < n2 ==> w2[i] == w[n1 + i],
    ensures
        spec_phase(v, w, t0, n1 + n2) == spec_phase(spec_phase(v, w, t0, n1), w2, t0 + n1, n2),
    decreases n2,
{
    if n2 > 0 {
        lemma_phase_split(v, w, w2, t0, n1, (n2 - 1) as nat);
        assert((n1 + n2 - 1) as nat == n1 + (n2 - 1) as nat);
    }
}

/// Twenty schedule words `W[start .. start + 20]`.
fn schedule_part(W: &[u32; ROUNDS], start: usize) -> (r: [u32; 20])
    requires
        start + 20 <= ROUNDS,
    ensures
        forall|i: int| 0 <= i < 20 ==> r[i] == W[start + i],
{
    let mut r = [0u32; 20];
    for i in 0..20
        invariant
            start + 20 <= ROUNDS,
            forall|j: int| 0 <= j < i ==> r[j] == W[start + j],
    {
        r[i] = W[start + i];
    }
    r
}

/// The hash computation over blocks of big-endian bytes (FIPS 180-4 6.1.2).
fn block_data_order_(H: [u32; CHAINING_WORDS], M: &[[[u8; 4]; 16]]) -> (r: [u32; CHAINING_WORDS])
    ensures
        r@ == spec_block_data_order(H@, spec_blocks_of_bytes(M@)),
{
    let mut H = H;
    let ghost h0 = H@;
    let mut i: usize = 0;
    while i < M.len()
        invariant
            i <= M@.len(),
            H@ == spec_block_data_order(h0, spec_blocks_of_bytes(M@).take(i as int)),
        decreases M@.len() - i,
    {
        let ghost m = spec_block_words(M@[i as int]);
        // FIPS 180-4 6.1.2 Step 1
        let mut W = [0u32; ROUNDS];
        for t in 0..16
            invariant
                i < M@.len(),
                m == spec_block_words(M@[i as int]),
                forall|j: int| 0 <= j < t ==> W[j] == m[j],
        {
            W[t] = <u32 as Word>::from_be_bytes(M[i][t]);
        }
        for t in 16..ROUNDS
            invariant
                m.len() == 16,
                forall|j: int| 0 <= j < t ==> W[j] == spec_schedule_word(m, j as nat),
        {
            let wt = W[t - 3] ^ W[t - 8] ^ W[t - 14] ^ W[t - 16];
            W[t] = rotl(wt, 1);
        }
        let ghost w = spec_schedule(m);
        assert(W@ =~= w);

        // FIPS 180-4 6.1.2 Step 2
        let a = H[0];
        let b = H[1];
        let c = H[2];
        let d = H[3];
        let e = H[4];
        let ghost hi = H@;
        assert(seq![a, b, c, d, e] =~= hi);

        // FIPS 180-4 6.1.2 Step 3 with constants and functions from FIPS 180-4 {4.1.1, 4.2.1}
        let w0 = schedule_part(&W, 0);
        let (a, b, c, d, e) = step3_ch(a, b, c, d, e, w0);
        proof {
            lemma_phase_split(hi, w, w0@, 0, 0, 20);
        }
        let w1 = schedule_part(&W, 20);
        let (a, b, c, d, e) = step3_parity1(a, b, c, d, e, w1);
        proof {
            lemma_phase_split(hi, w, w1@, 0, 20, 20);
        }
        let w2 = schedule_part(&W, 40);
        let (a, b, c, d, e) = step3_maj(a, b, c, d, e, w2);
        proof {
            lemma_phase_split(hi, w, w2@, 0, 40, 20);
        }
        let w3 = schedule_part(&W, 60);
        let (a, b, c, d, e) = step3_parity2(a, b, c, d, e, w3);
        proof {
            lemma_phase_split(hi, w, w3@, 0, 60, 20);
        }
        assert(seq![a, b, c, d, e] == spec_rounds(hi, w, ROUNDS as nat));

        // FIPS 180-4 6.1.2 Step 4
        H[0] = H[0].wrapping_add(a);
        H[1] = H[1].wrapping_add(b);
        H[2] = H[2].wrapping_add(c);
        H[3] = H[3].wrapping_add(d);
        H[4] = H[4].wrapping_add(e);
        proof {
            assert(H@ =~= spec_process_block(hi, m));
            let blocks = spec_blocks_of_bytes(M@);
            assert(blocks.take(i + 1).drop_last() =~= blocks.take(i as int));
            assert(blocks.take(i + 1).last() == m);
        }
        i = i + 1;
    }
    assert(spec_blocks_of_bytes(M@).take(M@.len() as int) =~= spec_blocks_of_bytes(M@));
    H
}

/// The SHA-1 block function: updates `state` with the blocks of `data`.
pub fn block_data_order(state: &mut [u32; CHAINING_WORDS], data: &[[[u8; 4]; 16]])
    ensures
        final(state)@ == spec_block_data_order(old(state)@, spec_blocks_of_bytes(data@)),
{
    *state = block_data_order_(*state, data)
}

/// `ROTL^n(x) = ROTR^(32 - n)(x)` (FIPS 180-4 section 3.2), and bit `i` of
/// `ROTL^n(x)` is bit `(i - n) mod 32` of `x`.
pub proof fn lemma_rotl32_is_rotr32(x: u32, n: u32, i: u32)
    requires
        i < 32,
    ensures
        rotl32(x, n) == rotr32(x, ((32 - n % 32) % 32) as u32),
        (rotl32(x, n) >> i) & 1 == (x >> ((i + 32 - n % 32) % 32) as u32) & 1,
{
    let m = n % 32;
    let r = ((32 - m) % 32) as u32;
    assert(r % 32 == r);
    assert((x << m) | (x >> ((32 - m) % 32) as u32) == (x >> r) | (x << ((32 - r) % 32) as u32))
        by (bit_vector)
        requires
            m < 32,
            r == ((32 - m) % 32) as u32,
    ;
    assert(((x << m) | (x >> ((32 - m) % 32) as u32)) >> i & 1 == (x >> ((i + 32 - m) % 32) as u32)
        & 1) by (bit_vector)
        requires
            i < 32,
            m < 32,
    ;
}

/// Within one of the four stretches of twenty rounds, every round uses the same
/// function and constant: the rounds `t0 .. t0 + n` are `n` rounds of `step3`
/// with `f = f_t0` and `k = K_t0`.
pub proof fn lemma_phase_is_step3(v: Seq<u32>, w: Seq<u32>, t0: nat, n: nat)
    requires
        t0 == 0 || t0 == 20 || t0 == 40 || t0 == 60,
        n <= 20,
    ensures
        spec_phase(v, w, t0, n) == spec_step3(
            v,
            w,
            spec_k(t0),
            |x: u32, y: u32, z: u32| spec_f(t0, x, y, z),
            n,
        ),
    decreases n,
{
    if n > 0 {
        lemma_phase_is_step3(v, w, t0, (n - 1) as nat);
    }
}

/// Processing the blocks `a` and then the blocks `b` gives the chaining value
/// of processing `a + b`.
pub proof fn lemma_block_data_order_append(h: Seq<u32>, a: Seq<Seq<u32>>, b: Seq<Seq<u32>>)
    ensures
        spec_block_data_order(h, a + b) == spec_block_data_order(spec_block_data_order(h, a), b),
    decreases b.len(),
{
    if b.len() == 0 {
        assert(a + b =~= a);
    } else {
        lemma_block_data_order_append(h, a, b.drop_last());
        assert((a + b).drop_last() =~= a + b.drop_last());
        assert((a + b).last() == b.last());
    }
}

/// Feeding byte blocks in pieces: the block function over `a + b` is the block
/// function over `b` from the chaining value that `a` leaves; and no blocks
/// leave the chaining value as it is.
pub proof fn lemma_byte_blocks_append(h: Seq<u32>, a: Seq<[[u8; 4]; 16]>, b: Seq<[[u8; 4]; 16]>)
    ensures
        spec_block_data_order(h, spec_blocks_of_bytes(a + b)) == spec_block_data_order(
            spec_block_data_order(h, spec_blocks_of_bytes(a)),
            spec_blocks_of_bytes(b),
        ),
        spec_block_data_order(h, spec_blocks_of_bytes(Seq::empty())) == h,
{
    assert(spec_blocks_of_bytes(a + b) =~= spec_blocks_of_bytes(a) + spec_blocks_of_bytes(b));
    lemma_block_data_order_append(h, spec_blocks_of_bytes(a), spec_blocks_of_bytes(b));
    assert(spec_blocks_of_bytes(Seq::empty()) =~= Seq::<Seq<u32>>::empty());
}

/// `(x + k2) + (w + δ) == (x + k) + w` modulo `2^32` when `k2 + δ == k`.
proof fn lemma_add32_shift(x: u32, k: u32, k2: u32, w: u32, delta: u32)
    requires
        add32(k2, delta) == k,
    ensures
        add32(add32(x, k2), add32(w, delta)) == add32(add32(x, k), w),
{
}

/// The round constant `k` and the schedule words enter every round of `step3`
/// only through their sum: moving `δ` from the constant to every schedule word
/// (`k2 + δ == k`, `w2[i] == w[i] + δ`) changes nothing.
pub proof fn lemma_step3_constant_shift(
    v: Seq<u32>,
    w: Seq<u32>,
    w2: Seq<u32>,
    k: u32,
    k2: u32,
    delta: u32,
    f: spec_fn(u32, u32, u32) -> u32,
    n: nat,
)
    requires
        add32(k2, delta) == k,
        n <= w.len(),
        n <= w2.len(),
        forall|i: int| 0 <= i < n ==> w2[i] == add32(w[i], delta),
    ensures
        spec_step3(v, w2, k2, f, n) == spec_step3(v, w, k, f, n),
    decreases n,
{
    if n > 0 {
        lemma_step3_constant_shift(v, w, w2, k, k2, delta, f, (n - 1) as nat);
        let p = spec_step3(v, w, k, f, (n - 1) as nat);
        let x = add32(add32(rotl32(p[0], 5), f(p[1], p[2], p[3])), p[4]);
        lemma_add32_shift(x, k, k2, w[n - 1], delta);
    }
}

/// The SHA-1 arithmetic is the machine's: addition modulo `2^32`, `Parity` is
/// `x ^ y ^ z`, and the round functions and constants change every twenty
/// rounds as FIPS 180-4 4.1.1 and 4.2.1 list them.
pub proof fn lemma_sha1_operations(a: u32, b: u32, x: u32, y: u32, z: u32, t: nat)
    ensures
        add32(a, b) as int == (a as int + b as int) % 0x1_0000_0000,
        spec_parity(x, y, z) == x ^ y ^ z,
        t < 20 ==> spec_f(t, x, y, z) == (x & y) | (!x & z) && spec_k(t) == 0x5a827999,
        20 <= t < 40 ==> spec_f(t, x, y, z) == x ^ y ^ z && spec_k(t) == 0x6ed9eba1,
        40 <= t < 60 ==> spec_f(t, x, y, z) == (x & y) | (x & z) | (y & z) && spec_k(t)
            == 0x8f1bbcdc,
        60 <= t ==> spec_f(t, x, y, z) == x ^ y ^ z && spec_k(t) == 0xca62c1d6,
{
}

/// The message schedule: the first sixteen words are the block, and every later
/// word is `ROTL^1(W_{t-3} ^ W_{t-8} ^ W_{t-14} ^ W_{t-16})` of the earlier words.
pub proof fn lemma_schedule_recurrence(m: Seq<u32>, t: nat)
    ensures
        t < 16 ==> spec_schedule_word(m, t) == m[t as int],
        t >= 16 ==> spec_schedule_word(m, t) == rotl32(
            spec_schedule_word(m, (t - 3) as nat) ^ spec_schedule_word(m, (t - 8) as nat)
                ^ spec_schedule_word(m, (t - 14) as nat) ^ spec_schedule_word(m, (t - 16) as nat),
            1,
        ),
        spec_schedule(m).len() == ROUNDS,
        t < ROUNDS ==> spec_schedule(m)[t as int] == spec_schedule_word(m, t),
{
}

/// Each round: with `[a, b, c, d, e]` the working variables before round `n`,
/// `T = ROTL^5(a) + f_n(b, c, d) + e + K_n + W_n` and the variables after it are
/// `[T, a, ROTL^30(b), c, d]`; before the first round they are the chaining value.
pub proof fn lemma_round_step(v: Seq<u32>, w: Seq<u32>, n: nat)
    ensures
        spec_rounds(v, w, 0) == v,
        ({
            let p = spec_rounds(v, w, n);
            let r = spec_rounds(v, w, n + 1);
            &&& r.len() == 5
            &&& r[0] == add32(
                add32(add32(add32(rotl32(p[0], 5), spec_f(n, p[1], p[2], p[3])), p[4]), spec_k(n)),
                w[n as int],
            )
            &&& r[1] == p[0]
            &&& r[2] == rotl32(p[1], 30)
            &&& r[3] == p[2]
            &&& r[4] == p[3]
        }),
{
    assert((0 + (n + 1) - 1) as nat == n);
}

/// Processing a block adds the working variables after the 80 rounds over its
/// schedule to the chaining value, word by word (FIPS 180-4 6.1.2 step 4).
pub proof fn lemma_process_block_feed_forward(h: Seq<u32>, m: Seq<u32>)
    ensures
        spec_process_block(h, m).len() == CHAINING_WORDS,
        forall|i: int|
            0 <= i < CHAINING_WORDS ==> #[trigger] spec_process_block(h, m)[i] == add32(
                h[i],
                spec_rounds(h, spec_schedule(m), ROUNDS as nat)[i],
            ),
{
}

/// The block function processes the blocks in order, one block at a time: no
/// blocks leave the chaining value unchanged, and one more block is processed
/// from the chaining value the earlier ones leave.
pub proof fn lemma_block_data_order_steps(h: Seq<u32>, ms: Seq<Seq<u32>>, m: Seq<u32>)
    ensures
        spec_block_data_order(h, Seq::empty()) == h,
        spec_block_data_order(h, ms.push(m)) == spec_process_block(
            spec_block_data_order(h, ms),
            m,
        ),
        spec_block_data_order(h, seq![m]) == spec_process_block(h, m),
{
    assert(ms.push(m).drop_last() =~= ms);
    assert(seq![m].drop_last() =~= Seq::<Seq<u32>>::empty());
    assert(spec_block_data_order(h, seq![m].drop_last()) == h);
}

/// The words of a block of bytes are the big-endian values of its groups of four.
pub proof fn lemma_block_words(ms: Seq<[[u8; 4]; 16]>, i: int, t: int)
    requires
        0 <= i < ms.len(),
        0 <= t < 16,
    ensures
        spec_blocks_of_bytes(ms).len() == ms.len(),
        spec_blocks_of_bytes(ms)[i].len() == 16,
        spec_blocks_of_bytes(ms)[i][t] as int == ms[i][t][0] as int * 0x100_0000 + ms[i][t][1] as int
            * 0x1_0000 + ms[i][t][2] as int * 0x100 + ms[i][t][3] as int,
{
}

} // verus!
