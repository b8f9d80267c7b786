use sha_blocks::digest::sha2::{
    ch, compress_t1, compress_t2, maj, message_schedule_one, sigma_0, sigma_1, u32_from_be_bytes,
    u32_to_be_bytes, u64_from_be_bytes, unwrap_slice, words_to_bytes, wrap_slice, Sha2, Word,
    SIGMA_0, SIGMA_1, K256, K512,
};

#[test]
fn ch_selects_bits() {
    assert_eq!(ch(0xff00ff00u32, 0x12345678, 0x9abcdef0), 0x12bc56f0);
    assert_eq!(ch(0xffffffffu32, 0x12345678, 0x9abcdef0), 0x12345678);
    assert_eq!(ch(0u32, 0x12345678, 0x9abcdef0), 0x9abcdef0);
    assert_eq!(
        ch(0xff00ff00ff00ff00u64, 0x0123456789abcdef, 0xfedcba9876543210),
        0x01dc45988954cd10
    );
}

#[test]
fn maj_takes_majority() {
    assert_eq!(maj(0xff00ff00u32, 0x12345678, 0x9abcdef0), 0x9a34de70);
    assert_eq!(maj(0x12345678u32, 0x12345678, 0x9abcdef0), 0x12345678);
    assert_eq!(maj(0x9abcdef0u32, 0x12345678, 0xff00ff00), maj(0x12345678u32, 0xff00ff00, 0x9abcdef0));
}

#[test]
fn sigma_functions_u32() {
    let x = 0x6a09e667u32;
    assert_eq!(SIGMA_0(x), 0xce20b47e);
    assert_eq!(SIGMA_1(x), 0x55b65510);
    assert_eq!(sigma_0(x), 0xba0cf582);
    assert_eq!(sigma_1(x), 0xcfe5da3c);
}

#[test]
fn sigma_functions_u64() {
    let x = 0x6a09e667f3bcc908u64;
    assert_eq!(SIGMA_0(x), 0x08c4db56aac80c2a);
    assert_eq!(SIGMA_1(x), 0x259a6cc1643336ef);
    assert_eq!(sigma_0(x), 0x3dbae91951caa1df);
    assert_eq!(sigma_1(x), 0xc8c619e73ee44510);
}

#[test]
fn schedule_step_and_round_terms() {
    assert_eq!(
        message_schedule_one(0x11111111u32, 0x22222222, 0x33333333, 0x44444444),
        0xbde22220
    );
    assert_eq!(
        compress_t1(0x510e527fu32, 0x9b05688c, 0x1f83d9ab, 0x5be0cd19, 0x428a2f98, 0x61626380),
        0x54da50e8
    );
    assert_eq!(compress_t2(0x6a09e667u32, 0xbb67ae85, 0x3c6ef372), 0x08909ae5);
}

#[test]
fn word_operations_u32() {
    assert_eq!(0x12345678u32.rotr(8), 0x78123456);
    assert_eq!(0x12345678u32.rotr(36), 0x81234567);
    assert_eq!(0x12345678u32.rotr(0), 0x12345678);
    assert_eq!(0x12345678u32.rotr(32), 0x12345678);
    assert_eq!(Word::wrapping_add(0xffffffffu32, 2), 1);
    assert_eq!(<u32 as Word>::ZERO, 0);
    assert_eq!(0xf0f0f0f0u32.bitand(0xff00ff00), 0xf000f000);
    assert_eq!(0xf0f0f0f0u32.bitor(0x0f000000), 0xfff0f0f0);
    assert_eq!(Word::not(0xf0f0f0f0u32), 0x0f0f0f0f);
    assert_eq!(0xf0f0f0f0u32.bitxor(0xff00ff00), 0x0ff00ff0);
    assert_eq!(Sha2::shr(0x80000000u32, 31), 1);
    assert_eq!(Sha2::shr(0x80000000u32, 32), 0x80000000);
    assert_eq!(<u32 as Word>::from_be_bytes([0x12, 0x34, 0x56, 0x78]), 0x12345678);
    assert_eq!(<u32 as Sha2>::k().len(), 64);
    assert_eq!(<u32 as Sha2>::k()[63], 0xc67178f2);
    assert_eq!(K256[0], 0x428a2f98);
}

#[test]
fn word_operations_u64() {
    assert_eq!(0x0123456789abcdefu64.rotr(4), 0xf0123456789abcde);
    assert_eq!(0x0123456789abcdefu64.rotr(68), 0xf0123456789abcde);
    assert_eq!(Word::wrapping_add(u64::MAX, 3), 2);
    assert_eq!(Sha2::shr(0x8000000000000000u64, 63), 1);
    assert_eq!(
        <u64 as Word>::from_be_bytes([0x01, 0x23, 0x45, 0x67, 0x89, 0xab, 0xcd, 0xef]),
        0x0123456789abcdef
    );
    assert_eq!(<u64 as Sha2>::k().len(), 80);
    assert_eq!(<u64 as Sha2>::k()[79], 0x6c44198c4a475817);
    assert_eq!(K512[0], 0x428a2f98d728ae22);
}

#[test]
fn big_endian_conversions() {
    assert_eq!(u32_from_be_bytes([0xde, 0xad, 0xbe, 0xef]), 0xdeadbeef);
    assert_eq!(u32_to_be_bytes(0xdeadbeef), [0xde, 0xad, 0xbe, 0xef]);
    assert_eq!(u32_from_be_bytes(u32_to_be_bytes(0x01020304)), 0x01020304);
    assert_eq!(
        u64_from_be_bytes([0x01, 0x02, 0x03, 0x04, 0x05, 0x06, 0x07, 0x08]),
        0x0102030405060708
    );
}

#[test]
fn slice_copies() {
    let src = [1u32, 2, 3, 4];
    let mut dest = [0u32; 4];
    wrap_slice(&src, &mut dest);
    assert_eq!(dest, src);
    let mut back = [9u32; 4];
    unwrap_slice(&dest, &mut back);
    assert_eq!(back, src);
    let mut bytes = [[0u8; 4]; 2];
    words_to_bytes(&[0x01020304, 0xa0b0c0d0], &mut bytes);
    assert_eq!(bytes, [[1, 2, 3, 4], [0xa0, 0xb0, 0xc0, 0xd0]]);
}
