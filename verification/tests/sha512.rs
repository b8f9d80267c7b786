use sha_blocks::digest::sha2::{
    block_data_order_slice, block_data_order_slice_words, message_schedule_one,
    message_schedule_words, sigma_0, sigma_1,
    GFp_sha512_block_data_order,
};

const SHA512_IV: [u64; 8] = [
    0x6a09e667f3bcc908,
    0xbb67ae8584caa73b,
    0x3c6ef372fe94f82b,
    0xa54ff53a5f1d36f1,
    0x510e527fade682d1,
    0x9b05688c2b3e6c1f,
    0x1f83d9abfb41bd6b,
    0x5be0cd19137e2179,
];

const SHA384_IV: [u64; 8] = [
    0xcbbb9d5dc1059ed8,
    0x629a292a367cd507,
    0x9159015a3070dd17,
    0x152fecd8f70e5939,
    0x67332667ffc00b31,
    0x8eb44a8768581511,
    0xdb0c2e0d64f98fa7,
    0x47b5481dbefa4fa4,
];

/// The message padded as FIPS 180-4 5.1.2 says, split into 128-byte blocks of
/// 8-byte groups.
fn padded_blocks_1024(msg: &[u8]) -> Vec<[[u8; 8]; 16]> {
    let mut bytes = msg.to_vec();
    bytes.push(0x80);
    while bytes.len() % 128 != 112 {
        bytes.push(0);
    }
    bytes.extend_from_slice(&((msg.len() as u128) * 8).to_be_bytes());
    bytes
        .chunks(128)
        .map(|chunk| {
            let mut block = [[0u8; 8]; 16];
            for (i, w) in block.iter_mut().enumerate() {
                w.copy_from_slice(&chunk[8 * i..8 * i + 8]);
            }
            block
        })
        .collect()
}

#[test]
fn sha512_abc_one_block() {
    let mut state = SHA512_IV;
    GFp_sha512_block_data_order(&mut state, &padded_blocks_1024(b"abc"));
    assert_eq!(
        state,
        [
            0xddaf35a193617aba,
            0xcc417349ae204131,
            0x12e6fa4e89a97ea2,
            0x0a9eeee64b55d39a,
            0x2192992a274fc1a8,
            0x36ba3c23a3feebbd,
            0x454d4423643ce80e,
            0x2a9ac94fa54ca49f,
        ]
    );
}

#[test]
fn sha512_two_blocks() {
    let msg = b"abcdefghbcdefghicdefghijdefghijkefghijklfghijklmghijklmnhijklmnoijklmnopjklmnopqklmnopqrlmnopqrsmnopqrstnopqrstu";
    let blocks = padded_blocks_1024(msg);
    assert_eq!(blocks.len(), 2);
    let mut state = SHA512_IV;
    GFp_sha512_block_data_order(&mut state, &blocks);
    assert_eq!(
        state,
        [
            0x8e959b75dae313da,
            0x8cf4f72814fc143f,
            0x8f7779c6eb9f7fa1,
            0x7299aeadb6889018,
            0x501d289e4900f7e4,
            0x331b99dec4b5433a,
            0xc7d329eeb6dd2654,
            0x5e96e55b874be909,
        ]
    );
}

#[test]
fn sha384_abc() {
    let mut state = SHA384_IV;
    GFp_sha512_block_data_order(&mut state, &padded_blocks_1024(b"abc"));
    assert_eq!(
        state[..6],
        [
            0xcb00753f45a35e8b,
            0xb5a03d699ac65007,
            0x272c32ab0eded163,
            0x1a8b605a43ff5bed,
            0x8086072ba1e7cc23,
            0x58baeca134c825a7,
        ]
    );
}

#[test]
fn sha512_words_and_bytes_agree() {
    let blocks = padded_blocks_1024(b"abc");
    let words: Vec<[u64; 16]> = blocks
        .iter()
        .map(|b| {
            let mut w = [0u64; 16];
            for (x, y) in w.iter_mut().zip(b.iter()) {
                *x = u64::from_be_bytes(*y);
            }
            w
        })
        .collect();
    assert_eq!(
        block_data_order_slice_words::<u64>(SHA512_IV, &words),
        block_data_order_slice::<u64>(SHA512_IV, &blocks)
    );
    let w = message_schedule_words::<u64>(&words[0]);
    assert_eq!(w[..16], words[0][..]);
    let w16 = sigma_1(w[14]).wrapping_add(w[9]).wrapping_add(sigma_0(w[1])).wrapping_add(w[0]);
    assert_eq!(w[16], w16);
    assert_eq!(w[79], message_schedule_one(w[77], w[72], w[64], w[63]));
}
