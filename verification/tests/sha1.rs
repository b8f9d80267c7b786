use sha_blocks::digest::sha2::Word;
use sha_blocks::digest::sha1::{
    block_data_order, parity, rotl, step3_ch, step3_maj, step3_parity1, step3_parity2, BLOCK_LEN,
    CHAINING_LEN, OUTPUT_LEN,
};

const SHA1_IV: [u32; 5] = [0x67452301, 0xefcdab89, 0x98badcfe, 0x10325476, 0xc3d2e1f0];

fn padded_blocks(msg: &[u8]) -> Vec<[[u8; 4]; 16]> {
    let mut bytes = msg.to_vec();
    bytes.push(0x80);
    while bytes.len() % 64 != 56 {
        bytes.push(0);
    }
    bytes.extend_from_slice(&((msg.len() as u64) * 8).to_be_bytes());
    bytes
        .chunks(64)
        .map(|chunk| {
            let mut block = [[0u8; 4]; 16];
            for (i, w) in block.iter_mut().enumerate() {
                w.copy_from_slice(&chunk[4 * i..4 * i + 4]);
            }
            block
        })
        .collect()
}

/// The 80 schedule words of the padded block of "abc", computed here directly.
fn abc_schedule() -> [u32; 80] {
    let block = padded_blocks(b"abc")[0];
    let mut w = [0u32; 80];
    for t in 0..16 {
        w[t] = u32::from_be_bytes(block[t]);
    }
    for t in 16..80 {
        w[t] = (w[t - 3] ^ w[t - 8] ^ w[t - 14] ^ w[t - 16]).rotate_left(1);
    }
    w
}

fn part(w: &[u32; 80], start: usize) -> [u32; 20] {
    let mut p = [0u32; 20];
    p.copy_from_slice(&w[start..start + 20]);
    p
}

#[test]
fn sha1_lengths() {
    assert_eq!(BLOCK_LEN, 64);
    assert_eq!(CHAINING_LEN, 20);
    assert_eq!(OUTPUT_LEN, 20);
}

#[test]
fn sha1_abc_one_block() {
    let mut state = SHA1_IV;
    block_data_order(&mut state, &padded_blocks(b"abc"));
    assert_eq!(state, [0xa9993e36, 0x4706816a, 0xba3e2571, 0x7850c26c, 0x9cd0d89d]);
}

#[test]
fn sha1_empty_message() {
    let mut state = SHA1_IV;
    block_data_order(&mut state, &padded_blocks(b""));
    assert_eq!(state, [0xda39a3ee, 0x5e6b4b0d, 0x3255bfef, 0x95601890, 0xafd80709]);
}

#[test]
fn sha1_two_blocks() {
    let blocks = padded_blocks(b"abcdbcdecdefdefgefghfghighijhijkijkljklmklmnlmnomnopnopq");
    assert_eq!(blocks.len(), 2);
    let mut state = SHA1_IV;
    block_data_order(&mut state, &blocks);
    assert_eq!(state, [0x84983e44, 0x1c3bd26e, 0xbaae4aa1, 0xf95129e5, 0xe54670f1]);
    let mut pieces = SHA1_IV;
    block_data_order(&mut pieces, &blocks[..1]);
    block_data_order(&mut pieces, &blocks[1..]);
    assert_eq!(pieces, state);
}

#[test]
fn sha1_no_blocks_leaves_state() {
    let mut state = SHA1_IV;
    block_data_order(&mut state, &[]);
    assert_eq!(state, SHA1_IV);
}

#[test]
fn sha1_round_phases_of_abc() {
    let w = abc_schedule();
    let [a, b, c, d, e] = SHA1_IV;
    let v1 = step3_ch(a, b, c, d, e, part(&w, 0));
    assert_eq!(v1, (0xfd9e1d7d, 0xdc64901d, 0x20aa99ca, 0xd3a49608, 0xc82f758b));
    let v2 = step3_parity1(v1.0, v1.1, v1.2, v1.3, v1.4, part(&w, 20));
    assert_eq!(v2, (0x32de1cba, 0x4c986405, 0xf718e5cf, 0x03d447f6, 0xf72eec32));
    let v3 = step3_maj(v2.0, v2.1, v2.2, v2.3, v2.4, part(&w, 40));
    assert_eq!(v3, (0x3f52de5a, 0x09d785fd, 0x3498bfd4, 0xf211824f, 0xd79915ab));
    let v4 = step3_parity2(v3.0, v3.1, v3.2, v3.3, v3.4, part(&w, 60));
    assert_eq!(v4, (0x42541b35, 0x5738d5e1, 0x21834873, 0x681e6df6, 0xd8fdf6ad));
    assert_eq!(SHA1_IV[0].wrapping_add(v4.0), 0xa9993e36);
}

#[test]
fn sha1_parity_and_rotl() {
    assert_eq!(parity(0x12345678, 0x9abcdef0, 0x0f0f0f0f), 0x87878787);
    assert_eq!(parity(0xffffffff, 0xffffffff, 0), 0);
    assert_eq!(rotl(0x12345678, 8), 0x34567812);
    assert_eq!(rotl(0x80000001, 1), 0x00000003);
    assert_eq!(rotl(0x12345678, 0), 0x12345678);
    assert_eq!(rotl(0x12345678, 40), 0x34567812);
    // ROTL^n = ROTR^(32 - n)
    for n in 1..32u32 {
        assert_eq!(rotl(0xdeadbeef, n), Word::rotr(0xdeadbeefu32, 32 - n));
    }
}
