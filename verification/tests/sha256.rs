use sha_blocks::digest::sha2::{
    block_data_order, block_data_order_slice, block_data_order_slice_words, compress_words,
    message_schedule_words, words_to_bytes, GFp_sha256_block_data_order, MAX_ROUNDS,
};

const SHA256_IV: [u32; 8] = [
    0x6a09e667, 0xbb67ae85, 0x3c6ef372, 0xa54ff53a, 0x510e527f, 0x9b05688c, 0x1f83d9ab, 0x5be0cd19,
];

const SHA224_IV: [u32; 8] = [
    0xc1059ed8, 0x367cd507, 0x3070dd17, 0xf70e5939, 0xffc00b31, 0x68581511, 0x64f98fa7, 0xbefa4fa4,
];

/// The message padded as FIPS 180-4 5.1.1 says, split into 64-byte blocks of
/// 4-byte groups.
fn padded_blocks(msg: &[u8]) -> Vec<[[u8; 4]; 16]> {
    let mut bytes = msg.to_vec();
    bytes.push(0x80);
    while bytes.len() % 64 != 56 {
        bytes.push(0);
    }
    bytes.extend_from_slice(&((msg.len() as u64) * 8).to_be_bytes());
    bytes
        .chunks(64)
        .map(|chunk| {
            let mut block = [[0u8; 4]; 16];
            for (i, w) in block.iter_mut().enumerate() {
                w.copy_from_slice(&chunk[4 * i..4 * i + 4]);
            }
            block
        })
        .collect()
}

fn block_words(block: &[[u8; 4]; 16]) -> [u32; 16] {
    let mut words = [0u32; 16];
    for (w, b) in words.iter_mut().zip(block.iter()) {
        *w = u32::from_be_bytes(*b);
    }
    words
}

const ABC_DIGEST: [u32; 8] = [
    0xba7816bf, 0x8f01cfea, 0x414140de, 0x5dae2223, 0xb00361a3, 0x96177a9c, 0xb410ff61, 0xf20015ad,
];

#[test]
fn sha256_abc_one_block() {
    let mut state = SHA256_IV;
    GFp_sha256_block_data_order(&mut state, &padded_blocks(b"abc"));
    assert_eq!(state, ABC_DIGEST);
}

#[test]
fn sha256_empty_message() {
    let mut state = SHA256_IV;
    GFp_sha256_block_data_order(&mut state, &padded_blocks(b""));
    assert_eq!(
        state,
        [0xe3b0c442, 0x98fc1c14, 0x9afbf4c8, 0x996fb924, 0x27ae41e4, 0x649b934c, 0xa495991b, 0x7852b855]
    );
}

#[test]
fn sha256_two_blocks() {
    let blocks = padded_blocks(b"abcdbcdecdefdefgefghfghighijhijkijkljklmklmnlmnomnopnopq");
    assert_eq!(blocks.len(), 2);
    let mut state = SHA256_IV;
    GFp_sha256_block_data_order(&mut state, &blocks);
    assert_eq!(
        state,
        [0x248d6a61, 0xd20638b8, 0xe5c02693, 0x0c3e6039, 0xa33ce459, 0x64ff2167, 0xf6ecedd4, 0x19db06c1]
    );
}

#[test]
fn sha256_blocks_fed_in_pieces() {
    let blocks = padded_blocks(b"abcdbcdecdefdefgefghfghighijhijkijkljklmklmnlmnomnopnopq");
    let mut whole = SHA256_IV;
    GFp_sha256_block_data_order(&mut whole, &blocks);
    let mut pieces = SHA256_IV;
    GFp_sha256_block_data_order(&mut pieces, &blocks[..1]);
    assert_ne!(pieces, whole);
    GFp_sha256_block_data_order(&mut pieces, &blocks[1..]);
    assert_eq!(pieces, whole);
}

#[test]
fn sha256_no_blocks_leaves_state() {
    let mut state = SHA256_IV;
    GFp_sha256_block_data_order(&mut state, &[]);
    assert_eq!(state, SHA256_IV);
    assert_eq!(block_data_order::<u32>(ABC_DIGEST, &[]), ABC_DIGEST);
}

#[test]
fn sha224_abc() {
    let mut state = SHA224_IV;
    GFp_sha256_block_data_order(&mut state, &padded_blocks(b"abc"));
    assert_eq!(
        state[..7],
        [0x23097d22, 0x3405d822, 0x8642a477, 0xbda255b3, 0x2aadbce4, 0xbda0b3f7, 0xe36c9da7]
    );
}

#[test]
fn sha256_message_schedule_of_abc() {
    let words = block_words(&padded_blocks(b"abc")[0]);
    let w = message_schedule_words::<u32>(&words);
    assert_eq!(w[..16], words[..]);
    assert_eq!(w[16], 0x61626380);
    assert_eq!(w[17], 0x000f0000);
    assert_eq!(w[18], 0x7da86405);
    assert_eq!(w[19], 0x600003c6);
    assert_eq!(w[63], 0x12b1edeb);
    assert_eq!(w.len(), MAX_ROUNDS);
    assert!(w[64..].iter().all(|x| *x == 0));
}

#[test]
fn sha256_compress_words_of_abc() {
    let words = block_words(&padded_blocks(b"abc")[0]);
    let w = message_schedule_words::<u32>(&words);
    assert_eq!(compress_words::<u32>(SHA256_IV, &w[..64]), ABC_DIGEST);
}

#[test]
fn sha256_words_and_bytes_agree() {
    let blocks = padded_blocks(b"abcdbcdecdefdefgefghfghighijhijkijkljklmklmnlmnomnopnopq");
    let word_blocks: Vec<[u32; 16]> = blocks.iter().map(block_words).collect();
    let by_words = block_data_order_slice_words::<u32>(SHA256_IV, &word_blocks);
    let by_bytes = block_data_order_slice::<u32>(SHA256_IV, &blocks);
    assert_eq!(by_words, by_bytes);

    // Encoding the words back with `words_to_bytes` gives the same byte blocks.
    for (wb, bb) in word_blocks.iter().zip(blocks.iter()) {
        let mut bytes = [[0u8; 4]; 16];
        words_to_bytes(wb, &mut bytes);
        assert_eq!(&bytes, bb);
    }
}
