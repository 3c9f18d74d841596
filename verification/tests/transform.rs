use tf_random::splittable::{pack, RawGen};
use tf_random::tf::{padded_chunk, tf256_hash, tf256_process_block, Block};
use threefish::cipher::{Block as CipherBlock, BlockCipherEncrypt};
use threefish::Threefish256;

const ZERO_VECTOR: Block = [
    0x84, 0xDA, 0x2A, 0x1F, 0x8B, 0xEA, 0xEE, 0x94, 0x70, 0x66, 0xAE, 0x3E, 0x31, 0x03, 0xF1, 0xAD,
    0x53, 0x6D, 0xB1, 0xF4, 0xA1, 0x19, 0x24, 0x95, 0x11, 0x6B, 0x9F, 0x3C, 0xE6, 0x13, 0x3F, 0xD8,
];

fn counting(from: u8) -> Block {
    let mut b = [0u8; 32];
    for (i, x) in b.iter_mut().enumerate() {
        *x = from.wrapping_add(i as u8);
    }
    b
}

fn by_bytes(key: &Block, blk: &Block) -> Block {
    let cipher = Threefish256::new_with_tweak(key, &[0u8; 16]);
    let mut block = CipherBlock::<Threefish256>::from(*blk);
    cipher.encrypt_block(&mut block);
    block.into()
}

#[test]
fn transform_of_zero_block_under_zero_key() {
    assert_eq!(tf256_process_block(&[0u8; 32], &[0u8; 32]), ZERO_VECTOR);
}

#[test]
fn transform_is_not_the_identity() {
    let blk = counting(1);
    let key = counting(100);
    let out = tf256_process_block(&key, &blk);
    assert_ne!(out, blk);
    assert_ne!(out, key);
}

#[test]
fn transform_agrees_with_the_byte_interface_of_the_cipher() {
    for k in 0..20u8 {
        let key = counting(k.wrapping_mul(13));
        let blk = counting(k.wrapping_mul(29).wrapping_add(5));
        assert_eq!(tf256_process_block(&key, &blk), by_bytes(&key, &blk));
    }
}

#[test]
fn transform_depends_on_key_and_block() {
    let key = counting(3);
    let blk = counting(9);
    let out = tf256_process_block(&key, &blk);
    let mut key2 = key;
    key2[31] ^= 0x80;
    let mut blk2 = blk;
    blk2[0] ^= 1;
    assert_ne!(tf256_process_block(&key2, &blk), out);
    assert_ne!(tf256_process_block(&key, &blk2), out);
}

#[test]
fn first_block_of_zero_seed() {
    let mut g = RawGen::new([0u8; 32]);
    assert_eq!(g.g_next(), ZERO_VECTOR);
}

#[test]
fn block_is_transform_of_packed_counters() {
    let seed = counting(50);
    let mut g = RawGen::new(seed);
    for level in 0..5u64 {
        assert_eq!(g.g_next(), tf256_process_block(&seed, &pack(level, 0)));
    }
}

#[test]
fn padded_chunk_copies_and_pads() {
    let msg: Vec<u8> = (1..=40u8).collect();
    let mut first = [0u8; 32];
    for i in 0..32 {
        first[i] = (i + 1) as u8;
    }
    assert_eq!(padded_chunk(&msg, 0), first);
    let mut second = [0u8; 32];
    for i in 0..8 {
        second[i] = (i + 33) as u8;
    }
    assert_eq!(padded_chunk(&msg, 32), second);
    assert_eq!(padded_chunk(&msg, 40), [0u8; 32]);
    assert_eq!(padded_chunk(&msg, usize::MAX), [0u8; 32]);
    assert_eq!(padded_chunk(&[], 0), [0u8; 32]);
    let mut tail = [0u8; 32];
    tail[0] = 40;
    assert_eq!(padded_chunk(&msg, 39), tail);
}

#[test]
fn hash_of_empty_message_is_the_key() {
    let key = counting(11);
    assert_eq!(tf256_hash(&key, &[]), key);
}

#[test]
fn hash_of_one_chunk_is_one_transform() {
    let key = counting(11);
    let msg = counting(200);
    assert_eq!(tf256_hash(&key, &msg), tf256_process_block(&key, &msg));
}

#[test]
fn hash_of_zero_chunk_under_zero_key() {
    assert_eq!(tf256_hash(&[0u8; 32], &[0u8; 32]), ZERO_VECTOR);
    assert_eq!(tf256_hash(&[0u8; 32], &[0u8; 1]), ZERO_VECTOR);
}

#[test]
fn hash_pads_short_last_chunk_with_zeros() {
    let key = counting(1);
    let msg = [9u8, 8, 7];
    let mut padded = [0u8; 32];
    padded[..3].copy_from_slice(&msg);
    assert_eq!(tf256_hash(&key, &msg), tf256_process_block(&key, &padded));
    assert_eq!(tf256_hash(&key, &msg), tf256_hash(&key, &padded));
}

#[test]
fn hash_chains_over_chunks() {
    let key = counting(77);
    let msg: Vec<u8> = (0..100u32).map(|i| (i * 7 % 251) as u8).collect();
    let k1 = tf256_process_block(&key, &padded_chunk(&msg, 0));
    let k2 = tf256_process_block(&k1, &padded_chunk(&msg, 32));
    let k3 = tf256_process_block(&k2, &padded_chunk(&msg, 64));
    let k4 = tf256_process_block(&k3, &padded_chunk(&msg, 96));
    assert_eq!(tf256_hash(&key, &msg), k4);
    assert_eq!(tf256_hash(&key, &msg), tf256_hash(&tf256_hash(&key, &msg[..64]), &msg[64..]));
}

#[test]
fn hash_of_thousand_bytes_twice() {
    let key = [0u8; 32];
    let msg = [42u8; 1000];
    let first = tf256_hash(&key, &msg);
    let second = tf256_hash(&key, &msg);
    assert_eq!(first, second);
    assert_eq!(first.len(), 32);
    assert_ne!(first, key);
    assert_ne!(first, tf256_hash(&key, &msg[..999]));
}
