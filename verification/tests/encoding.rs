use tf_random::endian::{bytes_to_half_words, bytes_to_words, words_to_bytes};
use tf_random::splittable::pack;

fn counting() -> [u8; 32] {
    let mut b = [0u8; 32];
    for (i, x) in b.iter_mut().enumerate() {
        *x = i as u8;
    }
    b
}

#[test]
fn words_are_read_little_endian() {
    assert_eq!(
        bytes_to_words(&counting()),
        [
            0x0706050403020100,
            0x0f0e0d0c0b0a0908,
            0x1716151413121110,
            0x1f1e1d1c1b1a1918
        ]
    );
}

#[test]
fn words_are_written_little_endian() {
    let words = [
        0x0706050403020100u64,
        0x0f0e0d0c0b0a0908,
        0x1716151413121110,
        0x1f1e1d1c1b1a1918,
    ];
    assert_eq!(words_to_bytes(&words), counting());
    let mut one = [0u8; 32];
    one[0] = 1;
    assert_eq!(words_to_bytes(&[1, 0, 0, 0]), one);
    let mut top = [0u8; 32];
    top[31] = 0x80;
    assert_eq!(words_to_bytes(&[0, 0, 0, 0x8000_0000_0000_0000]), top);
}

#[test]
fn half_words_are_read_little_endian() {
    assert_eq!(
        bytes_to_half_words(&counting()),
        [
            0x03020100, 0x07060504, 0x0b0a0908, 0x0f0e0d0c, 0x13121110, 0x17161514, 0x1b1a1918,
            0x1f1e1d1c
        ]
    );
    assert_eq!(bytes_to_half_words(&[0xff; 32]), [u32::MAX; 8]);
}

#[test]
fn words_and_bytes_round_trip() {
    let words = [u64::MAX, 0, 0x0123_4567_89ab_cdef, 1 << 63];
    assert_eq!(bytes_to_words(&words_to_bytes(&words)), words);
    let bytes = counting();
    assert_eq!(words_to_bytes(&bytes_to_words(&bytes)), bytes);
}

#[test]
fn words_agree_with_std() {
    let bytes = counting();
    let words = bytes_to_words(&bytes);
    let halves = bytes_to_half_words(&bytes);
    for i in 0..4 {
        let mut w = [0u8; 8];
        w.copy_from_slice(&bytes[8 * i..8 * i + 8]);
        assert_eq!(words[i], u64::from_le_bytes(w));
    }
    for i in 0..8 {
        let mut h = [0u8; 4];
        h.copy_from_slice(&bytes[4 * i..4 * i + 4]);
        assert_eq!(halves[i], u32::from_le_bytes(h));
    }
}

#[test]
fn pack_lays_out_level_then_position() {
    let blk = pack(0x0102030405060708, 0x1112131415161718);
    assert_eq!(
        blk,
        [
            0x08, 0x07, 0x06, 0x05, 0x04, 0x03, 0x02, 0x01, 0x18, 0x17, 0x16, 0x15, 0x14, 0x13,
            0x12, 0x11, 0, 0, 0, 0, 0, 0, 0, 0, 0, 0, 0, 0, 0, 0, 0, 0
        ]
    );
    assert_eq!(pack(0, 0), [0u8; 32]);
    assert_ne!(pack(1, 0), pack(0, 1));
}
