use tf_random::endian::bytes_to_half_words;
use tf_random::splittable::{Gen, RawGen, Splittable};

fn seed() -> [u8; 32] {
    let mut b = [0u8; 32];
    for (i, x) in b.iter_mut().enumerate() {
        *x = (200 - i) as u8;
    }
    b
}

fn blocks(n: usize) -> Vec<[u8; 32]> {
    let mut raw = RawGen::new(seed());
    (0..n).map(|_| raw.g_next()).collect()
}

#[test]
fn first_word_of_zero_seed() {
    let mut g = Gen::new([0u8; 32]);
    assert_eq!(g.next_u32(), 0x1f2a_da84);
    assert_eq!(g.next_u32(), 0x94ee_ea8b);
}

#[test]
fn words_are_the_words_of_the_blocks_in_order() {
    let expected = blocks(5);
    let mut g = Gen::new(seed());
    for block in expected.iter() {
        let words = bytes_to_half_words(block);
        for w in words.iter() {
            assert_eq!(g.next_u32(), *w);
        }
    }
}

#[test]
fn from_raw_starts_with_an_empty_cache() {
    let mut raw = RawGen::new(seed());
    raw.g_next();
    raw.g_next();
    let mut g = Gen::from_raw(raw);
    let third = &blocks(3)[2];
    assert_eq!(g.next_u32(), bytes_to_half_words(third)[0]);
}

#[test]
fn fill_bytes_writes_the_blocks_in_order() {
    let expected: Vec<u8> = blocks(4).concat();
    for len in [0usize, 1, 4, 31, 32, 33, 64, 65, 100, 128] {
        let mut g = Gen::new(seed());
        let mut dest = vec![0xeeu8; len];
        g.fill_bytes(&mut dest);
        assert_eq!(dest, expected[..len].to_vec());
    }
}

#[test]
fn fill_bytes_uses_one_block_for_every_started_chunk() {
    for (len, used) in [(0usize, 0usize), (1, 1), (32, 1), (33, 2), (64, 2), (65, 3)] {
        let mut g = Gen::new(seed());
        let mut dest = vec![0u8; len];
        g.fill_bytes(&mut dest);
        let all = blocks(used + 1);
        assert_eq!(g.next_u32(), bytes_to_half_words(&all[used])[0]);
    }
}

#[test]
fn fill_bytes_leaves_the_cached_words_alone() {
    let all = blocks(3);
    let mut g = Gen::new(seed());
    assert_eq!(g.next_u32(), bytes_to_half_words(&all[0])[0]);
    let mut dest = [0u8; 10];
    g.fill_bytes(&mut dest);
    assert_eq!(dest[..], all[1][..10]);
    for i in 1..8 {
        assert_eq!(g.next_u32(), bytes_to_half_words(&all[0])[i]);
    }
    assert_eq!(g.next_u32(), bytes_to_half_words(&all[2])[0]);
}

#[test]
fn first_bytes_spell_first_word() {
    let mut parent = Gen::new(seed());
    let mut other = Gen::new(seed());
    let mut by_bytes = parent.split();
    let mut by_words = other.split();
    let mut dest = [0u8; 4];
    by_bytes.fill_bytes(&mut dest);
    assert_eq!(dest, by_words.next_u32().to_le_bytes());
    let mut fresh_bytes = Gen::new(seed());
    let mut fresh_words = Gen::new(seed());
    let mut dest = [0u8; 4];
    fresh_bytes.fill_bytes(&mut dest);
    assert_eq!(dest, fresh_words.next_u32().to_le_bytes());
}

#[test]
fn bytes_spell_words_throughout() {
    let mut by_bytes = Gen::new(seed());
    let mut by_words = Gen::new(seed());
    let mut dest = [0u8; 96];
    by_bytes.fill_bytes(&mut dest);
    for k in 0..24 {
        assert_eq!(dest[4 * k..4 * k + 4], by_words.next_u32().to_le_bytes());
    }
}
