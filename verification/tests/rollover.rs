use tf_random::splittable::{pack, RawGen, Splittable};
use tf_random::tf::tf256_process_block;

const LAST_LEVEL: u64 = u64::MAX - 1;

fn seed() -> [u8; 32] {
    [0xa5; 32]
}

fn state(g: &RawGen) -> ([u8; 32], u64, u64, u16) {
    (g.key(), g.level(), g.position(), g.p_index())
}

#[test]
fn resume_restores_a_state() {
    let g = RawGen::resume(seed(), 12, 0b101, 3).unwrap();
    assert_eq!(state(&g), (seed(), 12, 0b101, 3));
    let mut a = RawGen::new(seed());
    a.g_next();
    let mut c = a.split();
    c.g_next();
    let mut d = RawGen::resume(c.key(), c.level(), c.position(), c.p_index()).unwrap();
    assert_eq!(c.g_next(), d.g_next());
    assert_eq!(state(&c), state(&d));
}

#[test]
fn resume_refuses_the_limit_level() {
    assert!(RawGen::resume(seed(), u64::MAX, 0, 0).is_none());
    assert!(RawGen::resume(seed(), u64::MAX - 1, 0, 0).is_some());
}

#[test]
fn resume_refuses_more_than_64_bits() {
    assert!(RawGen::resume(seed(), 0, 0, 65).is_none());
    assert!(RawGen::resume(seed(), 0, 0, u16::MAX).is_none());
    assert!(RawGen::resume(seed(), 0, u64::MAX, 64).is_some());
}

#[test]
fn resume_refuses_a_bit_above_the_committed_ones() {
    assert!(RawGen::resume(seed(), 0, 1, 0).is_none());
    assert!(RawGen::resume(seed(), 0, 0b100, 2).is_none());
    assert!(RawGen::resume(seed(), 0, 1 << 63, 63).is_none());
    assert!(RawGen::resume(seed(), 0, 0b11, 2).is_some());
    assert!(RawGen::resume(seed(), 0, 1 << 63, 64).is_some());
}

#[test]
fn level_below_the_last_just_goes_up() {
    let mut g = RawGen::resume(seed(), LAST_LEVEL - 1, 0b1, 1).unwrap();
    let out = g.g_next();
    assert_eq!(out, tf256_process_block(&seed(), &pack(LAST_LEVEL - 1, 0b1)));
    assert_eq!(state(&g), (seed(), LAST_LEVEL, 0b1, 1));
}

#[test]
fn last_level_commits_the_next_bit() {
    let mut g = RawGen::resume(seed(), LAST_LEVEL, 0b010, 3).unwrap();
    let out = g.g_next();
    assert_eq!(out, tf256_process_block(&seed(), &pack(LAST_LEVEL, 0b010)));
    assert_eq!(state(&g), (seed(), 0, 0b1010, 4));
    let next = g.g_next();
    assert_eq!(next, tf256_process_block(&seed(), &pack(0, 0b1010)));
    assert_eq!(state(&g), (seed(), 1, 0b1010, 4));
}

#[test]
fn last_level_of_a_new_generator_commits_bit_zero() {
    let mut g = RawGen::resume(seed(), LAST_LEVEL, 0, 0).unwrap();
    g.g_next();
    assert_eq!(state(&g), (seed(), 0, 1, 1));
}

#[test]
fn last_level_commits_the_last_free_bit() {
    let mut g = RawGen::resume(seed(), LAST_LEVEL, 7, 63).unwrap();
    g.g_next();
    assert_eq!(state(&g), (seed(), 0, (1 << 63) | 7, 64));
}

#[test]
fn last_level_with_no_free_bit_takes_a_new_key() {
    let position = 0xdead_beef_0000_0001;
    let mut g = RawGen::resume(seed(), LAST_LEVEL, position, 64).unwrap();
    let out = g.g_next();
    assert_eq!(out, tf256_process_block(&seed(), &pack(LAST_LEVEL, position)));
    let key = tf256_process_block(&seed(), &pack(u64::MAX, position));
    assert_eq!(state(&g), (key, 0, 0, 0));
    assert_ne!(key, out);
    let next = g.g_next();
    assert_eq!(next, tf256_process_block(&key, &pack(0, 0)));
    assert_eq!(state(&g), (key, 1, 0, 0));
}

#[test]
fn rollover_walks_through_every_bit_and_then_takes_a_new_key() {
    let mut g = RawGen::new(seed());
    let mut points: Vec<(u64, u64)> = Vec::new();
    for committed in 0..=64u16 {
        assert_eq!(g.key(), seed());
        assert_eq!(g.p_index(), committed);
        let expected = if committed == 0 { 0 } else { u64::MAX >> (64 - committed) };
        assert_eq!(g.position(), expected);
        points.push((g.level(), g.position()));
        g = RawGen::resume(g.key(), LAST_LEVEL, g.position(), g.p_index()).unwrap();
        points.push((g.level(), g.position()));
        g.g_next();
        assert_eq!(g.level(), 0);
    }
    assert_eq!(g.key(), tf256_process_block(&seed(), &pack(u64::MAX, u64::MAX)));
    assert_eq!(state(&g).1, 0);
    assert_eq!(state(&g).2, 0);
    assert_eq!(state(&g).3, 0);
    for i in 0..points.len() {
        for j in 0..i {
            assert_ne!(points[i], points[j]);
        }
    }
}
