use tf_random::splittable::{Gen, Splittable};
use tf_random::tf;

#[test]
fn tf_determinism() {
    let s = [42; 1000];
    let key = [0; 32];
    let h = tf::tf256_hash(&key, &s[..]);
    let t = [42; 1000];
    let kei = [0; 32];
    let i = tf::tf256_hash(&kei, &t[..]);
    assert_eq![h, i];
}

#[test]
fn rng_determinism() {
    let k = [32; 32];
    let mut g = Gen::new(k);
    let mut h = Gen::new(k);
    for _ in 0..100000 {
        let a = g.next_u32();
        let b = h.next_u32();
        assert_eq!(a, b);
        println!("{}", a);
    }
}

#[test]
fn same_calls_same_replies() {
    let seed = [7u8; 32];
    let mut g = Gen::new(seed);
    let mut h = Gen::new(seed);
    for round in 0..50usize {
        assert_eq!(g.next_u32(), h.next_u32());
        let mut a = vec![0u8; round * 3];
        let mut b = vec![0u8; round * 3];
        g.fill_bytes(&mut a);
        h.fill_bytes(&mut b);
        assert_eq!(a, b);
        let mut gc = g.split();
        let mut hc = h.split();
        for _ in 0..9 {
            assert_eq!(gc.next_u32(), hc.next_u32());
        }
    }
    assert_eq!(g.next_u32(), h.next_u32());
}

#[test]
fn different_seeds_differ() {
    let mut g = Gen::new([1u8; 32]);
    let mut h = Gen::new([2u8; 32]);
    let a: Vec<u32> = (0..8).map(|_| g.next_u32()).collect();
    let b: Vec<u32> = (0..8).map(|_| h.next_u32()).collect();
    assert_ne!(a, b);
}
