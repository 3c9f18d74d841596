//! Little-endian encoding of integers as bytes.
//!
//! Every conversion between counters, cipher words, output words and bytes in
//! this crate goes through this module, so the byte order is fixed in one
//! place and does not depend on the machine: the byte at the lowest index is
//! always the least significant one.

use vstd::arithmetic::div_mod::lemma_breakdown;
use vstd::prelude::*;

verus! {

/// 256 to the power `n`.
pub open spec fn pow256(n: nat) -> nat
    decreases n,
{
    if n == 0 {
        1
    } else {
        256 * pow256((n - 1) as nat)
    }
}

/// The number that `bytes` spell when read least significant byte first:
/// the sum of `bytes[i] * 256^i`.
pub open spec fn le_value(bytes: Seq<u8>) -> nat
    decreases bytes.len(),
{
    if bytes.len() == 0 {
        0
    } else {
        bytes[0] as nat + 256 * le_value(bytes.drop_first())
    }
}

/// Digit `j` of `v` in base 256, digit 0 being the least significant.
pub open spec fn le_digit(v: nat, j: nat) -> u8
    decreases j,
{
    if j == 0 {
        (v % 256) as u8
    } else {
        le_digit(v / 256, (j - 1) as nat)
    }
}

/// The `n` least significant base-256 digits of `v`, least significant first.
pub open spec fn le_bytes(v: nat, n: nat) -> Seq<u8> {
    Seq::new(n, |j: int| le_digit(v, j as nat))
}

/// The four 64-bit words of a 32-byte block, each read little-endian from
/// eight consecutive bytes.
pub open spec fn words_of_block(bytes: Seq<u8>) -> Seq<u64> {
    Seq::new(4, |i: int| le_value(bytes.subrange(8 * i, 8 * i + 8)) as u64)
}

/// The 32 bytes of four 64-bit words, each written little-endian into eight
/// consecutive bytes.
pub open spec fn block_of_words(words: Seq<u64>) -> Seq<u8> {
    Seq::new(32, |k: int| le_digit(words[k / 8] as nat, (k % 8) as nat))
}

/// The eight 32-bit words of a 32-byte block, each read little-endian from
/// four consecutive bytes.
pub open spec fn half_words_of_block(bytes: Seq<u8>) -> Seq<u32> {
    Seq::new(8, |i: int| le_value(bytes.subrange(4 * i, 4 * i + 4)) as u32)
}

/// The powers of 256 that fit the integer types used here.
pub proof fn lemma_pow256_values()
    ensures
        pow256(0) == 1,
        pow256(1) == 0x100,
        pow256(2) == 0x1_0000,
        pow256(3) == 0x100_0000,
        pow256(4) == 0x1_0000_0000,
        pow256(5) == 0x100_0000_0000,
        pow256(6) == 0x1_0000_0000_0000,
        pow256(7) == 0x100_0000_0000_0000,
        pow256(8) == 0x1_0000_0000_0000_0000,
{
    reveal_with_fuel(pow256, 9);
}

/// A byte string of length `n` spells a number below `256^n`.
pub proof fn lemma_le_value_bound(bytes: Seq<u8>)
    ensures
        le_value(bytes) < pow256(bytes.len()),
    decreases bytes.len(),
{
    if bytes.len() > 0 {
        lemma_le_value_bound(bytes.drop_first());
    }
}

/// Writing a number after reading it gives the bytes back: digit `j` of the
/// number that `bytes` spell is `bytes[j]`.
pub proof fn lemma_digit_of_value(bytes: Seq<u8>, j: nat)
    requires
        j < bytes.len(),
    ensures
        le_digit(le_value(bytes), j) == bytes[j as int],
    decreases j,
{
    let rest = bytes.drop_first();
    let v = le_value(bytes);
    assert(v == bytes[0] as nat + 256 * le_value(rest));
    assert(v % 256 == bytes[0] as nat);
    assert(v / 256 == le_value(rest));
    if j > 0 {
        lemma_digit_of_value(rest, (j - 1) as nat);
    }
}

/// Reading a number after writing it in `n` bytes gives the number back,
/// reduced modulo `256^n`.
pub proof fn lemma_value_of_bytes(v: nat, n: nat)
    ensures
        le_value(le_bytes(v, n)) == v % pow256(n),
    decreases n,
{
    if n > 0 {
        let m = (n - 1) as nat;
        assert(le_bytes(v, n).drop_first() =~= le_bytes(v / 256, m));
        lemma_value_of_bytes(v / 256, m);
        lemma_pow256_positive(m);
        lemma_breakdown(v as int, 256, pow256(m) as int);
    }
}

/// Every power of 256 is positive.
pub proof fn lemma_pow256_positive(n: nat)
    ensures
        pow256(n) > 0,
    decreases n,
{
    if n > 0 {
        lemma_pow256_positive((n - 1) as nat);
    }
}

/// Splitting a block into 64-bit words and joining them again is the
/// identity, in both directions.
pub proof fn lemma_block_words_round_trip(bytes: Seq<u8>, words: Seq<u64>)
    requires
        bytes.len() == 32,
        words.len() == 4,
    ensures
        block_of_words(words_of_block(bytes)) == bytes,
        words_of_block(block_of_words(words)) == words,
{
    lemma_pow256_values();
    assert forall|k: int| 0 <= k < 32 implies block_of_words(words_of_block(bytes))[k]
        == bytes[k] by {
        let i = k / 8;
        let group = bytes.subrange(8 * i, 8 * i + 8);
        lemma_le_value_bound(group);
        lemma_digit_of_value(group, (k % 8) as nat);
    }
    assert(block_of_words(words_of_block(bytes)) =~= bytes);
    assert forall|i: int| 0 <= i < 4 implies words_of_block(block_of_words(words))[i]
        == words[i] by {
        let group = block_of_words(words).subrange(8 * i, 8 * i + 8);
        assert(group =~= le_bytes(words[i] as nat, 8));
        lemma_value_of_bytes(words[i] as nat, 8);
    }
    assert(words_of_block(block_of_words(words)) =~= words);
}

/// The bytes of a block are the little-endian spelling of its 32-bit words:
/// word `i` written in four bytes is bytes `4 * i` to `4 * i + 3`.
pub proof fn lemma_half_words_spell_block(bytes: Seq<u8>, i: int)
    requires
        bytes.len() == 32,
        0 <= i < 8,
    ensures
        le_bytes(half_words_of_block(bytes)[i] as nat, 4) == bytes.subrange(4 * i, 4 * i + 4),
{
    lemma_pow256_values();
    let group = bytes.subrange(4 * i, 4 * i + 4);
    lemma_le_value_bound(group);
    assert forall|j: int| 0 <= j < 4 implies le_bytes(le_value(group), 4)[j] == group[j] by {
        lemma_digit_of_value(group, j as nat);
    }
    assert(le_bytes(le_value(group), 4) =~= group);
}

/// Reads the `n` bytes of `bytes` that start at index `at` as one
/// little-endian number.
fn le_read(bytes: &[u8; 32], at: usize, n: usize) -> (v: u64)
    requires
        n <= 8,
        at + n <= 32,
    ensures
        v == le_value(bytes@.subrange(at as int, at + n)),
{
    let mut v: u64 = 0;
    let mut j: usize = n;
    while j > 0
        invariant
            j <= n <= 8,
            at + n <= 32,
            v == le_value(bytes@.subrange(at + j, at + n)),
        decreases j,
    {
        j -= 1;
        proof {
            let tail = bytes@.subrange(at + j + 1, at + n);
            assert(bytes@.subrange(at + j, at + n).drop_first() =~= tail);
            lemma_le_value_bound(tail);
            lemma_pow256_values();
        }
        v = v * 256 + bytes[at + j] as u64;
    }
    v
}

/// Splits a block into its four little-endian 64-bit words.
pub fn bytes_to_words(block: &[u8; 32]) -> (words: [u64; 4])
    ensures
        words@ == words_of_block(block@),
{
    let mut words: [u64; 4] = [0u64; 4];
    let mut i: usize = 0;
    while i < 4
        invariant
            i <= 4,
            forall|m: int| 0 <= m < i ==> words@[m] == words_of_block(block@)[m],
        decreases 4 - i,
    {
        let w: u64 = le_read(block, 8 * i, 8);
        words[i] = w;
        i += 1;
    }
    assert(words@ =~= words_of_block(block@));
    words
}

/// Joins four 64-bit words into a block, each word written little-endian.
pub fn words_to_bytes(words: &[u64; 4]) -> (block: [u8; 32])
    ensures
        block@ == block_of_words(words@),
{
    let mut block: [u8; 32] = [0u8; 32];
    let mut i: usize = 0;
    while i < 4
        invariant
            i <= 4,
            forall|k: int| 0 <= k < 8 * i ==> block@[k] == block_of_words(words@)[k],
        decreases 4 - i,
    {
        let mut v: u64 = words[i];
        let mut j: usize = 0;
        while j < 8
            invariant
                i < 4,
                j <= 8,
                forall|k: int| 0 <= k < 8 * i + j ==> block@[k] == block_of_words(words@)[k],
                forall|m: nat| le_digit(v as nat, m) == le_digit(
                    words@[i as int] as nat,
                    (j + m) as nat,
                ),
            decreases 8 - j,
        {
            let ghost before = v;
            block[8 * i + j] = (v % 256) as u8;
            v = v / 256;
            proof {
                assert(le_digit(before as nat, 0) == le_digit(words@[i as int] as nat, j as nat));
                assert forall|m: nat| le_digit(v as nat, m) == le_digit(
                    words@[i as int] as nat,
                    (j + 1 + m) as nat,
                ) by {
                    assert(le_digit(before as nat, m + 1) == le_digit(v as nat, m));
                }
            }
            j += 1;
        }
        i += 1;
    }
    assert(block@ =~= block_of_words(words@));
    block
}

/// Splits a block into its eight little-endian 32-bit words.
pub fn bytes_to_half_words(block: &[u8; 32]) -> (words: [u32; 8])
    ensures
        words@ == half_words_of_block(block@),
{
    let mut words: [u32; 8] = [0u32; 8];
    let mut i: usize = 0;
    while i < 8
        invariant
            i <= 8,
            forall|m: int| 0 <= m < i ==> words@[m] == half_words_of_block(block@)[m],
        decreases 8 - i,
    {
        let w: u64 = le_read(block, 4 * i, 4);
        proof {
            lemma_le_value_bound(block@.subrange(4 * i, 4 * i + 4));
            lemma_pow256_values();
        }
        words[i] = w as u32;
        i += 1;
    }
    assert(words@ =~= half_words_of_block(block@));
    words
}

} // verus!
