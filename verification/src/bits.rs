//! Facts about masks, fields and bit lengths of 64-bit words.
//!
//! The facts are proved on machine words by bit-blasting, in lemmas that
//! take the bit counts as words too, and are then restated for the bit counts
//! of the model, which are natural numbers.

use crate::model::{bit_length, field, low_mask, mask64};
use vstd::prelude::*;
use vstd::std_specs::bits::u64_leading_zeros;

verus! {

/// [`lemma_field`] on machine words.
proof fn lemma_field_bits(p: u64, i: u64, j: u64, t: u64, k: u64, b: u64)
    by (bit_vector)
    requires
        k < 64,
        1 <= b,
        k + b <= 64,
        p <= mask64(k),
        i <= mask64(b),
        j <= mask64(b),
    ensures
        1 <= mask64(b),
        p <= mask64((k + b) as u64),
        p | (0u64 << k) == p,
        p | (i << k) <= mask64((k + b) as u64),
        (p | (i << k)) & mask64(k) == p,
        p & mask64((k + b) as u64) == p,
        (t & mask64((k + b) as u64)) & mask64(k) == t & mask64(k),
        i != j ==> (p | (i << k)) != (p | (j << k)),
{
}

/// The masks of no bits, of one bit and of all bits.
pub proof fn lemma_low_mask_ends()
    ensures
        low_mask(0) == 0,
        low_mask(1) == 1,
        low_mask(64) == 0xffff_ffff_ffff_ffffu64,
        mask64(64) == 0xffff_ffff_ffff_ffffu64,
{
    assert(0xffff_ffff_ffff_ffffu64 >> 0u64 == 0xffff_ffff_ffff_ffffu64) by (bit_vector);
    assert(0xffff_ffff_ffff_ffffu64 >> 63u64 == 1u64) by (bit_vector);
}

/// A pattern of at most `b` bits, put above a prefix of at most `k` bits,
/// stays within `k + b` bits, leaves the prefix as it was, and can be read
/// back: different patterns give different words. The pattern zero leaves
/// the whole word as it was.
pub proof fn lemma_field(p: u64, i: u64, j: u64, t: u64, k: nat, b: nat)
    requires
        1 <= b,
        k + b <= 64,
        p <= low_mask(k),
        i <= low_mask(b),
        j <= low_mask(b),
    ensures
        1 <= low_mask(b),
        p <= low_mask(k + b),
        p | field(0, k) == p,
        p | field(i, k) <= low_mask(k + b),
        (p | field(i, k)) & low_mask(k) == p,
        p & low_mask(k + b) == p,
        (t & low_mask(k + b)) & low_mask(k) == t & low_mask(k),
        i != j ==> (p | field(i, k)) != (p | field(j, k)),
{
    lemma_low_mask_ends();
    lemma_field_bits(p, i, j, t, k as u64, b as u64);
}

/// [`lemma_mask_of_shift`] on machine words.
proof fn lemma_shift_bits(p: u64, k: u64)
    by (bit_vector)
    requires
        k < 64,
    ensures
        p >> k == 0 <==> p <= mask64(k),
{
}

/// A word fits in `k` bits when shifting it down by `k` leaves nothing.
pub proof fn lemma_mask_of_shift(p: u64, k: nat)
    requires
        k < 64,
    ensures
        p >> (k as u64) == 0 <==> p <= low_mask(k),
{
    lemma_shift_bits(p, k as u64);
}

/// [`lemma_mask_keeps`] and [`lemma_bit_above`] on machine words.
proof fn lemma_mask_bits(p: u64, k: u64)
    by (bit_vector)
    requires
        k <= 64,
        p <= mask64(k),
    ensures
        p & mask64(k) == p,
        k < 64 ==> p & (1u64 << k) == 0,
        k < 64 ==> (p | (1u64 << k)) & (1u64 << k) != 0,
{
}

/// Masking a word that fits in `k` bits with the mask of `k` bits changes
/// nothing.
pub proof fn lemma_mask_keeps(p: u64, k: nat)
    requires
        k <= 64,
        p <= low_mask(k),
    ensures
        p & low_mask(k) == p,
{
    lemma_low_mask_ends();
    lemma_mask_bits(p, k as u64);
}

/// Bit `k` is clear in a word that fits in `k` bits, and set once it has
/// been put there.
pub proof fn lemma_bit_above(p: u64, k: nat)
    requires
        k < 64,
        p <= low_mask(k),
    ensures
        p & field(1, k) == 0,
        (p | field(1, k)) & field(1, k) != 0,
{
    lemma_mask_bits(p, k as u64);
}

/// [`lemma_top_bits`] on machine words.
proof fn lemma_top_bits_u64(p: u64, k: u64)
    by (bit_vector)
    requires
        k <= 64,
    ensures
        k == 64 ==> p | !mask64(k) == p,
        k < 64 ==> (p | (1u64 << k)) | !mask64((k + 1) as u64) == p | !mask64(k),
{
}

/// Setting all bits from bit `k` up is setting bit `k` and all bits above
/// it; with `k == 64` there is none to set.
pub proof fn lemma_top_bits(p: u64, k: nat)
    requires
        k <= 64,
    ensures
        k == 64 ==> p | !low_mask(k) == p,
        k < 64 ==> (p | field(1, k)) | !low_mask(k + 1) == p | !low_mask(k),
{
    lemma_low_mask_ends();
    lemma_top_bits_u64(p, k as u64);
}

/// Halving a word takes one bit off its width, and a word is one bit wider
/// than its half.
proof fn lemma_half_bits(n: u64, c: u64)
    by (bit_vector)
    requires
        c < 64,
    ensures
        n != 0 && n <= mask64((c + 1) as u64) ==> n / 2 <= mask64(c),
        n / 2 <= mask64(c) ==> n <= mask64((c + 1) as u64),
        n / 2 > mask64(c) ==> n > mask64((c + 1) as u64),
        n == 1 ==> n > mask64(0),
        n != 0 ==> n / 2 <= mask64(63),
{
}

/// A word that fits in `j` bits has a bit length of at most `j`.
pub proof fn lemma_bit_length_at_most(n: u64, j: nat)
    requires
        j <= 64,
        n <= low_mask(j),
    ensures
        bit_length(n) <= j,
    decreases n,
{
    lemma_low_mask_ends();
    if n != 0 {
        assert(j >= 1);
        lemma_half_bits(n, (j - 1) as u64);
        lemma_bit_length_at_most(n / 2, (j - 1) as nat);
    }
}

/// The bit length of a word is at most 64, the word fits in that many bits
/// and in no fewer, and the leading zeros make up the rest of the 64.
pub proof fn lemma_bit_length(n: u64)
    ensures
        bit_length(n) <= 64,
        n <= low_mask(bit_length(n)),
        n != 0 ==> bit_length(n) >= 1 && n > low_mask((bit_length(n) - 1) as nat),
        bit_length(n) == 64 - u64_leading_zeros(n),
    decreases n,
{
    lemma_low_mask_ends();
    reveal(u64_leading_zeros);
    if n != 0 {
        let c = bit_length(n / 2);
        lemma_bit_length(n / 2);
        lemma_half_bits(n, 63);
        lemma_bit_length_at_most(n / 2, 63);
        lemma_half_bits(n, c as u64);
        if n / 2 != 0 {
            lemma_half_bits(n, (c - 1) as u64);
        }
    }
}

} // verus!
