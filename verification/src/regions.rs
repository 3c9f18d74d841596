//! What the generators guarantee about the counter space.
//!
//! Every generator owns a region of `(key, level, position)` points, given by
//! [`RawState::covers`]. The laws here say that a generator only ever draws
//! from its region, that stepping and splitting shrink it, and that the
//! regions of the generators that come out of a split do not meet. From
//! these it follows that no point is used twice, by one generator or by two,
//! for as long as the generators keep their key.

use crate::bits::{
    lemma_bit_above, lemma_bit_length, lemma_field, lemma_low_mask_ends, lemma_mask_keeps,
};
use crate::endian::lemma_block_words_round_trip;
use crate::model::{
    bit_length, counter_block, field, low_mask, Point, RawState, POSITION_BITS,
};
use vstd::prelude::*;

verus! {

/// No point belongs to both regions.
pub open spec fn disjoint(a: RawState, b: RawState) -> bool {
    forall|pt: Point| !(#[trigger] a.covers(pt) && b.covers(pt))
}

/// Every point of the region of `a` belongs to the region of `b`.
pub open spec fn within(a: RawState, b: RawState) -> bool {
    forall|pt: Point| #[trigger] a.covers(pt) ==> b.covers(pt)
}

/// The generators `rest` and `parts` have carved up the region of `whole`:
/// each of them draws from the region of `whole`, and no two of them from
/// the same point.
pub open spec fn carves(whole: RawState, rest: RawState, parts: Seq<RawState>) -> bool {
    &&& rest.wf()
    &&& within(rest, whole)
    &&& forall|i: int|
        0 <= i < parts.len() ==> (#[trigger] parts[i]).wf() && within(parts[i], whole) && disjoint(
            parts[i],
            rest,
        )
    &&& forall|i: int, j: int|
        0 <= i < parts.len() && 0 <= j < parts.len() && i != j ==> disjoint(
            #[trigger] parts[i],
            #[trigger] parts[j],
        )
}

/// The generator after `m` splits in a row.
pub open spec fn split_chain(s: RawState, m: nat) -> RawState
    decreases m,
{
    if m == 0 {
        s
    } else {
        split_chain(s, (m - 1) as nat).after_split(1)
    }
}

/// The siblings that `n` splits in a row give, first split first.
pub open spec fn split_chain_siblings(s: RawState, n: nat) -> Seq<RawState> {
    Seq::new(n, |m: int| split_chain(s, m as nat).sibling(1, 1))
}

/// Generators that draw from regions that do not meet cannot draw from the
/// same point, whatever they have become since: what lies within one of two
/// disjoint regions is disjoint from what lies within the other.
pub proof fn lemma_descendants_disjoint(a: RawState, b: RawState, left: RawState, right: RawState)
    requires
        disjoint(left, right),
        within(a, left),
        within(b, right),
    ensures
        disjoint(a, b),
{
    assert forall|pt: Point| !(#[trigger] a.covers(pt) && b.covers(pt)) by {
        if a.covers(pt) && b.covers(pt) {
            assert(left.covers(pt));
            assert(right.covers(pt));
        }
    }
}

/// Different counters are encoded as different input blocks.
pub proof fn lemma_counter_block_injective(
    level_a: u64,
    position_a: u64,
    level_b: u64,
    position_b: u64,
)
    requires
        counter_block(level_a, position_a) == counter_block(level_b, position_b),
    ensures
        level_a == level_b,
        position_a == position_b,
{
    let words_a = seq![level_a, position_a, 0u64, 0u64];
    let words_b = seq![level_b, position_b, 0u64, 0u64];
    lemma_block_words_round_trip(counter_block(level_a, position_a), words_a);
    lemma_block_words_round_trip(counter_block(level_b, position_b), words_b);
    assert(words_a[0] == words_b[0]);
    assert(words_a[1] == words_b[1]);
}

/// A step leaves a well-formed state well-formed.
pub proof fn lemma_next_wf(s: RawState)
    requires
        s.wf(),
    ensures
        s.next().wf(),
{
    lemma_low_mask_ends();
    if s.exhausted() && s.p_index < POSITION_BITS {
        lemma_field(s.position, 1, 0, 0, s.p_index, 1);
    }
}

/// Any number of steps leaves a well-formed state well-formed.
pub proof fn lemma_after_wf(s: RawState, n: nat)
    requires
        s.wf(),
    ensures
        s.after(n).wf(),
    decreases n,
{
    if n > 0 {
        lemma_after_wf(s, (n - 1) as nat);
        lemma_next_wf(s.after((n - 1) as nat));
    }
}

/// A generator draws its next output from its own region.
pub proof fn lemma_covers_own_point(s: RawState)
    requires
        s.wf(),
    ensures
        s.covers(s.point()),
{
    lemma_mask_keeps(s.position, s.p_index);
}

/// A step that keeps the key shrinks the region, and the point just used is
/// no longer in it.
pub proof fn lemma_next_shrinks(s: RawState)
    requires
        s.wf(),
        !s.rekeys_on_next(),
    ensures
        within(s.next(), s),
        !s.next().covers(s.point()),
{
    lemma_low_mask_ends();
    lemma_mask_keeps(s.position, s.p_index);
    let t = s.next();
    assert forall|pt: Point| #[trigger] t.covers(pt) implies s.covers(pt) && pt != s.point() by {
        if s.exhausted() {
            lemma_field(s.position, 1, 0, pt.position, s.p_index, 1);
        }
    }
}

/// Steps that keep the key only shrink the region: the region after `j`
/// steps lies within the region after `i` steps, for `i <= j`.
pub proof fn lemma_after_shrinks(s: RawState, i: nat, j: nat)
    requires
        s.wf(),
        i <= j,
        s.steady(j),
    ensures
        within(s.after(j), s.after(i)),
        s.after(j).key == s.after(i).key,
    decreases j - i,
{
    if i < j {
        let before = s.after((j - 1) as nat);
        lemma_after_wf(s, (j - 1) as nat);
        lemma_next_shrinks(before);
        lemma_after_shrinks(s, i, (j - 1) as nat);
        assert forall|pt: Point| #[trigger] s.after(j).covers(pt) implies s.after(i).covers(
            pt,
        ) by {
            assert(before.covers(pt));
        }
    }
}

/// While a generator keeps its key, it never computes two outputs from the
/// same point: the points of output `i` and output `j` differ.
pub proof fn lemma_points_never_repeat(s: RawState, i: nat, j: nat)
    requires
        s.wf(),
        i < j,
        s.steady(j),
    ensures
        s.after(i).point() != s.after(j).point(),
{
    lemma_steady_prefix(s, i + 1, j);
    lemma_after_wf(s, i);
    lemma_after_wf(s, j);
    lemma_next_shrinks(s.after(i));
    lemma_after_shrinks(s, i + 1, j);
    lemma_covers_own_point(s.after(j));
    assert(s.after(i + 1).covers(s.after(j).point()));
}

/// While a generator keeps its key, it never feeds the block transform the
/// same input twice: outputs `i` and `j` are computed under the same key from
/// different blocks.
pub proof fn lemma_inputs_never_repeat(s: RawState, i: nat, j: nat)
    requires
        s.wf(),
        i < j,
        s.steady(j),
    ensures
        s.after(i).key == s.after(j).key,
        counter_block(s.after(i).level, s.after(i).position) != counter_block(
            s.after(j).level,
            s.after(j).position,
        ),
{
    let a = s.after(i);
    let b = s.after(j);
    lemma_points_never_repeat(s, i, j);
    lemma_after_shrinks(s, i, j);
    if counter_block(a.level, a.position) == counter_block(b.level, b.position) {
        lemma_counter_block_injective(a.level, a.position, b.level, b.position);
        assert(a.point() == b.point());
    }
}

/// Steps that keep the key for `j` steps keep it for any fewer.
pub proof fn lemma_steady_prefix(s: RawState, i: nat, j: nat)
    requires
        i <= j,
        s.steady(j),
    ensures
        s.steady(i),
        i < j ==> !s.after(i).rekeys_on_next(),
    decreases j - i,
{
    if i < j {
        lemma_steady_prefix(s, i, (j - 1) as nat);
    }
}

/// A split gives the two generators regions that do not meet: the sibling
/// has the bit that was given away set in its position, the generator that
/// was split has it clear, and both have it committed. Where the generator
/// had a free bit, both regions lie within the one it had before.
pub proof fn lemma_split_disjoint(s: RawState)
    requires
        s.wf(),
    ensures
        s.after_split(1).wf(),
        s.sibling(1, 1).wf(),
        s.after_split(1).key == s.sibling(1, 1).key,
        s.after_split(1).position & field(1, s.rooted(1).p_index) == 0,
        s.sibling(1, 1).position & field(1, s.rooted(1).p_index) != 0,
        disjoint(s.after_split(1), s.sibling(1, 1)),
        s.p_index < POSITION_BITS ==> within(s.after_split(1), s) && within(s.sibling(1, 1), s),
{
    lemma_low_mask_ends();
    lemma_siblings_disjoint(s, 1, 0, 1);
    lemma_siblings_disjoint(s, 1, 1, 0);
    if s.p_index < POSITION_BITS {
        lemma_siblings_within(s, 1, 0);
        lemma_siblings_within(s, 1, 1);
    }
    lemma_rooted(s, 1);
    lemma_bit_above(s.rooted(1).position, s.rooted(1).p_index);
}

/// Two generators whose regions do not meet never compute an output from
/// the same point, however many each of them produces, for as long as both
/// keep their keys.
pub proof fn lemma_streams_disjoint(a: RawState, b: RawState, i: nat, j: nat)
    requires
        a.wf(),
        b.wf(),
        disjoint(a, b),
        a.steady(i),
        b.steady(j),
    ensures
        a.after(i).point() != b.after(j).point(),
{
    lemma_after_wf(a, i);
    lemma_after_wf(b, j);
    lemma_after_shrinks(a, 0, i);
    lemma_after_shrinks(b, 0, j);
    lemma_covers_own_point(a.after(i));
    lemma_covers_own_point(b.after(j));
    assert(a.covers(a.after(i).point()));
    assert(b.covers(b.after(j).point()));
}

/// After a split, the outputs of the two generators never come from the
/// same point, however many each of them produces, for as long as both keep
/// the key they had at the split.
pub proof fn lemma_split_streams_disjoint(s: RawState, i: nat, j: nat)
    requires
        s.wf(),
        s.after_split(1).steady(i),
        s.sibling(1, 1).steady(j),
    ensures
        s.after_split(1).after(i).point() != s.sibling(1, 1).after(j).point(),
{
    lemma_split_disjoint(s);
    lemma_streams_disjoint(s.after_split(1), s.sibling(1, 1), i, j);
}

/// The state in which a split commits its bits is well-formed and has as
/// many bits free as the split needs.
proof fn lemma_rooted(s: RawState, bits: nat)
    requires
        s.wf(),
        bits <= 64,
    ensures
        s.rooted(bits).wf(),
        s.rooted(bits).p_index + bits <= 64,
{
    lemma_low_mask_ends();
}

/// Two generators that come out of one split with different patterns have
/// regions that do not meet. The pattern 0 is that of the generator that was
/// split.
pub proof fn lemma_siblings_disjoint(s: RawState, bits: nat, a: u64, b: u64)
    requires
        s.wf(),
        1 <= bits <= 64,
        a <= low_mask(bits),
        b <= low_mask(bits),
        a != b,
    ensures
        s.sibling(bits, 0) == s.after_split(bits),
        s.sibling(bits, a).wf(),
        s.sibling(bits, a).key == s.sibling(bits, b).key,
        disjoint(s.sibling(bits, a), s.sibling(bits, b)),
{
    lemma_rooted(s, bits);
    let root = s.rooted(bits);
    lemma_field(root.position, a, b, 0, root.p_index, bits);
}

/// A generator that comes out of a split which did not need a new key has
/// its region within the region of the generator that was split.
pub proof fn lemma_siblings_within(s: RawState, bits: nat, a: u64)
    requires
        s.wf(),
        1 <= bits,
        s.p_index + bits <= POSITION_BITS,
        a <= low_mask(bits),
    ensures
        within(s.sibling(bits, a), s),
{
    lemma_mask_keeps(s.position, s.p_index);
    let c = s.sibling(bits, a);
    assert forall|pt: Point| #[trigger] c.covers(pt) implies s.covers(pt) by {
        lemma_field(s.position, a, 0, pt.position, s.p_index, bits);
    }
}

/// An n-way split carves up the region that the generator has when the
/// bits are committed: the `n` siblings and the generator itself draw from
/// it, and no two of them from the same point. Where the free bits
/// sufficed, that region is the one the generator had before the split.
pub proof fn lemma_splitn_carves(s: RawState, n: u64)
    requires
        s.wf(),
    ensures
        s.siblings(n).len() == n,
        carves(s.rooted(bit_length(n)), s.after_split(bit_length(n)), s.siblings(n)),
        s.p_index + bit_length(n) <= POSITION_BITS ==> s.rooted(bit_length(n)) == s,
{
    let bits = bit_length(n);
    lemma_bit_length(n);
    lemma_rooted(s, bits);
    let root = s.rooted(bits);
    let rest = s.after_split(bits);
    let parts = s.siblings(n);
    assert(root.rooted(bits) == root);
    assert(rest == root.after_split(bits));
    if n == 0 {
        assert(rest == root);
    } else {
        lemma_siblings_disjoint(root, bits, 0, n);
        lemma_siblings_within(root, bits, 0);
        assert forall|i: int| 0 <= i < parts.len() implies (#[trigger] parts[i]).wf() && within(
            parts[i],
            root,
        ) && disjoint(parts[i], rest) by {
            let a = (n - i) as u64;
            assert(parts[i] == root.sibling(bits, a));
            lemma_siblings_disjoint(root, bits, a, 0);
            lemma_siblings_within(root, bits, a);
        }
        assert forall|i: int, j: int|
            0 <= i < parts.len() && 0 <= j < parts.len() && i != j implies disjoint(
            #[trigger] parts[i],
            #[trigger] parts[j],
        ) by {
            let a = (n - i) as u64;
            let b = (n - j) as u64;
            assert(parts[i] == root.sibling(bits, a));
            assert(parts[j] == root.sibling(bits, b));
            lemma_siblings_disjoint(root, bits, a, b);
        }
    }
}

/// An n-way split with `n == 1` is a split: the generator is left in the
/// same state, and the one sibling is the same.
pub proof fn lemma_splitn_one_is_split(s: RawState)
    ensures
        s.after_split(bit_length(1)) == s.after_split(1),
        s.siblings(1) == seq![s.sibling(1, 1)],
{
    assert(bit_length(1) == 1) by {
        reveal_with_fuel(bit_length, 2);
    }
    assert(s.siblings(1) =~= seq![s.sibling(1, 1)]);
}

/// While free bits last, `m` splits in a row commit `m` bits and change
/// nothing else.
pub proof fn lemma_split_chain(s: RawState, m: nat)
    requires
        s.wf(),
        s.p_index + m <= POSITION_BITS,
    ensures
        split_chain(s, m) == (RawState { p_index: s.p_index + m, ..s }),
        split_chain(s, m).wf(),
        within(split_chain(s, m), s),
    decreases m,
{
    if m > 0 {
        let before = split_chain(s, (m - 1) as nat);
        lemma_split_chain(s, (m - 1) as nat);
        lemma_split_disjoint(before);
        assert forall|pt: Point| #[trigger] split_chain(s, m).covers(pt) implies s.covers(pt) by {
            assert(before.covers(pt));
        }
    }
}

/// The generator after `m` splits in a row draws from the region that it
/// had after any fewer.
proof fn lemma_split_chain_shrinks(s: RawState, a: nat, b: nat)
    requires
        s.wf(),
        a <= b,
        s.p_index + b <= POSITION_BITS,
    ensures
        within(split_chain(s, b), split_chain(s, a)),
    decreases b - a,
{
    if a < b {
        let before = split_chain(s, (b - 1) as nat);
        lemma_split_chain(s, (b - 1) as nat);
        lemma_split_disjoint(before);
        lemma_split_chain_shrinks(s, a, (b - 1) as nat);
        assert forall|pt: Point| #[trigger] split_chain(s, b).covers(pt) implies split_chain(
            s,
            a,
        ).covers(pt) by {
            assert(before.covers(pt));
        }
    }
}

/// While free bits last, `n` splits in a row carve up the region of the
/// generator just as an n-way split does: the `n` siblings and the generator
/// itself draw from it, and no two of them from the same point.
pub proof fn lemma_split_chain_carves(s: RawState, n: nat)
    requires
        s.wf(),
        s.p_index + n <= POSITION_BITS,
    ensures
        split_chain_siblings(s, n).len() == n,
        carves(s, split_chain(s, n), split_chain_siblings(s, n)),
{
    let rest = split_chain(s, n);
    let parts = split_chain_siblings(s, n);
    lemma_split_chain(s, n);
    assert forall|i: int| 0 <= i < parts.len() implies (#[trigger] parts[i]).wf() && within(
        parts[i],
        s,
    ) && disjoint(parts[i], rest) by {
        lemma_chain_sibling(s, i as nat, n);
    }
    assert forall|i: int, j: int|
        0 <= i < parts.len() && 0 <= j < parts.len() && i != j implies disjoint(
        #[trigger] parts[i],
        #[trigger] parts[j],
    ) by {
        if i < j {
            lemma_chain_siblings_apart(s, i as nat, j as nat);
        } else {
            lemma_chain_siblings_apart(s, j as nat, i as nat);
        }
    }
}

/// The sibling of split number `m` draws from the region of the generator
/// and from no point that the generator draws from after any later split.
proof fn lemma_chain_sibling(s: RawState, m: nat, n: nat)
    requires
        s.wf(),
        m < n,
        s.p_index + n <= POSITION_BITS,
    ensures
        split_chain(s, m).sibling(1, 1).wf(),
        within(split_chain(s, m).sibling(1, 1), s),
        within(split_chain(s, m).sibling(1, 1), split_chain(s, m)),
        disjoint(split_chain(s, m).sibling(1, 1), split_chain(s, n)),
{
    let before = split_chain(s, m);
    let child = before.sibling(1, 1);
    lemma_split_chain(s, m);
    lemma_split_disjoint(before);
    lemma_split_chain_shrinks(s, m + 1, n);
    assert forall|pt: Point| #[trigger] child.covers(pt) implies s.covers(pt) by {
        assert(before.covers(pt));
    }
    assert forall|pt: Point| !(#[trigger] child.covers(pt) && split_chain(s, n).covers(pt)) by {
        if split_chain(s, n).covers(pt) {
            assert(split_chain(s, m + 1).covers(pt));
            assert(before.after_split(1).covers(pt));
        }
    }
}

/// The siblings of two different splits in a row draw from no common point.
proof fn lemma_chain_siblings_apart(s: RawState, a: nat, b: nat)
    requires
        s.wf(),
        a < b,
        s.p_index + b < POSITION_BITS,
    ensures
        disjoint(split_chain(s, a).sibling(1, 1), split_chain(s, b).sibling(1, 1)),
{
    let first = split_chain(s, a).sibling(1, 1);
    let second = split_chain(s, b).sibling(1, 1);
    lemma_chain_sibling(s, a, b);
    lemma_chain_sibling(s, b, b + 1);
    assert forall|pt: Point| !(#[trigger] first.covers(pt) && second.covers(pt)) by {
        if second.covers(pt) {
            assert(split_chain(s, b).covers(pt));
        }
    }
}

} // verus!
