//! The generators: a block generator that can be split, and a word generator
//! on top of it.
//!
//! No function here has a precondition. The generators keep their fields to
//! themselves, and with them the invariants that their states obey.

use crate::bits::{lemma_bit_length, lemma_field, lemma_low_mask_ends, lemma_mask_of_shift};
use crate::endian::{bytes_to_half_words, words_to_bytes};
use crate::model::{
    bit_length, counter_block, field, low_mask, GenState, RawState, LEVEL_LIMIT, POSITION_BITS,
};
use crate::regions::{
    carves, disjoint, lemma_next_shrinks, lemma_next_wf, lemma_split_disjoint,
    lemma_splitn_carves, within,
};
use crate::tf::{block_transform, tf256_process_block, Block};
use vstd::prelude::*;

verus! {

/// Structures that can be "split".
pub trait Splittable: Sized {
    /// What an n-way split hands its siblings out through.
    type Iter;

    /// Whether the two may ever draw on the same source while each keeps to
    /// what it has been given.
    spec fn overlaps(&self, other: &Self) -> bool;

    /// Splits off one sibling, which shares nothing with what is left.
    fn split(&mut self) -> (child: Self)
        ensures
            !final(self).overlaps(&child),
    ;

    /// The number of siblings that are still to be handed out.
    spec fn pending(children: &Self::Iter) -> nat;

    /// n-way split.
    fn splitn(&mut self, n: usize) -> (children: Self::Iter)
        ensures
            Self::pending(&children) == n,
    ;
}

/// A generator of 256-bit blocks.
#[derive(Debug)]
pub struct RawGen {
    key: Block,
    level: u64,
    position: u64,
    p_index: u16,
}

impl View for RawGen {
    type V = RawState;

    closed spec fn view(&self) -> RawState {
        RawState {
            key: self.key@,
            level: self.level,
            position: self.position,
            p_index: self.p_index as nat,
        }
    }
}

/// Encodes a pair of counters as an input block: `level` in bytes 0 to 7 and
/// `position` in bytes 8 to 15, both little-endian, then 16 zero bytes.
pub fn pack(level: u64, position: u64) -> (blk: Block)
    ensures
        blk@ == counter_block(level, position),
{
    let words: [u64; 4] = [level, position, 0, 0];
    assert(words@ =~= seq![level, position, 0u64, 0u64]);
    words_to_bytes(&words)
}

fn hash_block(key: &Block, lvl: u64, pos: u64) -> (out: Block)
    ensures
        out@ == block_transform(key@, counter_block(lvl, pos)),
{
    let blk: Block = pack(lvl, pos);
    tf256_process_block(key, &blk)
}

impl RawGen {
    #[verifier::type_invariant]
    spec fn inv(&self) -> bool {
        self@.wf()
    }

    /// A generator with `seed` as its key, at level 0 and position 0, with
    /// no position bit committed.
    pub fn new(seed: Block) -> (g: Self)
        ensures
            g@ == RawState::fresh(seed@),
            g@.wf(),
    {
        proof {
            lemma_low_mask_ends();
        }
        RawGen { key: seed, level: 0, position: 0, p_index: 0 }
    }

    /// A generator in the given state, or `None` where the state is not one
    /// that a generator can be in: the level is at its limit, more than 64
    /// bits are committed, or a position bit above the committed ones is set.
    pub fn resume(key: Block, level: u64, position: u64, p_index: u16) -> (g: Option<Self>)
        ensures
            g is Some <==> (RawState { key: key@, level, position, p_index: p_index as nat }).wf(),
            g is Some ==> g->0@ == (RawState {
                key: key@,
                level,
                position,
                p_index: p_index as nat,
            }),
    {
        proof {
            lemma_low_mask_ends();
        }
        if level == LEVEL_LIMIT || p_index > POSITION_BITS {
            return None;
        }
        if p_index < POSITION_BITS {
            proof {
                lemma_mask_of_shift(position, p_index as nat);
            }
            if (position >> (p_index as u64)) != 0 {
                return None;
            }
        }
        Some(RawGen { key, level, position, p_index })
    }

    /// The key.
    pub fn key(&self) -> (key: Block)
        ensures
            key@ == self@.key,
            self@.wf(),
    {
        proof {
            use_type_invariant(self);
        }
        self.key
    }

    /// The number of blocks produced at the current position.
    pub fn level(&self) -> (level: u64)
        ensures
            level == self@.level,
            level < LEVEL_LIMIT,
    {
        proof {
            use_type_invariant(self);
        }
        self.level
    }

    /// The position: the path through the split tree.
    pub fn position(&self) -> (position: u64)
        ensures
            position == self@.position,
            position <= low_mask(self@.p_index),
    {
        proof {
            use_type_invariant(self);
        }
        self.position
    }

    /// The number of position bits that are committed.
    pub fn p_index(&self) -> (p_index: u16)
        ensures
            p_index == self@.p_index,
            p_index <= POSITION_BITS,
    {
        proof {
            use_type_invariant(self);
        }
        self.p_index
    }

    /// Produces the next block and moves on: to the next level, or, when the
    /// levels of this position are used up, to a new position or a new key.
    ///
    /// Unless the key is replaced, the generator is left with a part of the
    /// region that it had, and the point that this block was computed from is
    /// not in it: no later block comes from the same point.
    pub fn g_next(&mut self) -> (blk: Block)
        ensures
            blk@ == old(self)@.output(),
            final(self)@ == old(self)@.next(),
            old(self)@.wf(),
            final(self)@.wf(),
            !old(self)@.rekeys_on_next() ==> within(final(self)@, old(self)@),
            !old(self)@.rekeys_on_next() ==> !final(self)@.covers(old(self)@.point()),
    {
        proof {
            use_type_invariant(&*self);
            lemma_next_wf(self@);
            if !self@.rekeys_on_next() {
                lemma_next_shrinks(self@);
            }
        }
        let blk: Block = self.hash();
        if self.level < LEVEL_LIMIT - 1 {
            self.level += 1;
        } else if self.p_index < POSITION_BITS {
            *self = RawGen {
                key: self.key,
                level: 0,
                position: self.position | (1u64 << (self.p_index as u64)),
                p_index: self.p_index + 1,
            };
        } else {
            *self = RawGen::new(hash_block(&self.key, LEVEL_LIMIT, self.position));
        }
        blk
    }

    fn hash(&self) -> (out: Block)
        ensures
            out@ == self@.output(),
    {
        hash_block(&self.key, self.level, self.position)
    }

}

impl Clone for RawGen {
    /// A second generator in the same state.
    fn clone(&self) -> (copy: Self)
        ensures
            copy@ == self@,
    {
        proof {
            use_type_invariant(self);
        }
        RawGen {
            key: self.key,
            level: self.level,
            position: self.position,
            p_index: self.p_index,
        }
    }
}

/// The siblings of an n-way split of a [`RawGen`], handed out one by one.
///
/// Its view is the sequence of the siblings that are still to come.
pub struct RawGenIter {
    raw_gen: RawGen,
    shift: usize,
    n: u64,
}

impl RawGenIter {
    /// The sibling with the given pattern.
    spec fn sibling(&self, pattern: u64) -> RawState {
        RawState {
            position: self.raw_gen@.position | field(pattern, self.shift as nat),
            ..self.raw_gen@
        }
    }

    /// The bits from `shift` up to the committed end are zero in the
    /// generator that was split and wide enough for every pattern to come.
    #[verifier::type_invariant]
    spec fn inv(&self) -> bool {
        &&& self.raw_gen@.wf()
        &&& self.shift <= self.raw_gen@.p_index
        &&& self.raw_gen@.position <= low_mask(self.shift as nat)
        &&& self.n <= low_mask((self.raw_gen@.p_index - self.shift) as nat)
    }
}

impl View for RawGenIter {
    type V = Seq<RawState>;

    closed spec fn view(&self) -> Seq<RawState> {
        Seq::new(self.n as nat, |j: int| self.sibling((self.n - j) as u64))
    }
}

impl RawGenIter {
    /// Hands out the next sibling, or `None` when all have been handed out.
    pub fn next(&mut self) -> (item: Option<RawGen>)
        ensures
            match item {
                None => old(self)@.len() == 0 && final(self)@ == old(self)@,
                Some(g) => {
                    &&& old(self)@.len() > 0
                    &&& g@ == old(self)@[0]
                    &&& g@.wf()
                    &&& final(self)@ == old(self)@.drop_first()
                },
            },
    {
        proof {
            use_type_invariant(&*self);
        }
        if self.n == 0 {
            None
        } else {
            proof {
                lemma_low_mask_ends();
                lemma_field(
                    self.raw_gen.position,
                    self.n,
                    0,
                    0,
                    self.shift as nat,
                    (self.raw_gen.p_index - self.shift) as nat,
                );
            }
            let ghost before = self@;
            let mut right: RawGen = self.raw_gen.clone();
            right.position |= self.n << (self.shift as u64);
            self.n -= 1;
            assert(self@ =~= before.drop_first());
            Some(right)
        }
    }
}

impl Splittable for RawGen {
    type Iter = RawGenIter;

    /// Whether the regions of the two have a point in common.
    open spec fn overlaps(&self, other: &Self) -> bool {
        !disjoint(self@, other@)
    }

    open spec fn pending(children: &RawGenIter) -> nat {
        children@.len()
    }

    /// Gives one position bit away: the sibling has it set, this generator
    /// keeps it clear. With all 64 bits committed, the generator first takes
    /// a new key, under which all bits are free again.
    ///
    /// The regions of the two do not meet, and unless a new key was taken
    /// both lie within the region that this generator had.
    fn split(&mut self) -> (child: Self)
        ensures
            final(self)@ == old(self)@.after_split(1),
            child@ == old(self)@.sibling(1, 1),
            old(self)@.wf(),
            final(self)@.wf(),
            child@.wf(),
            disjoint(final(self)@, child@),
            old(self)@.p_index < POSITION_BITS ==> within(final(self)@, old(self)@) && within(
                child@,
                old(self)@,
            ),
    {
        proof {
            use_type_invariant(&*self);
            lemma_split_disjoint(self@);
            lemma_low_mask_ends();
        }
        if self.p_index < POSITION_BITS {
            proof {
                lemma_field(self.position, 1, 0, 0, self.p_index as nat, 1);
            }
            let pi: u16 = self.p_index;
            self.p_index += 1;
            let mut right: RawGen = self.clone();
            right.position |= 1u64 << (pi as u64);
            right
        } else {
            proof {
                lemma_field(0, 1, 0, 0, 0, 1);
            }
            self.key = self.hash();
            self.level = 0;
            self.position = 0;
            self.p_index = 1;
            let mut right: RawGen = self.clone();
            right.position = 1;
            right
        }
    }

    /// Gives away as many position bits at once as it takes to write `n`,
    /// and returns the `n` siblings, whose patterns in those bits are `n`
    /// down to 1. This generator keeps the pattern 0. Where fewer bits are
    /// free, the generator first takes a new key, under which all are.
    /// With `n == 0` nothing changes and there is no sibling.
    ///
    /// The regions of this generator and of the siblings lie within the
    /// region that this generator had when the bits were committed, and no
    /// two of them meet.
    fn splitn(&mut self, n: usize) -> (children: RawGenIter)
        ensures
            final(self)@ == old(self)@.after_split(bit_length(n as u64)),
            children@ == old(self)@.siblings(n as u64),
            n == 0 ==> final(self)@ == old(self)@,
            old(self)@.wf(),
            carves(old(self)@.rooted(bit_length(n as u64)), final(self)@, children@),
    {
        let ghost before = self@;
        let n: u64 = n as u64;
        let x: u16 = n.leading_zeros() as u16;
        proof {
            use_type_invariant(&*self);
            lemma_bit_length(n);
            lemma_low_mask_ends();
            lemma_splitn_carves(before, n);
        }
        if x < self.p_index {
            self.key = self.hash();
            self.level = 0;
            self.position = 0;
            self.p_index = 0;
        }
        let pi: u16 = self.p_index;
        proof {
            if n != 0 {
                lemma_field(self.position, 0, 0, 0, pi as nat, bit_length(n));
            }
        }
        self.p_index += POSITION_BITS - x;
        let children = RawGenIter { raw_gen: self.clone(), shift: pi as usize, n };
        assert(children@ =~= before.siblings(n));
        children
    }
}

/// A splittable random generator.
///
/// This generator can be efficiently split with the `.split()` method,
/// resulting in two subsequently independent generator states.
#[derive(Debug)]
pub struct Gen {
    gen: RawGen,
    b_index: u16,
    block: [u32; 8],
}

impl View for Gen {
    type V = GenState;

    closed spec fn view(&self) -> GenState {
        GenState { gen: self.gen@, block: self.block@, cursor: self.b_index as nat }
    }
}

impl Gen {
    /// A word generator seeded with `seed`, with no word cached.
    pub fn new(seed: Block) -> (g: Self)
        ensures
            g@ == GenState::fresh(seed@),
            g@.wf(),
    {
        Gen::from_raw(RawGen::new(seed))
    }

    /// A word generator that draws its blocks from `raw`, with no word
    /// cached.
    pub fn from_raw(raw: RawGen) -> (g: Self)
        ensures
            g@ == GenState::from_raw(raw@),
            g@.wf(),
    {
        proof {
            use_type_invariant(&raw);
        }
        let block: [u32; 8] = [0; 8];
        assert(block@ =~= Seq::new(8, |i: int| 0u32));
        Gen { gen: raw, b_index: 8, block }
    }

    /// The next 32-bit word. A block gives eight words, read little-endian
    /// from its bytes in order; a new block is drawn when they are used up.
    pub fn next_u32(&mut self) -> (w: u32)
        ensures
            w == old(self)@.word(),
            final(self)@ == old(self)@.after_word(),
            old(self)@.wf(),
            final(self)@.wf(),
    {
        proof {
            use_type_invariant(&self.gen);
        }
        let i: usize = if self.b_index >= 8 {
            self.b_index = 1;
            let blk: Block = self.gen.g_next();
            self.block = bytes_to_half_words(&blk);
            0
        } else {
            self.b_index += 1;
            (self.b_index - 1) as usize
        };
        self.block[i]
    }

    /// Fills `dest` with the bytes of the blocks to come: one block for
    /// every 32 bytes of `dest`, and the leading bytes of one more block for
    /// what is left. The cached words are neither used nor changed, so the
    /// words that [`Self::next_u32`] returns afterwards are those that were
    /// cached before; the blocks used here are not seen by it.
    pub fn fill_bytes(&mut self, dest: &mut [u8])
        ensures
            final(dest)@ == old(self)@.gen.stream(old(dest)@.len()),
            final(self)@ == old(self)@.after_fill(old(dest)@.len()),
            old(self)@.wf(),
            final(self)@.wf(),
    {
        proof {
            use_type_invariant(&self.gen);
        }
        let ghost before = self@;
        let len: usize = dest.len();
        let mut start: usize = 0;
        let ghost mut blocks: nat = 0;
        while start < len
            invariant
                dest@.len() == len,
                start <= len,
                start == len || start == 32 * blocks,
                start == len ==> blocks == (len + 31) / 32,
                32 * blocks < len + 32,
                before.wf(),
                self@.wf(),
                self@ == (GenState { gen: before.gen.after(blocks), ..before }),
                forall|i: int| 0 <= i < start ==> dest@[i] == before.gen.stream(len as nat)[i],
            decreases len - start,
        {
            let blk: Block = self.gen.g_next();
            let m: usize = if len - start > 32 {
                32
            } else {
                len - start
            };
            let mut j: usize = 0;
            while j < m
                invariant
                    dest@.len() == len,
                    start < len,
                    start == 32 * blocks,
                    j <= m <= 32,
                    m <= len - start,
                    blk@ == before.gen.after(blocks).output(),
                    forall|i: int|
                        0 <= i < start + j ==> dest@[i] == before.gen.stream(len as nat)[i],
                decreases m - j,
            {
                dest[start + j] = blk[j];
                j += 1;
            }
            proof {
                blocks = blocks + 1;
            }
            start += m;
        }
        assert(dest@ =~= before.gen.stream(len as nat));
    }
}

impl Clone for Gen {
    /// A second generator in the same state, cached words included.
    fn clone(&self) -> (copy: Self)
        ensures
            copy@ == self@,
    {
        Gen { gen: self.gen.clone(), b_index: self.b_index, block: self.block }
    }
}

/// The siblings of an n-way split of a [`Gen`], handed out one by one.
///
/// Its view is the sequence of the siblings that are still to come.
pub struct GenIter {
    raw_gen_iter: RawGenIter,
}

impl View for GenIter {
    type V = Seq<GenState>;

    closed spec fn view(&self) -> Seq<GenState> {
        self.raw_gen_iter@.map_values(|raw: RawState| GenState::from_raw(raw))
    }
}

impl GenIter {
    /// Hands out the next sibling, as a word generator with no word cached,
    /// or `None` when all have been handed out.
    pub fn next(&mut self) -> (item: Option<Gen>)
        ensures
            match item {
                None => old(self)@.len() == 0 && final(self)@ == old(self)@,
                Some(g) => {
                    &&& old(self)@.len() > 0
                    &&& g@ == old(self)@[0]
                    &&& g@.wf()
                    &&& final(self)@ == old(self)@.drop_first()
                },
            },
    {
        let ghost before = self@;
        match self.raw_gen_iter.next() {
            None => None,
            Some(raw) => {
                assert(self@ =~= before.drop_first());
                Some(Gen::from_raw(raw))
            },
        }
    }
}

impl Splittable for Gen {
    type Iter = GenIter;

    /// Whether the regions of the block generators of the two have a point
    /// in common.
    open spec fn overlaps(&self, other: &Self) -> bool {
        !disjoint(self@.gen, other@.gen)
    }

    open spec fn pending(children: &GenIter) -> nat {
        children@.len()
    }

    /// Splits the block generator underneath. The sibling starts with no
    /// word cached; the cached words of this generator stay.
    fn split(&mut self) -> (child: Self)
        ensures
            final(self)@ == old(self)@.after_split(1),
            child@ == GenState::from_raw(old(self)@.gen.sibling(1, 1)),
            old(self)@.wf(),
            final(self)@.wf(),
            child@.wf(),
            disjoint(final(self)@.gen, child@.gen),
    {
        proof {
            use_type_invariant(&self.gen);
        }
        Gen::from_raw(self.gen.split())
    }

    /// Splits the block generator underneath `n` ways. The siblings start
    /// with no word cached; the cached words of this generator stay. The
    /// regions of the block generators are carved up as in the split
    /// underneath.
    fn splitn(&mut self, n: usize) -> (children: GenIter)
        ensures
            final(self)@ == old(self)@.after_split(bit_length(n as u64)),
            children@ == old(self)@.gen.siblings(n as u64).map_values(
                |raw: RawState| GenState::from_raw(raw),
            ),
            n == 0 ==> final(self)@ == old(self)@,
            old(self)@.wf(),
            final(self)@.wf(),
            carves(
                old(self)@.gen.rooted(bit_length(n as u64)),
                final(self)@.gen,
                old(self)@.gen.siblings(n as u64),
            ),
    {
        proof {
            use_type_invariant(&self.gen);
        }
        GenIter { raw_gen_iter: self.gen.splitn(n) }
    }
}

} // verus!
