//! The mathematical model of the generators.
//!
//! A block generator is a key, a level counter, a position and the number of
//! position bits that are committed. Every output is the block transform of
//! the counters under the key, so a generator is best understood by the set of
//! `(key, level, position)` points that it may still use: stepping and
//! splitting only ever shrink that set, and a split hands the two generators
//! sets that do not meet.

use crate::endian::{block_of_words, half_words_of_block};
use crate::tf::block_transform;
use vstd::prelude::*;

verus! {

/// The width of the position field. Committed bits are counted against it.
pub const POSITION_BITS: u16 = 64;

/// The level that is never used for an output: a generator whose level
/// reaches it moves on to a new position or a new key.
pub const LEVEL_LIMIT: u64 = 0xffff_ffff_ffff_ffff;

/// The word whose `k` lowest bits are set, for `k` up to 64. It is
/// [`low_mask`] with the bit count as a machine word, the form in which
/// facts about it are proved.
pub open spec fn mask64(k: u64) -> u64 {
    if k == 0 {
        0
    } else {
        0xffff_ffff_ffff_ffffu64 >> ((64 - k) as u64)
    }
}

/// The word whose `k` lowest bits are set; all 64 bits for larger `k`.
pub open spec fn low_mask(k: nat) -> u64 {
    if k >= 64 {
        0xffff_ffff_ffff_ffffu64
    } else {
        mask64(k as u64)
    }
}

/// The word `pattern` moved up by `shift` bits.
pub open spec fn field(pattern: u64, shift: nat) -> u64 {
    pattern << (shift as u64)
}

/// The number of bits needed to write `n`: the least `k` with `n < 2^k`.
pub open spec fn bit_length(n: u64) -> nat
    decreases n,
{
    if n == 0 {
        0
    } else {
        1 + bit_length(n / 2)
    }
}

/// The input block for a pair of counters: the words `level`, `position`, 0
/// and 0, each written little-endian.
pub open spec fn counter_block(level: u64, position: u64) -> Seq<u8> {
    block_of_words(seq![level, position, 0u64, 0u64])
}

/// One point of the counter space: what an output is computed from.
pub struct Point {
    pub key: Seq<u8>,
    pub level: u64,
    pub position: u64,
}

/// The state of a block generator.
pub struct RawState {
    /// The key of the block transform, 32 bytes.
    pub key: Seq<u8>,
    /// The number of blocks produced at the current position.
    pub level: u64,
    /// The path through the split tree, in the `p_index` lowest bits.
    pub position: u64,
    /// The number of position bits that are committed.
    pub p_index: nat,
}

impl RawState {
    /// The key has 32 bytes, the level is below its limit, at most 64 bits
    /// are committed and no bit above them is set.
    pub open spec fn wf(self) -> bool {
        &&& self.key.len() == 32
        &&& self.level < LEVEL_LIMIT
        &&& self.p_index <= POSITION_BITS
        &&& self.position <= low_mask(self.p_index)
    }

    /// The state of a new generator: the seed is the key, nothing is
    /// committed, both counters are zero.
    pub open spec fn fresh(seed: Seq<u8>) -> RawState {
        RawState { key: seed, level: 0, position: 0, p_index: 0 }
    }

    /// The point that the next output is computed from.
    pub open spec fn point(self) -> Point {
        Point { key: self.key, level: self.level, position: self.position }
    }

    /// The next output: the block transform of the counters under the key.
    pub open spec fn output(self) -> Seq<u8> {
        block_transform(self.key, counter_block(self.level, self.position))
    }

    /// The state with a new key, which is the transform of the present
    /// counters under the old key, and with everything else as in a new
    /// generator.
    pub open spec fn rekeyed(self) -> RawState {
        RawState::fresh(self.output())
    }

    /// Whether the next output is the last one at the present position.
    pub open spec fn exhausted(self) -> bool {
        self.level + 1 == LEVEL_LIMIT
    }

    /// Whether the step after the next output replaces the key.
    pub open spec fn rekeys_on_next(self) -> bool {
        self.exhausted() && self.p_index >= POSITION_BITS
    }

    /// The state after one output. The level goes up by one. When it reaches
    /// its limit and a position bit is free, the lowest free bit is set and
    /// committed and the level starts again at zero. When no bit is free, the
    /// generator takes a new key, computed at the limit level, and starts
    /// afresh.
    pub open spec fn next(self) -> RawState {
        if !self.exhausted() {
            RawState { level: (self.level + 1) as u64, ..self }
        } else if self.p_index < POSITION_BITS {
            RawState {
                level: 0,
                position: self.position | field(1, self.p_index),
                p_index: self.p_index + 1,
                ..self
            }
        } else {
            (RawState { level: LEVEL_LIMIT, ..self }).rekeyed()
        }
    }

    /// The state after `n` outputs.
    pub open spec fn after(self, n: nat) -> RawState
        decreases n,
    {
        if n == 0 {
            self
        } else {
            self.after((n - 1) as nat).next()
        }
    }

    /// Whether none of the first `n` steps replaces the key.
    pub open spec fn steady(self, n: nat) -> bool
        decreases n,
    {
        n == 0 || (self.steady((n - 1) as nat) && !self.after((n - 1) as nat).rekeys_on_next())
    }

    /// The first `len` bytes of the outputs to come, block after block.
    pub open spec fn stream(self, len: nat) -> Seq<u8> {
        Seq::new(len, |i: int| self.after((i / 32) as nat).output()[i % 32])
    }

    /// The state in which `bits` further position bits get committed: the
    /// state itself where that many bits are free, and else the rekeyed
    /// state, in which all 64 are.
    pub open spec fn rooted(self, bits: nat) -> RawState {
        if self.p_index + bits <= POSITION_BITS {
            self
        } else {
            self.rekeyed()
        }
    }

    /// The state of a generator after it has given away `bits` position
    /// bits to siblings: it keeps the pattern zero in them.
    pub open spec fn after_split(self, bits: nat) -> RawState {
        let root = self.rooted(bits);
        RawState { p_index: root.p_index + bits, ..root }
    }

    /// The sibling that gets `pattern` in the `bits` position bits given
    /// away. It differs from [`Self::after_split`] in those bits only.
    pub open spec fn sibling(self, bits: nat, pattern: u64) -> RawState {
        let root = self.rooted(bits);
        RawState {
            position: root.position | field(pattern, root.p_index),
            p_index: root.p_index + bits,
            ..root
        }
    }

    /// The siblings of an n-way split, in the order in which they are
    /// handed out: as many bits are given away as it takes to write `n`, and
    /// the patterns run from `n` down to 1.
    pub open spec fn siblings(self, n: u64) -> Seq<RawState> {
        Seq::new(n as nat, |j: int| self.sibling(bit_length(n), (n - j) as u64))
    }

    /// Whether `pt` lies in the part of the counter space that this
    /// generator may still use before it takes a new key: the key is the
    /// generator's, the committed bits of the position are the generator's,
    /// and at the generator's own position the level has not been used yet.
    pub open spec fn covers(self, pt: Point) -> bool {
        &&& pt.key == self.key
        &&& pt.position & low_mask(self.p_index) == self.position
        &&& (pt.position == self.position ==> pt.level >= self.level)
    }
}

/// The state of a word generator: a block generator and the words of the
/// last block drawn for words, with a cursor into them.
pub struct GenState {
    /// The block generator that the words are drawn from.
    pub gen: RawState,
    /// The eight words of the cached block.
    pub block: Seq<u32>,
    /// The index of the next cached word; 8 or more when none is left.
    pub cursor: nat,
}

impl GenState {
    /// The block generator is well-formed and eight words are cached.
    pub open spec fn wf(self) -> bool {
        &&& self.gen.wf()
        &&& self.block.len() == 8
    }

    /// A word generator around a block generator, with an empty cache.
    pub open spec fn from_raw(raw: RawState) -> GenState {
        GenState { gen: raw, block: Seq::new(8, |i: int| 0u32), cursor: 8 }
    }

    /// The state of a new word generator.
    pub open spec fn fresh(seed: Seq<u8>) -> GenState {
        GenState::from_raw(RawState::fresh(seed))
    }

    /// Whether the next word comes from a new block.
    pub open spec fn refills(self) -> bool {
        self.cursor >= 8
    }

    /// The next word: the cached word under the cursor, or the first word
    /// of the next block when the cache is used up.
    pub open spec fn word(self) -> u32 {
        if self.refills() {
            half_words_of_block(self.gen.output())[0]
        } else {
            self.block[self.cursor as int]
        }
    }

    /// The state after one word.
    pub open spec fn after_word(self) -> GenState {
        if self.refills() {
            GenState {
                gen: self.gen.next(),
                block: half_words_of_block(self.gen.output()),
                cursor: 1,
            }
        } else {
            GenState { cursor: self.cursor + 1, ..self }
        }
    }

    /// The state after `n` words.
    pub open spec fn after_words(self, n: nat) -> GenState
        decreases n,
    {
        if n == 0 {
            self
        } else {
            self.after_words((n - 1) as nat).after_word()
        }
    }

    /// The state after `len` bytes have been filled: the block generator has
    /// produced one block for every 32 bytes or part of them, and the cached
    /// words are untouched.
    pub open spec fn after_fill(self, len: nat) -> GenState {
        GenState { gen: self.gen.after((len + 31) / 32), ..self }
    }

    /// The state after a split that gives `bits` position bits away: only
    /// the block generator has changed.
    pub open spec fn after_split(self, bits: nat) -> GenState {
        GenState { gen: self.gen.after_split(bits), ..self }
    }
}

} // verus!
