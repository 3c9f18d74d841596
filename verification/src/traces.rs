//! What the callers of a word generator observe.
//!
//! The words and bytes that a generator returns are determined by its seed
//! and by the calls made on it, and the bytes that it fills are the
//! little-endian spelling of the words that it would have returned instead.

use crate::endian::{half_words_of_block, le_bytes, lemma_half_words_spell_block};
use crate::model::GenState;
use vstd::prelude::*;

verus! {

/// A call on a word generator.
pub enum Call {
    /// Asks for the next word.
    NextWord,
    /// Asks for `len` bytes.
    FillBytes { len: nat },
    /// Splits a sibling off.
    Split,
}

/// What a call returns.
pub enum Reply {
    /// The word that was asked for.
    Word(u32),
    /// The bytes that were asked for.
    Bytes(Seq<u8>),
    /// The sibling that was split off.
    Sibling(GenState),
}

/// What `call` returns in state `s`.
pub open spec fn reply(s: GenState, call: Call) -> Reply {
    match call {
        Call::NextWord => Reply::Word(s.word()),
        Call::FillBytes { len } => Reply::Bytes(s.gen.stream(len)),
        Call::Split => Reply::Sibling(GenState::from_raw(s.gen.sibling(1, 1))),
    }
}

/// The state that `call` leaves a generator in that was in state `s`.
pub open spec fn moved(s: GenState, call: Call) -> GenState {
    match call {
        Call::NextWord => s.after_word(),
        Call::FillBytes { len } => s.after_fill(len),
        Call::Split => s.after_split(1),
    }
}

/// What a sequence of calls returns, one after the other, from state `s`.
pub open spec fn replies(s: GenState, calls: Seq<Call>) -> Seq<Reply>
    decreases calls.len(),
{
    if calls.len() == 0 {
        Seq::empty()
    } else {
        seq![reply(s, calls[0])] + replies(moved(s, calls[0]), calls.drop_first())
    }
}

/// The two states have the same block generator, the same cursor, and the
/// same cached words from the cursor on. The cached words that have been
/// returned already may differ.
pub open spec fn same_future(a: GenState, b: GenState) -> bool {
    &&& a.gen == b.gen
    &&& a.cursor == b.cursor
    &&& forall|i: int| a.cursor <= i < 8 ==> a.block[i] == b.block[i]
}

/// Two generators that agree on what is still to come return the same to
/// every call, and agree again afterwards.
pub proof fn lemma_call_determined(a: GenState, b: GenState, call: Call)
    requires
        same_future(a, b),
    ensures
        reply(a, call) == reply(b, call),
        same_future(moved(a, call), moved(b, call)),
{
}

/// Two generators that agree on what is still to come return the same to
/// every sequence of calls.
pub proof fn lemma_replies_determined(a: GenState, b: GenState, calls: Seq<Call>)
    requires
        same_future(a, b),
    ensures
        replies(a, calls) == replies(b, calls),
    decreases calls.len(),
{
    if calls.len() > 0 {
        lemma_call_determined(a, b, calls[0]);
        lemma_replies_determined(moved(a, calls[0]), moved(b, calls[0]), calls.drop_first());
    }
}

/// Two generators made from the same seed return the same to the same
/// sequence of calls.
pub proof fn lemma_same_seed_same_replies(seed_a: Seq<u8>, seed_b: Seq<u8>, calls: Seq<Call>)
    requires
        seed_a == seed_b,
    ensures
        replies(GenState::fresh(seed_a), calls) == replies(GenState::fresh(seed_b), calls),
{
    lemma_replies_determined(GenState::fresh(seed_a), GenState::fresh(seed_b), calls);
}

/// The state of a generator that started with no word cached, after `k`
/// words: it has drawn a block for every eight words or part of them, the
/// last of these blocks is cached, and the cursor counts the words taken from
/// it.
pub proof fn lemma_after_words(s: GenState, k: nat)
    requires
        s.refills(),
        k >= 1,
    ensures
        s.after_words(k) == (GenState {
            gen: s.gen.after((k + 7) / 8),
            block: half_words_of_block(s.gen.after(((k - 1) / 8) as nat).output()),
            cursor: ((k - 1) % 8 + 1) as nat,
        }),
    decreases k,
{
    if k > 1 {
        lemma_after_words(s, (k - 1) as nat);
        let blocks = ((k + 6) / 8) as nat;
        assert(s.gen.after(blocks + 1) == s.gen.after(blocks).next());
    } else {
        assert(s.after_words(0) == s);
        assert(s.gen.after(1) == s.gen.after(0).next());
    }
}

/// The words of a generator that starts with no word cached are the words
/// of its blocks in order: word `k` is word `k % 8` of block `k / 8`.
pub proof fn lemma_word_stream(s: GenState, k: nat)
    requires
        s.refills(),
    ensures
        s.after_words(k).word() == half_words_of_block(s.gen.after(k / 8).output())[(k % 8) as int],
{
    if k >= 1 {
        lemma_after_words(s, k);
    }
}

/// Bytes and words come from the same blocks in the same order: for a
/// generator with no word cached, bytes `4 * k` to `4 * k + 3` of what it
/// would fill are the little-endian spelling of what would be its word `k`.
pub proof fn lemma_bytes_spell_words(s: GenState, k: nat, len: nat)
    requires
        s.refills(),
        4 * k + 4 <= len,
    ensures
        s.gen.stream(len).subrange(4 * k as int, 4 * k + 4 as int) == le_bytes(
            s.after_words(k).word() as nat,
            4,
        ),
{
    let block = s.gen.after(k / 8).output();
    lemma_word_stream(s, k);
    lemma_half_words_spell_block(block, (k % 8) as int);
    let at = (k % 8) as int;
    assert(s.gen.stream(len).subrange(4 * k as int, 4 * k + 4 as int) =~= block.subrange(
        4 * at,
        4 * at + 4,
    ));
}

} // verus!
