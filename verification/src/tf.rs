//! The keyed block transform, and the hash that iterates it over a message.
//!
//! The transform is Threefish-256 with an all-zero tweak. It is the only place
//! where the generator touches a cipher: everything else in the crate speaks of
//! [`block_transform`] alone, so another keyed permutation can take its place
//! by changing [`tf256_process_block`] and nothing else.

use crate::endian::{block_of_words, bytes_to_words, words_of_block, words_to_bytes};
use vstd::prelude::*;

verus! {

/// A 256-bit block: a key, an input or an output of the block transform.
pub type Block = [u8; 32];

/// The four ciphertext words that Threefish-256 gives for four key words, two
/// tweak words and four plaintext words.
///
/// The cipher is not defined here. This only names its result, which depends
/// on nothing but the three arguments.
pub uninterp spec fn threefish256(key: Seq<u64>, tweak: Seq<u64>, block: Seq<u64>) -> Seq<u64>;

/// Encrypts one block with Threefish-256.
///
/// Trusted: builds the cipher with `threefish::Threefish256::new_with_tweak_u64`
/// and runs its `encrypt_block_u64` on a copy of `block`. Both are total and
/// compute from their arguments alone, so the result is the one that
/// [`threefish256`] names. Nothing else is claimed of it.
#[verifier::external_body]
fn threefish256_encrypt(key: &[u64; 4], tweak: &[u64; 2], block: &[u64; 4]) -> (out: [u64; 4])
    ensures
        out@ == threefish256(key@, tweak@, block@),
{
    let mut out: [u64; 4] = *block;
    threefish::Threefish256::new_with_tweak_u64(key, tweak).encrypt_block_u64(&mut out);
    out
}

/// The tweak under which every block is transformed: two zero words.
pub open spec fn zero_tweak() -> Seq<u64> {
    seq![0u64, 0u64]
}

/// The block transform: the bytes of `key` and `blk` are read as little-endian
/// words, encrypted under the zero tweak, and the ciphertext words are written
/// back little-endian. The result always has 32 bytes.
pub open spec fn block_transform(key: Seq<u8>, blk: Seq<u8>) -> Seq<u8> {
    block_of_words(threefish256(words_of_block(key), zero_tweak(), words_of_block(blk)))
}

/// The 32 bytes of `msg` that start at index `start`, with zero bytes where
/// the message has ended.
pub open spec fn padded_window(msg: Seq<u8>, start: int) -> Seq<u8> {
    Seq::new(
        32,
        |j: int|
            if start + j < msg.len() {
                msg[start + j]
            } else {
                0u8
            },
    )
}

/// Chunk `i` of `msg`, padded with zeros where it is the last and short.
pub open spec fn padded_chunk_of(msg: Seq<u8>, i: int) -> Seq<u8> {
    padded_window(msg, 32 * i)
}

/// The number of 32-byte chunks that a message of `len` bytes is cut into,
/// the last of which may be short.
pub open spec fn chunk_count(len: nat) -> nat {
    (len + 31) / 32
}

/// The key after the first `n` chunks of `msg` have been absorbed: each chunk,
/// padded with zeros to 32 bytes, is transformed under the key so far, and the
/// result is the next key.
pub open spec fn absorb(key: Seq<u8>, msg: Seq<u8>, n: nat) -> Seq<u8>
    decreases n,
{
    if n == 0 {
        key
    } else {
        block_transform(absorb(key, msg, (n - 1) as nat), padded_chunk_of(msg, n - 1))
    }
}

/// The hash of `msg` under `key`: the key after all chunks have been absorbed.
pub open spec fn hash_of(key: Seq<u8>, msg: Seq<u8>) -> Seq<u8> {
    absorb(key, msg, chunk_count(msg.len()))
}

/// The hash depends on the message through its padded chunks alone: two
/// messages whose first `n` chunks are equal once padded leave the same key
/// after `n` chunks.
pub proof fn lemma_absorb_same_chunks(key: Seq<u8>, a: Seq<u8>, b: Seq<u8>, n: nat)
    requires
        forall|i: int| 0 <= i < n ==> #[trigger] padded_chunk_of(a, i) == padded_chunk_of(b, i),
    ensures
        absorb(key, a, n) == absorb(key, b, n),
    decreases n,
{
    if n > 0 {
        lemma_absorb_same_chunks(key, a, b, (n - 1) as nat);
    }
}

/// The hash of the empty message is the key.
pub proof fn lemma_hash_empty(key: Seq<u8>)
    ensures
        hash_of(key, Seq::<u8>::empty()) == key,
{
}

/// Hashing chains: the hash of a message that continues after whole chunks
/// is the hash of the rest under the hash of those chunks.
pub proof fn lemma_hash_appends(key: Seq<u8>, a: Seq<u8>, b: Seq<u8>)
    requires
        a.len() % 32 == 0,
    ensures
        hash_of(key, a + b) == hash_of(hash_of(key, a), b),
{
    let whole = (a.len() / 32) as nat;
    assert forall|i: int| 0 <= i < whole implies #[trigger] padded_chunk_of(a + b, i)
        == padded_chunk_of(a, i) by {
        assert(padded_chunk_of(a + b, i) =~= padded_chunk_of(a, i));
    }
    lemma_absorb_same_chunks(key, a + b, a, whole);
    lemma_absorb_continues(key, a, b, chunk_count(b.len()));
}

/// After the whole chunks of `a`, absorbing `m` more chunks of `a + b` is
/// absorbing the first `m` chunks of `b`.
proof fn lemma_absorb_continues(key: Seq<u8>, a: Seq<u8>, b: Seq<u8>, m: nat)
    requires
        a.len() % 32 == 0,
        absorb(key, a + b, (a.len() / 32) as nat) == absorb(key, a, (a.len() / 32) as nat),
    ensures
        absorb(key, a + b, (a.len() / 32 + m) as nat) == absorb(
            absorb(key, a, (a.len() / 32) as nat),
            b,
            m,
        ),
    decreases m,
{
    if m > 0 {
        lemma_absorb_continues(key, a, b, (m - 1) as nat);
        assert(padded_chunk_of(a + b, a.len() / 32 + m - 1) =~= padded_chunk_of(b, m - 1));
    }
}

/// Zero bytes that fill up the last chunk do not change the hash: a message
/// and the same message padded with zeros to a whole number of chunks hash
/// alike.
pub proof fn lemma_hash_zero_padding(key: Seq<u8>, msg: Seq<u8>, pad: nat)
    requires
        pad < 32,
        (msg.len() + pad) % 32 == 0,
    ensures
        hash_of(key, msg + Seq::new(pad, |i: int| 0u8)) == hash_of(key, msg),
{
    let padded = msg + Seq::new(pad, |i: int| 0u8);
    let n = chunk_count(msg.len());
    assert forall|i: int| 0 <= i < n implies #[trigger] padded_chunk_of(padded, i)
        == padded_chunk_of(msg, i) by {
        assert(padded_chunk_of(padded, i) =~= padded_chunk_of(msg, i));
    }
    lemma_absorb_same_chunks(key, padded, msg, n);
}

/// Applies the block transform to `blk` under `key`.
pub fn tf256_process_block(key: &Block, blk: &Block) -> (out: Block)
    ensures
        out@ == block_transform(key@, blk@),
{
    let key_words: [u64; 4] = bytes_to_words(key);
    let blk_words: [u64; 4] = bytes_to_words(blk);
    let tweak: [u64; 2] = [0, 0];
    assert(tweak@ =~= zero_tweak());
    let out_words: [u64; 4] = threefish256_encrypt(&key_words, &tweak, &blk_words);
    words_to_bytes(&out_words)
}

/// Copies the 32 bytes of `s` that start at `start` into a block, filling
/// with zeros past the end of `s`.
pub fn padded_chunk(s: &[u8], start: usize) -> (chunk: Block)
    ensures
        chunk@ == padded_window(s@, start as int),
{
    let len: usize = s.len();
    let mut chunk: Block = [0u8; 32];
    let mut j: usize = 0;
    while j < 32 && start < len && j < len - start
        invariant
            j <= 32,
            len == s@.len(),
            start < len ==> j <= len - start,
            start >= len ==> j == 0,
            forall|m: int| 0 <= m < j ==> chunk@[m] == s@[start + m],
            forall|m: int| j <= m < 32 ==> chunk@[m] == 0u8,
        decreases 32 - j,
    {
        chunk[j] = s[start + j];
        j += 1;
    }
    assert(chunk@ =~= padded_window(s@, start as int));
    chunk
}

/// Hashes `s` under `key`: cuts `s` into 32-byte chunks, pads a short last
/// chunk with zeros, and lets each chunk in turn transform the key. The key
/// that is left after the last chunk is the hash. An empty message leaves the
/// key as it is.
pub fn tf256_hash(key: &Block, s: &[u8]) -> (out: Block)
    ensures
        out@ == hash_of(key@, s@),
{
    let len: usize = s.len();
    let mut k: Block = *key;
    let mut start: usize = 0;
    let ghost mut n: nat = 0;
    while start < len
        invariant
            len == s@.len(),
            start <= len,
            start == len || start == 32 * n,
            n <= chunk_count(len as nat),
            start == len ==> n == chunk_count(len as nat),
            k@ == absorb(key@, s@, n),
        decreases len - start,
    {
        let chunk: Block = padded_chunk(s, start);
        k = tf256_process_block(&k, &chunk);
        proof {
            n = n + 1;
        }
        if len - start > 32 {
            start += 32;
        } else {
            start = len;
        }
    }
    k
}

} // verus!
