//! Fixed-capacity inline vectors, backed by `smallvec::SmallVec`.
//!
//! A pattern's bytes and the quotients and remainders of the Euclidean
//! descent live in vectors that keep up to 64 items inline. Verus cannot look
//! inside a `SmallVec`, so the two vectors are opaque here, and nothing in
//! this file is proved: each contract restates what the `smallvec` source
//! shows of the one method that the body calls.

use smallvec::SmallVec;
use vstd::prelude::*;

verus! {

/// Number of items either vector holds inline, without touching the heap.
pub const INLINE_CAPACITY: usize = 64;

/// An inline vector of bytes: `SmallVec<[u8; 64]>`.
#[verifier::external_body]
pub struct InlineBytes {
    inner: SmallVec<[u8; 64]>,
}

/// An inline vector of machine words: `SmallVec<[usize; 64]>`.
#[verifier::external_body]
pub struct InlineWords {
    inner: SmallVec<[usize; 64]>,
}

/// The bytes that a byte vector holds, in order.
pub uninterp spec fn byte_items(v: InlineBytes) -> Seq<u8>;

/// The words that a word vector holds, in order.
pub uninterp spec fn word_items(v: InlineWords) -> Seq<usize>;

/// `SmallVec::new`: an empty vector.
#[verifier::external_body]
pub(crate) fn bytes_new() -> (v: InlineBytes)
    ensures
        byte_items(v) == Seq::<u8>::empty(),
{
    InlineBytes { inner: SmallVec::new() }
}

/// `SmallVec::push`: appends `value` behind the items already held. The
/// bound keeps the vector inside its inline buffer, where `push` neither
/// allocates nor fails.
#[verifier::external_body]
pub(crate) fn bytes_push(v: &mut InlineBytes, value: u8)
    requires
        byte_items(*old(v)).len() < INLINE_CAPACITY,
    ensures
        byte_items(*final(v)) == byte_items(*old(v)).push(value),
{
    v.inner.push(value)
}

/// `SmallVec::len`: the number of items held.
#[verifier::external_body]
pub(crate) fn bytes_len(v: &InlineBytes) -> (n: usize)
    ensures
        n == byte_items(*v).len(),
{
    v.inner.len()
}

/// Indexing a `SmallVec`, which indexes the slice of its items: the item at
/// position `i`. Out of bounds it panics, so `i` must be in bounds.
#[verifier::external_body]
pub(crate) fn bytes_get(v: &InlineBytes, i: usize) -> (b: u8)
    requires
        i < byte_items(*v).len(),
    ensures
        b == byte_items(*v)[i as int],
{
    v.inner[i]
}

/// `rotate_left` on the slice of a `SmallVec`'s items: the first `mid` items
/// move to the end and the others move to the front, each group keeping its
/// order. It panics where `mid` exceeds the length.
#[verifier::external_body]
pub(crate) fn bytes_rotate_left(v: &mut InlineBytes, mid: usize)
    requires
        mid <= byte_items(*old(v)).len(),
    ensures
        byte_items(*final(v)) == byte_items(*old(v)).subrange(
            mid as int,
            byte_items(*old(v)).len() as int,
        ) + byte_items(*old(v)).subrange(0, mid as int),
{
    v.inner.rotate_left(mid)
}

/// `SmallVec::new`: an empty vector.
#[verifier::external_body]
pub(crate) fn words_new() -> (v: InlineWords)
    ensures
        word_items(v) == Seq::<usize>::empty(),
{
    InlineWords { inner: SmallVec::new() }
}

/// `SmallVec::push`: appends `value` behind the items already held. The
/// bound keeps the vector inside its inline buffer, where `push` neither
/// allocates nor fails.
#[verifier::external_body]
pub(crate) fn words_push(v: &mut InlineWords, value: usize)
    requires
        word_items(*old(v)).len() < INLINE_CAPACITY,
    ensures
        word_items(*final(v)) == word_items(*old(v)).push(value),
{
    v.inner.push(value)
}

/// Indexing a `SmallVec`, which indexes the slice of its items: the item at
/// position `i`. Out of bounds it panics, so `i` must be in bounds.
#[verifier::external_body]
pub(crate) fn words_get(v: &InlineWords, i: usize) -> (w: usize)
    requires
        i < word_items(*v).len(),
    ensures
        w == word_items(*v)[i as int],
{
    v.inner[i]
}

} // verus!
