//! Unicode text segmentation, as the `unicode-segmentation` crate computes it:
//! grapheme clusters and word-boundary pieces with their byte offsets.

use unicode_segmentation::{UWordBoundIndices, UnicodeSegmentation};
use vstd::prelude::*;
use vstd::utf8::*;

verus! {

/// The word-boundary iterator of `unicode-segmentation`. Nothing is known of
/// what is inside it but the pieces that it has yet to hand out.
#[verifier::external_type_specification]
#[verifier::external_body]
pub struct ExUWordBoundIndices<'a>(UWordBoundIndices<'a>);

/// The extended grapheme clusters of `text`, in order.
pub uninterp spec fn grapheme_clusters(text: Seq<char>) -> Seq<Seq<char>>;

/// The pieces between the word boundaries of `text`, in order, each with the
/// byte offset at which it starts.
pub uninterp spec fn word_bounds(text: Seq<char>) -> Seq<(usize, Seq<char>)>;

/// The pieces that a word-boundary iterator has yet to hand out.
pub uninterp spec fn bounds_left(iter: UWordBoundIndices<'_>) -> Seq<(usize, Seq<char>)>;

/// The number of bytes that `text` takes in UTF-8.
pub open spec fn byte_len(text: Seq<char>) -> nat {
    encode_utf8(text).len()
}

/// `piece` is the part of `text` that starts at the byte offset `offset`.
pub open spec fn lies_at(piece: Seq<char>, text: Seq<char>, offset: int) -> bool {
    &&& 0 <= offset
    &&& offset + byte_len(piece) <= byte_len(text)
    &&& encode_utf8(text).subrange(offset, offset + byte_len(piece)) == encode_utf8(piece)
}

/// The pieces lie end to end in `text`: the first starts at `start`, each
/// next one where the one before it ends, and the last ends with the text.
/// Each piece is the part of the text at its offset.
pub open spec fn tiles(pieces: Seq<(usize, Seq<char>)>, text: Seq<char>, start: int) -> bool
    decreases pieces.len(),
{
    if pieces.len() == 0 {
        start == byte_len(text)
    } else {
        let (offset, piece) = pieces[0];
        &&& offset == start
        &&& lies_at(piece, text, start)
        &&& tiles(pieces.drop_first(), text, start + byte_len(piece))
    }
}

/// What tiling says of the piece at position `k`: where it lies, what it
/// holds, and where the next piece starts or the text ends.
pub proof fn lemma_tiles_at(pieces: Seq<(usize, Seq<char>)>, text: Seq<char>, start: int, k: int)
    requires
        tiles(pieces, text, start),
        0 <= k < pieces.len(),
    ensures
        start <= pieces[k].0,
        lies_at(pieces[k].1, text, pieces[k].0 as int),
        k + 1 < pieces.len() ==> pieces[k + 1].0 == pieces[k].0 + byte_len(pieces[k].1),
        k + 1 == pieces.len() ==> pieces[k].0 + byte_len(pieces[k].1) == byte_len(text),
    decreases k,
{
    let rest = pieces.drop_first();
    let next = start + byte_len(pieces[0].1);
    if k > 0 {
        lemma_tiles_at(rest, text, next, k - 1);
    } else if rest.len() > 0 {
        assert(tiles(rest, text, next));
        assert(rest[0].0 == next);
    } else {
        assert(tiles(rest, text, next));
    }
}

/// Tiling pieces come in the order of their offsets.
pub proof fn lemma_tiles_ordered(
    pieces: Seq<(usize, Seq<char>)>,
    text: Seq<char>,
    start: int,
    i: int,
    j: int,
)
    requires
        tiles(pieces, text, start),
        0 <= i <= j < pieces.len(),
    ensures
        pieces[i].0 <= pieces[j].0,
    decreases j - i,
{
    if i < j {
        lemma_tiles_ordered(pieces, text, start, i, j - 1);
        lemma_tiles_at(pieces, text, start, j - 1);
    }
}

/// The texts of string slices.
pub open spec fn texts(slices: Seq<&str>) -> Seq<Seq<char>> {
    Seq::new(slices.len(), |i: int| slices[i]@)
}

/// `UnicodeSegmentation::graphemes` with extended clusters, collected: the
/// clusters of `text` in order.
#[verifier::external_body]
pub(crate) fn graphemes<'a>(text: &'a str) -> (clusters: Vec<&'a str>)
    ensures
        texts(clusters@) == grapheme_clusters(text@),
{
    text.graphemes(true).collect()
}

/// `UnicodeSegmentation::split_word_bound_indices`: an iterator that will
/// hand out the word-boundary pieces of `text`. The iterator cuts each piece
/// off the front of what is left of the text until nothing is left, and
/// reports where the piece starts, so the pieces tile the text from byte 0.
/// Of an empty text nothing is left from the start.
#[verifier::external_body]
pub(crate) fn split_word_bound_indices<'a>(text: &'a str) -> (iter: UWordBoundIndices<'a>)
    ensures
        bounds_left(iter) == word_bounds(text@),
        tiles(bounds_left(iter), text@, 0),
        text@.len() == 0 ==> bounds_left(iter).len() == 0,
{
    text.split_word_bound_indices()
}

/// `Iterator::next` of the word-boundary iterator: the first piece that is
/// left, which then is no longer left; or nothing, once and ever after, when
/// no piece is left.
#[verifier::external_body]
pub(crate) fn next_bound<'a>(iter: &mut UWordBoundIndices<'a>) -> (item: Option<(usize, &'a str)>)
    ensures
        match item {
            Some((offset, piece)) => {
                &&& bounds_left(*old(iter)).len() > 0
                &&& bounds_left(*old(iter))[0] == (offset, piece@)
                &&& bounds_left(*final(iter)) == bounds_left(*old(iter)).drop_first()
            },
            None => {
                &&& bounds_left(*old(iter)).len() == 0
                &&& bounds_left(*final(iter)) == bounds_left(*old(iter))
            },
        },
{
    iter.next()
}

} // verus!
