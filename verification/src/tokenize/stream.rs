//! The tokens of a text as values, and what holds of the tokens of one pass.

use crate::segmentation::{
    byte_len, lemma_tiles_at, lemma_tiles_ordered, lies_at, tiles, word_bounds,
};
use vstd::prelude::*;

verus! {

/// What a token is, with the text of a segment in place of the slice.
pub enum TokenKind {
    StartOfText,
    EndOfText,
    Newline,
    Segment(Seq<char>),
}

/// A token as a value: its kind and the byte offset at which it starts.
pub struct TokenView {
    pub kind: TokenKind,
    pub byte_index: nat,
}

/// The tokens of a sequence, as values.
pub open spec fn views<T: View>(tokens: Seq<T>) -> Seq<T::V> {
    Seq::new(tokens.len(), |i: int| tokens[i]@)
}

/// The sentinel that opens every token stream.
pub open spec fn start_of_text() -> TokenView {
    TokenView { kind: TokenKind::StartOfText, byte_index: 0 }
}

/// The sentinel that closes the token stream of `text`.
pub open spec fn end_of_text(text: Seq<char>) -> TokenView {
    TokenView { kind: TokenKind::EndOfText, byte_index: byte_len(text) }
}

/// Word-boundary pieces as segment tokens.
pub open spec fn segment_tokens(pieces: Seq<(usize, Seq<char>)>) -> Seq<TokenView> {
    Seq::new(
        pieces.len(),
        |i: int| TokenView { kind: TokenKind::Segment(pieces[i].1), byte_index: pieces[i].0 as nat },
    )
}

/// The tokens of `text`: the opening sentinel, one segment for each
/// word-boundary piece, the closing sentinel.
pub open spec fn token_stream(text: Seq<char>) -> Seq<TokenView> {
    seq![start_of_text()] + segment_tokens(word_bounds(text)) + seq![end_of_text(text)]
}

/// What holds of the tokens of one pass over `text`: one opening sentinel at
/// offset 0, then segments only, then one closing sentinel at the length of
/// the text; offsets that never decrease; and segments that lie end to end,
/// each being the part of the text at its offset.
pub open spec fn is_stream_of(tokens: Seq<TokenView>, text: Seq<char>) -> bool {
    &&& tokens.len() >= 2
    &&& tokens.first() == start_of_text()
    &&& tokens.last() == end_of_text(text)
    &&& tokens[1].byte_index == 0
    &&& text.len() == 0 ==> tokens.len() == 2
    &&& forall|i: int, j: int|
        0 <= i <= j < tokens.len() ==> (#[trigger] tokens[i]).byte_index
            <= (#[trigger] tokens[j]).byte_index
    &&& forall|i: int|
        0 < i < tokens.len() - 1 ==> {
            &&& (#[trigger] tokens[i]).kind matches TokenKind::Segment(piece)
            &&& tokens[i].byte_index + byte_len(piece) == tokens[i + 1].byte_index
            &&& lies_at(piece, text, tokens[i].byte_index as int)
        }
}

/// Tokens made of tiling pieces between the two sentinels form a stream.
pub proof fn lemma_tiles_stream(pieces: Seq<(usize, Seq<char>)>, text: Seq<char>)
    requires
        tiles(pieces, text, 0),
        text.len() == 0 ==> pieces.len() == 0,
    ensures
        is_stream_of(
            seq![start_of_text()] + segment_tokens(pieces) + seq![end_of_text(text)],
            text,
        ),
{
    let tokens = seq![start_of_text()] + segment_tokens(pieces) + seq![end_of_text(text)];
    assert forall|i: int| 0 < i < tokens.len() - 1 implies {
        &&& (#[trigger] tokens[i]).kind matches TokenKind::Segment(piece)
        &&& tokens[i].byte_index + byte_len(piece) == tokens[i + 1].byte_index
        &&& lies_at(piece, text, tokens[i].byte_index as int)
    } by {
        lemma_tiles_at(pieces, text, 0, i - 1);
    }
    assert forall|i: int, j: int| 0 <= i <= j < tokens.len() implies (#[trigger] tokens[i]).byte_index
        <= (#[trigger] tokens[j]).byte_index by {
        if 0 < i && j < tokens.len() - 1 {
            lemma_tiles_ordered(pieces, text, 0, i - 1, j - 1);
        } else if 0 < i && i < tokens.len() - 1 {
            lemma_tiles_at(pieces, text, 0, i - 1);
        }
    }
    if pieces.len() > 0 {
        lemma_tiles_at(pieces, text, 0, 0);
    }
}

} // verus!
