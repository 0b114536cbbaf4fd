//! A reader that hands out the tokens of a text one at a time.

use super::stream::{
    end_of_text, is_stream_of, lemma_tiles_stream, segment_tokens, start_of_text, token_stream,
    views, TokenKind, TokenView,
};
use crate::segmentation::{bounds_left, next_bound, split_word_bound_indices};
use unicode_segmentation::UWordBoundIndices;
use vstd::prelude::*;

verus! {

/// What a token is: one of the two sentinels, a line break, or a piece of
/// the text.
#[derive(Debug, PartialEq, Eq)]
pub enum TokenType<'a> {
    StartOfText,
    EndOfText,
    Newline,
    Other(&'a str),
}

/// A token and the byte offset in the text at which it starts.
#[derive(Debug, PartialEq, Eq)]
pub struct Token<'a> {
    pub tok: TokenType<'a>,
    pub byte_index: usize,
}

impl<'a> View for TokenType<'a> {
    type V = TokenKind;

    open spec fn view(&self) -> TokenKind {
        match *self {
            TokenType::StartOfText => TokenKind::StartOfText,
            TokenType::EndOfText => TokenKind::EndOfText,
            TokenType::Newline => TokenKind::Newline,
            TokenType::Other(text) => TokenKind::Segment(text@),
        }
    }
}

impl<'a> View for Token<'a> {
    type V = TokenView;

    open spec fn view(&self) -> TokenView {
        TokenView { kind: self.tok@, byte_index: self.byte_index as nat }
    }
}

/// A single forward pass over the tokens of a text. A new pass takes a new
/// reader.
pub struct StringReader<'a> {
    eof: bool,
    start_emitted: bool,
    original_string: &'a str,
    word_bound_indices: UWordBoundIndices<'a>,
}

impl<'a> StringReader<'a> {
    /// The tokens that the reader has yet to hand out, in order.
    pub closed spec fn pending(&self) -> Seq<TokenView> {
        (if self.start_emitted {
            Seq::empty()
        } else {
            seq![start_of_text()]
        }) + segment_tokens(bounds_left(self.word_bound_indices)) + (if self.eof {
            Seq::empty()
        } else {
            seq![end_of_text(self.original_string@)]
        })
    }

    /// A reader at the start of `source_string`, with all its tokens pending.
    pub fn new(source_string: &'a str) -> (reader: Self)
        ensures
            reader.pending() == token_stream(source_string@),
            is_stream_of(reader.pending(), source_string@),
    {
        let word_bounds = split_word_bound_indices(source_string);
        proof {
            lemma_tiles_stream(bounds_left(word_bounds), source_string@);
        }
        StringReader {
            eof: false,
            start_emitted: false,
            original_string: source_string,
            word_bound_indices: word_bounds,
        }
    }

    /// Hands out the first pending token, if there is one.
    pub fn next(&mut self) -> (token: Option<Token<'a>>)
        ensures
            match token {
                Some(t) => {
                    &&& old(self).pending().len() > 0
                    &&& t@ == old(self).pending()[0]
                    &&& final(self).pending() == old(self).pending().drop_first()
                },
                None => old(self).pending().len() == 0 && final(self).pending().len() == 0,
            },
    {
        // Emit a start token (if start)
        if !self.start_emitted {
            self.start_emitted = true;
            assert(self.pending() =~= old(self).pending().drop_first());
            Some(Token { tok: TokenType::StartOfText, byte_index: 0 })
        } else {
            let ghost left = bounds_left(self.word_bound_indices);
            match next_bound(&mut self.word_bound_indices) {
                Some((index, tok)) => {
                    assert(segment_tokens(left.drop_first()) =~= segment_tokens(left).drop_first());
                    assert(self.pending() =~= old(self).pending().drop_first());
                    Some(Token { tok: TokenType::Other(tok), byte_index: index })
                },
                None => {
                    // Once the word bounds are used up, emit the end token, and only once
                    if !self.eof {
                        self.eof = true;
                        assert(self.pending() =~= old(self).pending().drop_first());
                        Some(
                            Token {
                                tok: TokenType::EndOfText,
                                byte_index: self.original_string.as_bytes().len(),
                            },
                        )
                    } else {
                        None
                    }
                },
            }
        }
    }

    /// Hands out all pending tokens at once.
    pub fn into_tokens(self) -> (tokens: Vec<Token<'a>>)
        ensures
            views(tokens@) == self.pending(),
    {
        let mut reader = self;
        let mut tokens: Vec<Token<'a>> = Vec::new();
        loop
            invariant
                views(tokens@) + reader.pending() == self.pending(),
            ensures
                views(tokens@) == self.pending(),
            decreases reader.pending().len(),
        {
            let ghost before = reader.pending();
            let ghost seen = views(tokens@);
            match reader.next() {
                Some(token) => {
                    tokens.push(token);
                    assert(views(tokens@) =~= seen.push(before[0]));
                    assert(views(tokens@) + reader.pending() =~= seen + before);
                },
                None => {
                    assert(seen + before =~= seen);
                    break ;
                },
            }
        }
        tokens
    }
}

} // verus!
