//! A tokenizer that cuts text at Unicode word boundaries and tags each piece
//! with the byte offset at which it starts.

use super::stream::{
    end_of_text, is_stream_of, lemma_tiles_stream, segment_tokens, start_of_text, token_stream,
    views, TokenKind, TokenView,
};
use crate::segmentation::{bounds_left, next_bound, split_word_bound_indices};
use crate::text::same_text;
use unicode_segmentation::UWordBoundIndices;
use vstd::prelude::*;
use vstd::string::*;

verus! {

/// What a token is: one of the two sentinels, or a piece of the text.
#[derive(Debug, PartialEq, Eq)]
pub enum TokenType<'a> {
    StartOfText,
    EndOfText,
    Str(&'a str),
}

/// A token and the byte offset in the text at which it starts.
#[derive(Debug, PartialEq, Eq)]
pub struct Token<'a> {
    pub token: TokenType<'a>,
    pub byte_index: usize,
}

impl<'a> View for TokenType<'a> {
    type V = TokenKind;

    open spec fn view(&self) -> TokenKind {
        match *self {
            TokenType::StartOfText => TokenKind::StartOfText,
            TokenType::EndOfText => TokenKind::EndOfText,
            TokenType::Str(text) => TokenKind::Segment(text@),
        }
    }
}

impl<'a> View for Token<'a> {
    type V = TokenView;

    open spec fn view(&self) -> TokenView {
        TokenView { kind: self.token@, byte_index: self.byte_index as nat }
    }
}

impl<'a> Token<'a> {
    /// The token of kind `typ` that starts at `byte_index`.
    pub fn new(typ: TokenType<'a>, byte_index: usize) -> (token: Self)
        ensures
            token.token == typ,
            token.byte_index == byte_index,
    {
        Token { token: typ, byte_index: byte_index }
    }
}

/// A single forward pass over the tokens of a text. A new pass takes a new
/// lexer.
pub struct UnicodeLexer<'a> {
    eof: bool,
    start_emitted: bool,
    original_string: &'a str,
    word_bound_indices: UWordBoundIndices<'a>,
}

impl<'a> UnicodeLexer<'a> {
    /// The tokens that the lexer has yet to hand out, in order.
    pub closed spec fn pending(&self) -> Seq<TokenView> {
        (if self.start_emitted {
            Seq::empty()
        } else {
            seq![start_of_text()]
        }) + segment_tokens(bounds_left(self.word_bound_indices)) + (if self.eof {
            Seq::empty()
        } else {
            seq![end_of_text(self.original_string@)]
        })
    }

    /// A lexer at the start of `source_string`, with all its tokens pending.
    pub fn new(source_string: &'a str) -> (lexer: Self)
        ensures
            lexer.pending() == token_stream(source_string@),
            is_stream_of(lexer.pending(), source_string@),
    {
        let word_bounds = split_word_bound_indices(source_string);
        proof {
            lemma_tiles_stream(bounds_left(word_bounds), source_string@);
        }
        UnicodeLexer {
            eof: false,
            start_emitted: false,
            original_string: source_string,
            word_bound_indices: word_bounds,
        }
    }

    /// Hands out the first pending token, if there is one.
    pub fn next(&mut self) -> (token: Option<Token<'a>>)
        ensures
            match token {
                Some(t) => {
                    &&& old(self).pending().len() > 0
                    &&& t@ == old(self).pending()[0]
                    &&& final(self).pending() == old(self).pending().drop_first()
                },
                None => old(self).pending().len() == 0 && final(self).pending().len() == 0,
            },
    {
        // Emit a start token (if start)
        if !self.start_emitted {
            self.start_emitted = true;
            assert(self.pending() =~= old(self).pending().drop_first());
            Some(Token { token: TokenType::StartOfText, byte_index: 0 })
        } else {
            let ghost left = bounds_left(self.word_bound_indices);
            match next_bound(&mut self.word_bound_indices) {
                Some((index, tok)) => {
                    assert(segment_tokens(left.drop_first()) =~= segment_tokens(left).drop_first());
                    assert(self.pending() =~= old(self).pending().drop_first());
                    Some(Token { token: TokenType::Str(tok), byte_index: index })
                },
                None => {
                    // Once the word bounds are used up, emit the end token, and only once
                    if !self.eof {
                        self.eof = true;
                        assert(self.pending() =~= old(self).pending().drop_first());
                        Some(
                            Token {
                                token: TokenType::EndOfText,
                                byte_index: self.original_string.as_bytes().len(),
                            },
                        )
                    } else {
                        None
                    }
                },
            }
        }
    }

    /// Hands out all pending tokens at once.
    pub fn into_tokens(self) -> (tokens: Vec<Token<'a>>)
        ensures
            views(tokens@) == self.pending(),
    {
        let mut lexer = self;
        let mut tokens: Vec<Token<'a>> = Vec::new();
        loop
            invariant
                views(tokens@) + lexer.pending() == self.pending(),
            ensures
                views(tokens@) == self.pending(),
            decreases lexer.pending().len(),
        {
            let ghost before = lexer.pending();
            let ghost seen = views(tokens@);
            match lexer.next() {
                Some(token) => {
                    tokens.push(token);
                    assert(views(tokens@) =~= seen.push(before[0]));
                    assert(views(tokens@) + lexer.pending() =~= seen + before);
                },
                None => {
                    assert(seen + before =~= seen);
                    break ;
                },
            }
        }
        tokens
    }
}

/// Cuts `source` into tokens: the opening sentinel, a segment for each piece
/// between word boundaries, the closing sentinel.
pub fn tokenize(source: &str) -> (tokens: Vec<Token<'_>>)
    ensures
        views(tokens@) == token_stream(source@),
        is_stream_of(views(tokens@), source@),
{
    UnicodeLexer::new(source).into_tokens()
}

/// Whether a token is worth keeping: every token but a segment that is
/// exactly one space or exactly one line feed.
pub open spec fn keeps(token: TokenView) -> bool {
    match token.kind {
        TokenKind::Segment(text) => !(text == seq![' '] || text == seq!['\n']),
        _ => true,
    }
}

/// Whether `tok` is anything but a single space or a single line feed. Tabs,
/// other white space and runs of spaces are kept.
pub fn filter_word_boundaries<'a>(tok: &Token<'a>) -> (keep: bool)
    ensures
        keep == keeps(tok@),
{
    match tok.token {
        TokenType::Str(word) => {
            proof {
                reveal_strlit(" ");
                reveal_strlit("\n");
                assert(" "@ =~= seq![' ']);
                assert("\n"@ =~= seq!['\n']);
            }
            !(same_text(word, " ") || same_text(word, "\n"))
        },
        _ => true,
    }
}

} // verus!
