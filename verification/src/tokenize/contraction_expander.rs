//! Splitting an English contraction into its stem and its clitic.

use super::stream::{views, TokenKind, TokenView};
use super::unicode_base_lexer::{Token, TokenType};
use crate::segmentation::{byte_len, lies_at};
use crate::text::lemma_encode_concat;
use vstd::prelude::*;
use vstd::string::*;
use vstd::utf8::*;

verus! {

/// `word` is a stem that is not empty, followed by `clitic` and nothing more.
pub open spec fn ends_in(word: Seq<char>, clitic: Seq<char>) -> bool {
    &&& word.len() > clitic.len()
    &&& word.skip(word.len() - clitic.len()) == clitic
}

/// The clitic that `word` ends in, if it ends in one.
pub open spec fn clitic_of(word: Seq<char>) -> Option<Seq<char>> {
    if ends_in(word, "'s"@) {
        Some("'s"@)
    } else if ends_in(word, "'ll"@) {
        Some("'ll"@)
    } else if ends_in(word, "'re"@) {
        Some("'re"@)
    } else if ends_in(word, "'ve"@) {
        Some("'ve"@)
    } else if ends_in(word, "n't"@) {
        Some("n't"@)
    } else if ends_in(word, "'m"@) {
        Some("'m"@)
    } else if ends_in(word, "'d"@) {
        Some("'d"@)
    } else {
        None
    }
}

/// What a token expands to: a segment that ends in a clitic becomes its stem,
/// at the token's offset, and the clitic, at the offset where the stem ends;
/// any other token stays as it is.
pub open spec fn clitic_expansion(token: TokenView) -> Seq<TokenView> {
    match token.kind {
        TokenKind::Segment(word) => match clitic_of(word) {
            Some(clitic) => {
                let stem = word.take(word.len() - clitic.len());
                seq![
                    TokenView { kind: TokenKind::Segment(stem), byte_index: token.byte_index },
                    TokenView {
                        kind: TokenKind::Segment(clitic),
                        byte_index: token.byte_index + byte_len(stem),
                    },
                ]
            },
            None => seq![token],
        },
        _ => seq![token],
    }
}

/// One of the seven clitics.
pub open spec fn is_clitic(text: Seq<char>) -> bool {
    ||| text == "'s"@
    ||| text == "'ll"@
    ||| text == "'re"@
    ||| text == "'ve"@
    ||| text == "n't"@
    ||| text == "'m"@
    ||| text == "'d"@
}

/// A word that ends in a clitic ends in its characters, one by one.
proof fn lemma_ends_in_chars(word: Seq<char>, clitic: Seq<char>)
    requires
        ends_in(word, clitic),
    ensures
        forall|i: int|
            0 <= i < clitic.len() ==> word[word.len() - clitic.len() + i] == #[trigger] clitic[i],
{
    let tail = word.skip(word.len() - clitic.len());
    assert forall|i: int| 0 <= i < clitic.len() implies word[word.len() - clitic.len() + i]
        == #[trigger] clitic[i] by {
        assert(tail[i] == word[word.len() - clitic.len() + i]);
    }
}

/// A word ends in at most one clitic, so the clitic of a word is the one
/// clitic that it ends in, whichever is looked for first.
pub proof fn lemma_clitic_of(word: Seq<char>, clitic: Seq<char>)
    ensures
        clitic_of(word) == Some(clitic) <==> is_clitic(clitic) && ends_in(word, clitic),
{
    reveal_strlit("'s");
    reveal_strlit("'ll");
    reveal_strlit("'re");
    reveal_strlit("'ve");
    reveal_strlit("n't");
    reveal_strlit("'m");
    reveal_strlit("'d");
    if is_clitic(clitic) && ends_in(word, clitic) {
        lemma_ends_in_chars(word, clitic);
        match clitic_of(word) {
            Some(found) => {
                // no two clitics agree in their last two characters
                lemma_ends_in_chars(word, found);
                let n = word.len() as int;
                assert(word[n - 1] == clitic[clitic.len() - 1]);
                assert(word[n - 2] == clitic[clitic.len() - 2]);
                assert(word[n - 1] == found[found.len() - 1]);
                assert(word[n - 2] == found[found.len() - 2]);
                assert(found =~= clitic);
            },
            None => {},
        }
    }
}

/// Expanding a segment keeps its text in its place: where the segment splits,
/// the stem followed by the clitic is the segment's text, the stem starts
/// where the segment starts, and the clitic starts where the stem ends and
/// ends where the segment ends. A segment that lies in a text at its offset
/// splits into parts that lie in the text at theirs.
pub proof fn lemma_expansion_keeps_place(token: TokenView, text: Seq<char>)
    requires
        token.kind is Segment,
    ensures
        ({
            let word = token.kind->Segment_0;
            let parts = clitic_expansion(token);
            &&& parts.len() == 1 || parts.len() == 2
            &&& parts.len() == 1 ==> parts[0] == token
            &&& parts.len() == 2 ==> {
                &&& parts[0].kind matches TokenKind::Segment(stem)
                &&& parts[1].kind matches TokenKind::Segment(clitic)
                &&& stem + clitic == word
                &&& stem.len() > 0
                &&& is_clitic(clitic)
                &&& parts[0].byte_index == token.byte_index
                &&& parts[1].byte_index == token.byte_index + byte_len(stem)
                &&& parts[1].byte_index + byte_len(clitic) == token.byte_index + byte_len(word)
                &&& lies_at(word, text, token.byte_index as int) ==> {
                    &&& lies_at(stem, text, parts[0].byte_index as int)
                    &&& lies_at(clitic, text, parts[1].byte_index as int)
                }
            }
        }),
{
    let word = token.kind->Segment_0;
    match clitic_of(word) {
        Some(clitic) => {
            let stem = word.take(word.len() - clitic.len());
            assert(word =~= stem + clitic);
            lemma_encode_concat(stem, clitic);
            if lies_at(word, text, token.byte_index as int) {
                let from = token.byte_index as int;
                let bytes = encode_utf8(text);
                let mid = from + byte_len(stem);
                assert(bytes.subrange(from, mid) =~= encode_utf8(word).subrange(
                    0,
                    byte_len(stem) as int,
                ));
                assert(encode_utf8(word).subrange(0, byte_len(stem) as int) =~= encode_utf8(stem));
                assert(bytes.subrange(mid, mid + byte_len(clitic)) =~= encode_utf8(word).subrange(
                    byte_len(stem) as int,
                    byte_len(word) as int,
                ));
                assert(encode_utf8(word).subrange(byte_len(stem) as int, byte_len(word) as int)
                    =~= encode_utf8(clitic));
            }
        },
        None => {},
    }
}

/// A text that is not empty takes at least one byte.
proof fn lemma_bytes_of_nonempty(text: Seq<char>)
    requires
        text.len() > 0,
    ensures
        byte_len(text) > 0,
{
    encode_utf8_decode_utf8(text);
}

/// Cuts `word` in two where `clitic` begins, if `word` ends in it.
fn split_before<'a>(word: &'a str, clitic: &str) -> (parts: Option<(&'a str, &'a str)>)
    requires
        clitic@.len() > 0,
    ensures
        match parts {
            Some((stem, tail)) => {
                &&& ends_in(word@, clitic@)
                &&& stem@ == word@.take(word@.len() - clitic@.len())
                &&& tail@ == clitic@
            },
            None => !ends_in(word@, clitic@),
        },
{
    let bytes = word.as_bytes();
    let wanted = clitic.as_bytes();
    proof {
        // a word that ends in the clitic has the bytes of a stem, then those
        // of the clitic
        lemma_bytes_of_nonempty(clitic@);
        if ends_in(word@, clitic@) {
            let stem = word@.take(word@.len() - clitic@.len());
            assert(word@ =~= stem + clitic@);
            lemma_encode_concat(stem, clitic@);
            lemma_bytes_of_nonempty(stem);
        }
    }
    if bytes.len() <= wanted.len() {
        return None;
    }
    let mid: usize = bytes.len() - wanted.len();
    let mut k: usize = 0;
    while k < wanted.len()
        invariant
            k <= wanted.len(),
            mid + wanted.len() == bytes.len(),
            bytes@ == encode_utf8(word@),
            wanted@ == encode_utf8(clitic@),
            ends_in(word@, clitic@) ==> bytes@ == encode_utf8(
                word@.take(word@.len() - clitic@.len()),
            ) + wanted@,
            forall|i: int| 0 <= i < k ==> bytes@[mid + i] == wanted@[i],
        decreases wanted.len() - k,
    {
        if bytes[mid + k] != wanted[k] {
            return None;
        }
        k += 1;
    }
    proof {
        let head = bytes@.subrange(0, mid as int);
        let rest = bytes@.subrange(mid as int, bytes@.len() as int);
        assert(rest =~= wanted@);
        // the clitic's first byte starts a character, so the word can be cut
        // before it, and its text is that of the two parts
        encode_utf8_valid_utf8(word@);
        encode_utf8_valid_utf8(clitic@);
        assert(!is_continuation_byte(bytes@[mid as int])) by {
            assert(valid_first_scalar(wanted@));
        }
        is_char_boundary_iff_not_is_continuation_byte(bytes@, mid as int);
        decode_utf8_split(bytes@, mid as int);
        valid_utf8_split(bytes@, mid as int);
        encode_utf8_decode_utf8(word@);
        encode_utf8_decode_utf8(clitic@);
        let stem = decode_utf8(head);
        assert(word@ == stem + clitic@);
        assert(stem.len() > 0);
        assert(word@.skip(word@.len() - clitic@.len()) =~= clitic@);
        assert(word@.take(word@.len() - clitic@.len()) =~= stem);
        decode_utf8_encode_utf8(head);
    }
    let (stem, tail) = word.split_at(mid);
    proof {
        encode_utf8_decode_utf8(stem@);
        encode_utf8_decode_utf8(tail@);
    }
    Some((stem, tail))
}

/// Cuts `word` in two before the clitic that it ends in, if it ends in one.
fn split_clitic<'a>(word: &'a str) -> (parts: Option<(&'a str, &'a str)>)
    ensures
        match parts {
            Some((stem, tail)) => {
                &&& clitic_of(word@) == Some(tail@)
                &&& stem@ == word@.take(word@.len() - tail@.len())
            },
            None => clitic_of(word@) is None,
        },
{
    proof {
        reveal_strlit("'s");
        reveal_strlit("'ll");
        reveal_strlit("'re");
        reveal_strlit("'ve");
        reveal_strlit("n't");
        reveal_strlit("'m");
        reveal_strlit("'d");
    }
    match split_before(word, "'s") {
        Some(parts) => return Some(parts),
        None => {},
    }
    match split_before(word, "'ll") {
        Some(parts) => return Some(parts),
        None => {},
    }
    match split_before(word, "'re") {
        Some(parts) => return Some(parts),
        None => {},
    }
    match split_before(word, "'ve") {
        Some(parts) => return Some(parts),
        None => {},
    }
    match split_before(word, "n't") {
        Some(parts) => return Some(parts),
        None => {},
    }
    match split_before(word, "'m") {
        Some(parts) => return Some(parts),
        None => {},
    }
    split_before(word, "'d")
}

/// Splits a segment that ends in a clitic into stem and clitic, and hands any
/// other token back as it came.
pub fn english_clitic_expand<'a>(token: Token<'a>) -> (tokens: Vec<Token<'a>>)
    requires
        token.token matches TokenType::Str(word) ==> token.byte_index + byte_len(word@)
            <= usize::MAX,
    ensures
        views(tokens@) == clitic_expansion(token@),
{
    match token.token {
        TokenType::Str(word) => {
            match split_clitic(word) {
                Some((stem, clitic)) => {
                    proof {
                        assert(word@ =~= stem@ + clitic@);
                        lemma_encode_concat(stem@, clitic@);
                    }
                    let tokens = vec![
                        Token::new(TokenType::Str(stem), token.byte_index),
                        Token::new(
                            TokenType::Str(clitic),
                            token.byte_index + stem.as_bytes().len(),
                        ),
                    ];
                    assert(views(tokens@) =~= clitic_expansion(token@));
                    tokens
                },
                None => {
                    let tokens = vec![token];
                    assert(views(tokens@) =~= clitic_expansion(token@));
                    tokens
                },
            }
        },
        _ => {
            let tokens = vec![token];
            assert(views(tokens@) =~= clitic_expansion(token@));
            tokens
        },
    }
}

} // verus!
