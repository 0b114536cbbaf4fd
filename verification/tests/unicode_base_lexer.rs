use textprep::tokenize::unicode_base_lexer::{
    filter_word_boundaries, tokenize, Token, TokenType, UnicodeLexer,
};

#[test]
fn unicode_base_lexer_test_simple() {
    let reader = UnicodeLexer::new("The quick brown fox");

    let actual = reader.into_tokens().into_iter().filter(filter_word_boundaries)
                       .collect::<Vec<Token>>();

    let expected: &[_] = &[
        Token { token: TokenType::StartOfText, byte_index: 0 },
        Token { token: TokenType::Str("The"),   byte_index: 0 },
        Token { token: TokenType::Str("quick"), byte_index: 4 },
        Token { token: TokenType::Str("brown"), byte_index: 10 },
        Token { token: TokenType::Str("fox"),   byte_index: 16 },
        Token { token: TokenType::EndOfText,   byte_index: 19 },
    ];

    assert_eq!(actual, expected);
}

#[test]
fn unicode_base_lexer_test_simple_unicode() {
    let reader = UnicodeLexer::new("Ajuste la temperatura a 23 grados centígrados por favor");

    let actual = reader.into_tokens().into_iter().filter(filter_word_boundaries)
                       .collect::<Vec<Token>>();

    let expected: &[_] = &[
        Token { token: TokenType::StartOfText,         byte_index: 0 },
        Token { token: TokenType::Str("Ajuste"),      byte_index: 0 },
        Token { token: TokenType::Str("la"),          byte_index: 7 },
        Token { token: TokenType::Str("temperatura"), byte_index: 10 },
        Token { token: TokenType::Str("a"),           byte_index: 22 },
        Token { token: TokenType::Str("23"),          byte_index: 24 },
        Token { token: TokenType::Str("grados"),      byte_index: 27 },
        Token { token: TokenType::Str("centígrados"), byte_index: 34 },
        Token { token: TokenType::Str("por"),         byte_index: 47 },
        Token { token: TokenType::Str("favor"),       byte_index: 51 },
        Token { token: TokenType::EndOfText,           byte_index: 56 },
    ];

    assert_eq!(actual, expected);
}

#[test]
fn unicode_base_lexer_test_complex_unicode() {
    let reader = UnicodeLexer::new("现在几点？");

    let actual = reader.into_tokens();
    let expected: &[_] = &[
        Token { token: TokenType::StartOfText, byte_index: 0 },
        Token { token: TokenType::Str("\u{73b0}"), byte_index: 0 },
        Token { token: TokenType::Str("\u{5728}"), byte_index: 3 },
        Token { token: TokenType::Str("\u{51e0}"), byte_index: 6 },
        Token { token: TokenType::Str("\u{70b9}"), byte_index: 9 },
        Token { token: TokenType::Str("\u{ff1f}"), byte_index: 12 },
        Token { token: TokenType::EndOfText, byte_index: 15 }
    ];
    assert_eq!(actual, expected);
}

#[test]
fn tokenize_the_empty_text() {
    let actual = tokenize("");
    let expected: &[_] = &[
        Token { token: TokenType::StartOfText, byte_index: 0 },
        Token { token: TokenType::EndOfText, byte_index: 0 },
    ];
    assert_eq!(actual, expected);
}

#[test]
fn tokenize_keeps_the_spaces() {
    let actual = tokenize("The quick brown fox");
    let expected: &[_] = &[
        Token { token: TokenType::StartOfText, byte_index: 0 },
        Token { token: TokenType::Str("The"),   byte_index: 0 },
        Token { token: TokenType::Str(" "),     byte_index: 3 },
        Token { token: TokenType::Str("quick"), byte_index: 4 },
        Token { token: TokenType::Str(" "),     byte_index: 9 },
        Token { token: TokenType::Str("brown"), byte_index: 10 },
        Token { token: TokenType::Str(" "),     byte_index: 15 },
        Token { token: TokenType::Str("fox"),   byte_index: 16 },
        Token { token: TokenType::EndOfText,   byte_index: 19 },
    ];
    assert_eq!(actual, expected);
}

#[test]
fn tokenize_then_filter_drops_the_spaces() {
    let actual = tokenize("The quick brown fox").into_iter().filter(filter_word_boundaries)
                       .collect::<Vec<Token>>();
    let expected: &[_] = &[
        Token { token: TokenType::StartOfText, byte_index: 0 },
        Token { token: TokenType::Str("The"),   byte_index: 0 },
        Token { token: TokenType::Str("quick"), byte_index: 4 },
        Token { token: TokenType::Str("brown"), byte_index: 10 },
        Token { token: TokenType::Str("fox"),   byte_index: 16 },
        Token { token: TokenType::EndOfText,   byte_index: 19 },
    ];
    assert_eq!(actual, expected);
}

#[test]
fn tokenize_advances_by_the_width_of_each_character() {
    let actual = tokenize("现在几点？");
    let offsets = actual.iter().map(|token| token.byte_index).collect::<Vec<usize>>();
    assert_eq!(offsets, vec![0, 0, 3, 6, 9, 12, 15]);
    assert_eq!(actual[1], Token::new(TokenType::Str("现"), 0));
    assert_eq!(actual[5], Token::new(TokenType::Str("？"), 12));
    assert_eq!(actual[6], Token::new(TokenType::EndOfText, 15));
}

#[test]
fn tokenize_whitespace_only() {
    let actual = tokenize(" \t\n");
    let expected: &[_] = &[
        Token { token: TokenType::StartOfText, byte_index: 0 },
        Token { token: TokenType::Str(" "),  byte_index: 0 },
        Token { token: TokenType::Str("\t"), byte_index: 1 },
        Token { token: TokenType::Str("\n"), byte_index: 2 },
        Token { token: TokenType::EndOfText, byte_index: 3 },
    ];
    assert_eq!(actual, expected);
}

#[test]
fn tokenize_combining_marks_only() {
    let actual = tokenize("\u{301}\u{302}");
    let expected: &[_] = &[
        Token { token: TokenType::StartOfText, byte_index: 0 },
        Token { token: TokenType::Str("\u{301}\u{302}"), byte_index: 0 },
        Token { token: TokenType::EndOfText, byte_index: 4 },
    ];
    assert_eq!(actual, expected);
}

#[test]
fn tokens_lie_end_to_end() {
    let source = "Ajuste la temperatura a 23 grados centígrados, por favor!\r\n";
    let tokens = tokenize(source);
    assert_eq!(tokens[0], Token::new(TokenType::StartOfText, 0));
    assert_eq!(tokens[tokens.len() - 1], Token::new(TokenType::EndOfText, source.len()));
    let mut at = 0;
    for token in &tokens[1..tokens.len() - 1] {
        match token.token {
            TokenType::Str(text) => {
                assert_eq!(token.byte_index, at);
                assert_eq!(&source[at..at + text.len()], text);
                at += text.len();
            }
            _ => panic!("a sentinel between the segments"),
        }
    }
    assert_eq!(at, source.len());
}

#[test]
fn lexer_hands_out_one_token_at_a_time() {
    let mut lexer = UnicodeLexer::new("hi!");

    assert_eq!(lexer.next(), Some(Token::new(TokenType::StartOfText, 0)));
    assert_eq!(lexer.next(), Some(Token::new(TokenType::Str("hi"), 0)));
    assert_eq!(lexer.next(), Some(Token::new(TokenType::Str("!"), 2)));
    assert_eq!(lexer.next(), Some(Token::new(TokenType::EndOfText, 3)));
    assert_eq!(lexer.next(), None);
    assert_eq!(lexer.next(), None);
}

#[test]
fn lexer_of_the_empty_text_ends_once() {
    let mut lexer = UnicodeLexer::new("");

    assert_eq!(lexer.next(), Some(Token::new(TokenType::StartOfText, 0)));
    assert_eq!(lexer.next(), Some(Token::new(TokenType::EndOfText, 0)));
    assert_eq!(lexer.next(), None);
    assert_eq!(lexer.next(), None);
    assert_eq!(lexer.into_tokens(), vec![]);
}

#[test]
fn new_token_holds_what_it_was_given() {
    let token = Token::new(TokenType::Str("fox"), 16);
    assert_eq!(token.token, TokenType::Str("fox"));
    assert_eq!(token.byte_index, 16);
    assert_eq!(token, Token { token: TokenType::Str("fox"), byte_index: 16 });
    assert_ne!(token, Token::new(TokenType::Str("fox"), 17));
}

#[test]
fn filter_drops_one_space_or_one_line_feed_only() {
    assert!(!filter_word_boundaries(&Token::new(TokenType::Str(" "), 3)));
    assert!(!filter_word_boundaries(&Token::new(TokenType::Str("\n"), 3)));

    assert!(filter_word_boundaries(&Token::new(TokenType::StartOfText, 0)));
    assert!(filter_word_boundaries(&Token::new(TokenType::EndOfText, 19)));
    assert!(filter_word_boundaries(&Token::new(TokenType::Str("fox"), 16)));
    assert!(filter_word_boundaries(&Token::new(TokenType::Str(""), 0)));
    assert!(filter_word_boundaries(&Token::new(TokenType::Str("\t"), 0)));
    assert!(filter_word_boundaries(&Token::new(TokenType::Str("\r"), 0)));
    assert!(filter_word_boundaries(&Token::new(TokenType::Str("\r\n"), 0)));
    assert!(filter_word_boundaries(&Token::new(TokenType::Str("  "), 0)));
    assert!(filter_word_boundaries(&Token::new(TokenType::Str(" \n"), 0)));
    assert!(filter_word_boundaries(&Token::new(TokenType::Str("\u{a0}"), 0)));
    assert!(filter_word_boundaries(&Token::new(TokenType::Str("\u{3000}"), 0)));
}
