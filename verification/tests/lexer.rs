use textprep::tokenize::lexer::{StringReader, Token, TokenType};

#[test]
fn lexer_test_simple() {
    let reader = StringReader::new("The quick brown fox");

    let actual = reader.into_tokens();
    let expected: &[_] = &[
        Token { tok: TokenType::StartOfText, byte_index: 0 },
        Token { tok: TokenType::Other("The"),   byte_index: 0 },
        Token { tok: TokenType::Other(" "),     byte_index: 3 },
        Token { tok: TokenType::Other("quick"), byte_index: 4 },
        Token { tok: TokenType::Other(" "),     byte_index: 9 },
        Token { tok: TokenType::Other("brown"), byte_index: 10 },
        Token { tok: TokenType::Other(" "),     byte_index: 15 },
        Token { tok: TokenType::Other("fox"),   byte_index: 16 },
        Token { tok: TokenType::EndOfText,   byte_index: 19 },
    ];

    assert_eq!(actual, expected);
}

#[test]
fn lexer_test_simple_unicode() {
    let reader = StringReader::new("Ajuste la temperatura a 23 grados centígrados por favor");

    let actual = reader.into_tokens();
    let expected: &[_] = &[
        Token { tok: TokenType::StartOfText,         byte_index: 0 },
        Token { tok: TokenType::Other("Ajuste"),      byte_index: 0 },
        Token { tok: TokenType::Other(" "),           byte_index: 6 },
        Token { tok: TokenType::Other("la"),          byte_index: 7 },
        Token { tok: TokenType::Other(" "),           byte_index: 9 },
        Token { tok: TokenType::Other("temperatura"), byte_index: 10 },
        Token { tok: TokenType::Other(" "),           byte_index: 21 },
        Token { tok: TokenType::Other("a"),           byte_index: 22 },
        Token { tok: TokenType::Other(" "),           byte_index: 23 },
        Token { tok: TokenType::Other("23"),          byte_index: 24 },
        Token { tok: TokenType::Other(" "),           byte_index: 26 },
        Token { tok: TokenType::Other("grados"),      byte_index: 27 },
        Token { tok: TokenType::Other(" "),           byte_index: 33 },
        Token { tok: TokenType::Other("centígrados"), byte_index: 34 },
        Token { tok: TokenType::Other(" "),           byte_index: 46 },
        Token { tok: TokenType::Other("por"),         byte_index: 47 },
        Token { tok: TokenType::Other(" "),           byte_index: 50 },
        Token { tok: TokenType::Other("favor"),       byte_index: 51 },
        Token { tok: TokenType::EndOfText,           byte_index: 56 },
    ];

    assert_eq!(actual, expected);
}

#[test]
fn lexer_test_complex_unicode() {
    let reader = StringReader::new("现在几点？");

    let actual = reader.into_tokens();
    let expected: &[_] = &[
        Token { tok: TokenType::StartOfText, byte_index: 0 },
        Token { tok: TokenType::Other("\u{73b0}"), byte_index: 0 },
        Token { tok: TokenType::Other("\u{5728}"), byte_index: 3 },
        Token { tok: TokenType::Other("\u{51e0}"), byte_index: 6 },
        Token { tok: TokenType::Other("\u{70b9}"), byte_index: 9 },
        Token { tok: TokenType::Other("\u{ff1f}"), byte_index: 12 },
        Token { tok: TokenType::EndOfText, byte_index: 15 }
    ];
    assert_eq!(actual, expected);
}

#[test]
fn reader_hands_out_one_token_at_a_time() {
    let mut reader = StringReader::new("a b");

    assert_eq!(reader.next(), Some(Token { tok: TokenType::StartOfText, byte_index: 0 }));
    assert_eq!(reader.next(), Some(Token { tok: TokenType::Other("a"), byte_index: 0 }));
    assert_eq!(reader.next(), Some(Token { tok: TokenType::Other(" "), byte_index: 1 }));
    assert_eq!(reader.next(), Some(Token { tok: TokenType::Other("b"), byte_index: 2 }));
    assert_eq!(reader.next(), Some(Token { tok: TokenType::EndOfText, byte_index: 3 }));
    assert_eq!(reader.next(), None);
    assert_eq!(reader.next(), None);
}

#[test]
fn reader_of_the_empty_text() {
    let mut reader = StringReader::new("");

    assert_eq!(reader.next(), Some(Token { tok: TokenType::StartOfText, byte_index: 0 }));
    assert_eq!(reader.next(), Some(Token { tok: TokenType::EndOfText, byte_index: 0 }));
    assert_eq!(reader.next(), None);
    assert_eq!(reader.next(), None);
}

#[test]
fn reader_hands_out_what_is_left() {
    let mut reader = StringReader::new("a\nb");
    assert_eq!(reader.next(), Some(Token { tok: TokenType::StartOfText, byte_index: 0 }));
    assert_eq!(reader.next(), Some(Token { tok: TokenType::Other("a"), byte_index: 0 }));

    let rest = reader.into_tokens();
    let expected: &[_] = &[
        Token { tok: TokenType::Other("\n"), byte_index: 1 },
        Token { tok: TokenType::Other("b"), byte_index: 2 },
        Token { tok: TokenType::EndOfText, byte_index: 3 },
    ];
    assert_eq!(rest, expected);
}
