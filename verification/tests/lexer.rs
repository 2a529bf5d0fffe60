use mazgamet::{tokenize, Lexer, Token, TokenType};

fn kinds_and_texts(tokens: &[Token]) -> Vec<(TokenType, String)> {
    tokens.iter().map(|t| (t.token_type, t.literal.clone())).collect()
}

fn expect_tokens(input: &str, expected: &[(TokenType, &str)]) {
    let tokens = tokenize(input.as_bytes());
    let got = kinds_and_texts(&tokens);
    let want: Vec<(TokenType, String)> =
        expected.iter().map(|(k, t)| (*k, t.to_string())).collect();
    assert_eq!(got, want, "tokens of {:?}", input);
}

#[test]
fn test_next_token() {
    let input = r#"let five = 5;
let ten = 10;
let add = fn(x, y) {
x + y;
};
let result = add(five, ten);
!-/*5;
5 < 10 > 5;
if (5 < 10) {
    return true;
} else {
    return false;
}
10 == 10;
10 != 9;
"#;

    let tests = vec![
        (TokenType::Let, "let"),
        (TokenType::Identifier, "five"),
        (TokenType::Assign, "="),
        (TokenType::Integer, "5"),
        (TokenType::Semicolon, ";"),
        (TokenType::Let, "let"),
        (TokenType::Identifier, "ten"),
        (TokenType::Assign, "="),
        (TokenType::Integer, "10"),
        (TokenType::Semicolon, ";"),
        (TokenType::Let, "let"),
        (TokenType::Identifier, "add"),
        (TokenType::Assign, "="),
        (TokenType::Function, "fn"),
        (TokenType::LeftParen, "("),
        (TokenType::Identifier, "x"),
        (TokenType::Comma, ","),
        (TokenType::Identifier, "y"),
        (TokenType::RightParen, ")"),
        (TokenType::LeftBrace, "{"),
        (TokenType::Identifier, "x"),
        (TokenType::Plus, "+"),
        (TokenType::Identifier, "y"),
        (TokenType::Semicolon, ";"),
        (TokenType::RightBrace, "}"),
        (TokenType::Semicolon, ";"),
        (TokenType::Let, "let"),
        (TokenType::Identifier, "result"),
        (TokenType::Assign, "="),
        (TokenType::Identifier, "add"),
        (TokenType::LeftParen, "("),
        (TokenType::Identifier, "five"),
        (TokenType::Comma, ","),
        (TokenType::Identifier, "ten"),
        (TokenType::RightParen, ")"),
        (TokenType::Semicolon, ";"),
        (TokenType::Bang, "!"),
        (TokenType::Minus, "-"),
        (TokenType::Slash, "/"),
        (TokenType::Asterisk, "*"),
        (TokenType::Integer, "5"),
        (TokenType::Semicolon, ";"),
        (TokenType::Integer, "5"),
        (TokenType::LT, "<"),
        (TokenType::Integer, "10"),
        (TokenType::GT, ">"),
        (TokenType::Integer, "5"),
        (TokenType::Semicolon, ";"),
        (TokenType::IF, "if"),
        (TokenType::LeftParen, "("),
        (TokenType::Integer, "5"),
        (TokenType::LT, "<"),
        (TokenType::Integer, "10"),
        (TokenType::RightParen, ")"),
        (TokenType::LeftBrace, "{"),
        (TokenType::Return, "return"),
        (TokenType::True, "true"),
        (TokenType::Semicolon, ";"),
        (TokenType::RightBrace, "}"),
        (TokenType::ELSE, "else"),
        (TokenType::LeftBrace, "{"),
        (TokenType::Return, "return"),
        (TokenType::False, "false"),
        (TokenType::Semicolon, ";"),
        (TokenType::RightBrace, "}"),
        (TokenType::Integer, "10"),
        (TokenType::EQ, "=="),
        (TokenType::Integer, "10"),
        (TokenType::Semicolon, ";"),
        (TokenType::Integer, "10"),
        (TokenType::NotEQ, "!="),
        (TokenType::Integer, "9"),
        (TokenType::Semicolon, ";"),
        (TokenType::EOF, ""),
    ];

    let mut lexer = Lexer::new(input.as_bytes());

    for (i, (expected_type, expected_literal)) in tests.iter().enumerate() {
        let tok = lexer.next_token();

        assert_eq!(
            &tok.token_type, expected_type,
            "tests[{}] - token type wrong. expected={:?}, got={:?}",
            i, expected_type, tok.token_type
        );

        assert_eq!(
            &tok.literal, expected_literal,
            "tests[{}] - literal wrong. expected={}, got={}",
            i, expected_literal, tok.literal
        );
    }
}

#[test]
fn bindings_and_function_literal_scenario() {
    let input = "let five = 5;\nlet ten = 10;\nlet add = fn(x, y) { x + y; };\n\
                 let result = add(five, ten);";
    let expected = vec![
        (TokenType::Let, "let"),
        (TokenType::Identifier, "five"),
        (TokenType::Assign, "="),
        (TokenType::Integer, "5"),
        (TokenType::Semicolon, ";"),
        (TokenType::Let, "let"),
        (TokenType::Identifier, "ten"),
        (TokenType::Assign, "="),
        (TokenType::Integer, "10"),
        (TokenType::Semicolon, ";"),
        (TokenType::Let, "let"),
        (TokenType::Identifier, "add"),
        (TokenType::Assign, "="),
        (TokenType::Function, "fn"),
        (TokenType::LeftParen, "("),
        (TokenType::Identifier, "x"),
        (TokenType::Comma, ","),
        (TokenType::Identifier, "y"),
        (TokenType::RightParen, ")"),
        (TokenType::LeftBrace, "{"),
        (TokenType::Identifier, "x"),
        (TokenType::Plus, "+"),
        (TokenType::Identifier, "y"),
        (TokenType::Semicolon, ";"),
        (TokenType::RightBrace, "}"),
        (TokenType::Semicolon, ";"),
        (TokenType::Let, "let"),
        (TokenType::Identifier, "result"),
        (TokenType::Assign, "="),
        (TokenType::Identifier, "add"),
        (TokenType::LeftParen, "("),
        (TokenType::Identifier, "five"),
        (TokenType::Comma, ","),
        (TokenType::Identifier, "ten"),
        (TokenType::RightParen, ")"),
        (TokenType::Semicolon, ";"),
    ];
    let mut lexer = Lexer::new(input.as_bytes());
    for (i, (kind, text)) in expected.iter().enumerate() {
        let tok = lexer.next_token();
        assert_eq!(tok.token_type, *kind, "token {}", i);
        assert_eq!(tok.literal, *text, "token {}", i);
    }
    let last = lexer.next_token();
    assert_eq!(last.token_type, TokenType::EOF);
    assert_eq!(last.literal, "");
    expect_tokens(input, &expected);
}

#[test]
fn every_operator_and_keyword_scans_alone_as_one_token() {
    let spellings = vec![
        (TokenType::Assign, "="),
        (TokenType::Plus, "+"),
        (TokenType::Minus, "-"),
        (TokenType::Bang, "!"),
        (TokenType::Asterisk, "*"),
        (TokenType::Slash, "/"),
        (TokenType::LT, "<"),
        (TokenType::GT, ">"),
        (TokenType::Comma, ","),
        (TokenType::Semicolon, ";"),
        (TokenType::LeftParen, "("),
        (TokenType::RightParen, ")"),
        (TokenType::LeftBrace, "{"),
        (TokenType::RightBrace, "}"),
        (TokenType::Function, "fn"),
        (TokenType::Let, "let"),
        (TokenType::True, "true"),
        (TokenType::False, "false"),
        (TokenType::IF, "if"),
        (TokenType::ELSE, "else"),
        (TokenType::Return, "return"),
        (TokenType::EQ, "=="),
        (TokenType::NotEQ, "!="),
    ];
    for (kind, text) in spellings {
        expect_tokens(text, &[(kind, text)]);
        let mut lexer = Lexer::new(text.as_bytes());
        let first = lexer.next_token();
        assert_eq!(first.token_type, kind);
        assert_eq!(first.literal, text);
        assert_eq!(lexer.next_token().token_type, TokenType::EOF);
    }
}

#[test]
fn end_of_input_is_returned_forever() {
    let mut lexer = Lexer::new(b"x  ");
    assert_eq!(lexer.next_token().token_type, TokenType::Identifier);
    for _ in 0..5 {
        let tok = lexer.next_token();
        assert_eq!(tok.token_type, TokenType::EOF);
        assert_eq!(tok.literal, "");
    }
}

#[test]
fn empty_and_blank_inputs_have_no_tokens() {
    expect_tokens("", &[]);
    expect_tokens(" \t\r\n  ", &[]);
    let mut lexer = Lexer::new(b"");
    let tok = lexer.next_token();
    assert_eq!(tok.token_type, TokenType::EOF);
    assert_eq!(tok.literal, "");
}

#[test]
fn whitespace_separates_and_is_dropped() {
    expect_tokens(
        "\tlet\r\nx\n=\t 7 ;",
        &[
            (TokenType::Let, "let"),
            (TokenType::Identifier, "x"),
            (TokenType::Assign, "="),
            (TokenType::Integer, "7"),
            (TokenType::Semicolon, ";"),
        ],
    );
}

#[test]
fn two_character_operators_need_the_second_character() {
    expect_tokens("=", &[(TokenType::Assign, "=")]);
    expect_tokens("!", &[(TokenType::Bang, "!")]);
    expect_tokens("= =", &[(TokenType::Assign, "="), (TokenType::Assign, "=")]);
    expect_tokens("=!", &[(TokenType::Assign, "="), (TokenType::Bang, "!")]);
    expect_tokens("!x", &[(TokenType::Bang, "!"), (TokenType::Identifier, "x")]);
    expect_tokens("===", &[(TokenType::EQ, "=="), (TokenType::Assign, "=")]);
    expect_tokens("!==", &[(TokenType::NotEQ, "!="), (TokenType::Assign, "=")]);
    expect_tokens("a==b", &[
        (TokenType::Identifier, "a"),
        (TokenType::EQ, "=="),
        (TokenType::Identifier, "b"),
    ]);
}

#[test]
fn the_byte_after_an_operator_is_looked_at_as_a_byte() {
    let tokens = tokenize(&[b'=', b'=', 0xff]);
    assert_eq!(tokens.len(), 2);
    assert_eq!(tokens[0].token_type, TokenType::EQ);
    assert_eq!(tokens[0].literal, "==");
    assert_eq!(tokens[1].token_type, TokenType::Illegal);
    assert_eq!(tokens[1].literal, "\u{ff}");
}

#[test]
fn identifiers_are_runs_of_letters_and_underscores() {
    expect_tokens("foo_bar", &[(TokenType::Identifier, "foo_bar")]);
    expect_tokens("_", &[(TokenType::Identifier, "_")]);
    expect_tokens("Let", &[(TokenType::Identifier, "Let")]);
    expect_tokens("lets", &[(TokenType::Identifier, "lets")]);
    expect_tokens("returned", &[(TokenType::Identifier, "returned")]);
    expect_tokens("x1", &[(TokenType::Identifier, "x"), (TokenType::Integer, "1")]);
    expect_tokens("1x", &[(TokenType::Integer, "1"), (TokenType::Identifier, "x")]);
    expect_tokens("AZaz", &[(TokenType::Identifier, "AZaz")]);
}

#[test]
fn integers_are_runs_of_digits_kept_as_text() {
    expect_tokens("0", &[(TokenType::Integer, "0")]);
    expect_tokens("0123456789", &[(TokenType::Integer, "0123456789")]);
    expect_tokens(
        "340282366920938463463374607431768211456",
        &[(TokenType::Integer, "340282366920938463463374607431768211456")],
    );
    expect_tokens("12 34", &[(TokenType::Integer, "12"), (TokenType::Integer, "34")]);
}

#[test]
fn any_other_byte_is_an_illegal_token_of_that_byte() {
    expect_tokens("@", &[(TokenType::Illegal, "@")]);
    expect_tokens("a#b", &[
        (TokenType::Identifier, "a"),
        (TokenType::Illegal, "#"),
        (TokenType::Identifier, "b"),
    ]);
    expect_tokens("[", &[(TokenType::Illegal, "[")]);
    expect_tokens("`", &[(TokenType::Illegal, "`")]);
    expect_tokens(":", &[(TokenType::Illegal, ":")]);
    let tokens = tokenize(&[0x00, 0x7f, 0xc3, 0xa9]);
    let got = kinds_and_texts(&tokens);
    assert_eq!(
        got,
        vec![
            (TokenType::Illegal, "\u{0}".to_string()),
            (TokenType::Illegal, "\u{7f}".to_string()),
            (TokenType::Illegal, "\u{c3}".to_string()),
            (TokenType::Illegal, "\u{a9}".to_string()),
        ]
    );
}

#[test]
fn bytes_next_to_the_letter_and_digit_ranges_are_no_letters_or_digits() {
    expect_tokens("/0", &[(TokenType::Slash, "/"), (TokenType::Integer, "0")]);
    expect_tokens("9:", &[(TokenType::Integer, "9"), (TokenType::Illegal, ":")]);
    expect_tokens("@A", &[(TokenType::Illegal, "@"), (TokenType::Identifier, "A")]);
    expect_tokens("Z[", &[(TokenType::Identifier, "Z"), (TokenType::Illegal, "[")]);
    expect_tokens("`a", &[(TokenType::Illegal, "`"), (TokenType::Identifier, "a")]);
    expect_tokens("z{", &[(TokenType::Identifier, "z"), (TokenType::LeftBrace, "{")]);
    expect_tokens("^_", &[(TokenType::Illegal, "^"), (TokenType::Identifier, "_")]);
}

#[test]
fn is_letter_knows_letters_and_underscore() {
    for b in 0..=255u8 {
        let expected = b.is_ascii_lowercase() || b.is_ascii_uppercase() || b == b'_';
        assert_eq!(Lexer::is_letter(b), expected, "byte {}", b);
    }
}

#[test]
fn skip_whitespace_stops_at_the_first_other_byte() {
    let mut lexer = Lexer::new(b" \t\n\r+ 1");
    lexer.skip_whitespace();
    let tok = lexer.next_token();
    assert_eq!(tok.token_type, TokenType::Plus);
    lexer.skip_whitespace();
    lexer.skip_whitespace();
    assert_eq!(lexer.read_number(), "1");
    lexer.skip_whitespace();
    assert_eq!(lexer.next_token().token_type, TokenType::EOF);
}

#[test]
fn read_identifier_and_read_number_return_the_run() {
    let mut lexer = Lexer::new(b"abc123 rest");
    assert_eq!(lexer.read_identifier(), "abc");
    assert_eq!(lexer.read_identifier(), "");
    assert_eq!(lexer.read_number(), "123");
    assert_eq!(lexer.read_number(), "");
    let tok = lexer.next_token();
    assert_eq!(tok.token_type, TokenType::Identifier);
    assert_eq!(tok.literal, "rest");
    assert_eq!(lexer.read_identifier(), "");
    assert_eq!(lexer.read_number(), "");
}

#[test]
fn read_char_moves_one_byte_at_a_time() {
    let mut lexer = Lexer::new(b"ab cd");
    lexer.read_char();
    let tok = lexer.next_token();
    assert_eq!(tok.token_type, TokenType::Identifier);
    assert_eq!(tok.literal, "b");
    lexer.read_char();
    lexer.read_char();
    let tok = lexer.next_token();
    assert_eq!(tok.literal, "d");
    lexer.read_char();
    lexer.read_char();
    assert_eq!(lexer.next_token().token_type, TokenType::EOF);
}

#[test]
fn tokenize_agrees_with_repeated_next_token() {
    let input = b"if (a != b) { return !c; } else { let d = 10 / 2 * 3 - 1 < 4 > 5; }";
    let tokens = tokenize(input);
    let mut lexer = Lexer::new(input);
    for tok in &tokens {
        let next = lexer.next_token();
        assert_eq!(next.token_type, tok.token_type);
        assert_eq!(next.literal, tok.literal);
        assert_ne!(tok.token_type, TokenType::EOF);
    }
    assert_eq!(lexer.next_token().token_type, TokenType::EOF);
    assert_eq!(tokens.len(), 30);
}

#[test]
fn texts_that_end_with_a_token_keep_their_tokens_when_joined() {
    let pairs = [
        ("let x = 1;", "return x;"),
        ("let x = 1; \n", "x"),
        ("a ", "b"),
        ("a;", "=b"),
        ("f(", "x)"),
        ("", "let"),
        ("x;", ""),
        ("   ", "  y"),
        ("a@", "b"),
    ];
    for (first, second) in pairs {
        let joined = format!("{}{}", first, second);
        let mut expected = kinds_and_texts(&tokenize(first.as_bytes()));
        expected.extend(kinds_and_texts(&tokenize(second.as_bytes())));
        assert_eq!(kinds_and_texts(&tokenize(joined.as_bytes())), expected, "{:?}", joined);
    }
}

#[test]
fn a_text_that_ends_inside_a_token_is_extended_by_the_next() {
    expect_tokens("let", &[(TokenType::Let, "let")]);
    let joined = format!("{}{}", "le", "t");
    expect_tokens(&joined, &[(TokenType::Let, "let")]);
    let joined = format!("{}{}", "1", "2");
    expect_tokens(&joined, &[(TokenType::Integer, "12")]);
    let joined = format!("{}{}", "a =", "= b");
    expect_tokens(&joined, &[
        (TokenType::Identifier, "a"),
        (TokenType::EQ, "=="),
        (TokenType::Identifier, "b"),
    ]);
    let joined = format!("{}{}", "!", "=");
    expect_tokens(&joined, &[(TokenType::NotEQ, "!=")]);
}
