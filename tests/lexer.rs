use klang::lexer::tokenize;
use klang::token::Token;

fn ident(s: &str) -> Token {
    Token::Ident(s.to_string())
}

#[test]
fn test_lex_pub_keyword() {
    let input_str = r#"use"#;
    let token_stream = tokenize(input_str).unwrap();
    let expected = vec![Token::Use];
    assert_eq!(token_stream, expected)
}

#[test]
fn test_lex_fun_keyword() {
    let input_str = r#"fun"#;
    let token_stream = tokenize(input_str).unwrap();
    let expected = vec![Token::Fun];
    assert_eq!(token_stream, expected)
}

#[test]
fn test_lex_ident() {
    let input_str = r#"this is a ident"#;
    let token_stream = tokenize(input_str).unwrap();
    let expected = vec![ident("this"), ident("is"), ident("a"), ident("ident")];
    assert_eq!(token_stream, expected)
}

#[test]
fn test_lex_paranthesis() {
    let input_str = r#"()"#;
    let token_stream = tokenize(input_str).unwrap();
    let expected = vec![Token::OpeningParenthesis, Token::ClosingParenthesis];
    assert_eq!(token_stream, expected)
}

#[test]
fn test_lex_braces() {
    let input_str = r#"{}"#;
    let token_stream = tokenize(input_str).unwrap();
    let expected = vec![Token::OpeningBrace, Token::ClosingBrace];
    assert_eq!(token_stream, expected)
}

#[test]
fn test_lex_fun_decl() {
    let input_str = r#"fun this_is_a_decl() {}"#;
    let token_stream = tokenize(input_str).unwrap();
    let expected = vec![
        Token::Fun,
        ident("this_is_a_decl"),
        Token::OpeningParenthesis,
        Token::ClosingParenthesis,
        Token::OpeningBrace,
        Token::ClosingBrace,
    ];
    assert_eq!(token_stream, expected)
}

#[test]
fn test_lex_number() {
    let input_str = r#"102"#;
    let token_stream = tokenize(input_str).unwrap();
    let expected = vec![Token::Number("102".to_string())];
    assert_eq!(token_stream, expected)
}

#[test]
fn test_if_else_stmnt() {
    let input_str = r#"if a {} else {}"#;
    let token_stream = tokenize(input_str).unwrap();
    let expected = vec![
        Token::If,
        ident("a"),
        Token::OpeningBrace,
        Token::ClosingBrace,
        Token::Else,
        Token::OpeningBrace,
        Token::ClosingBrace,
    ];
    assert_eq!(token_stream, expected)
}

#[test]
fn lex_reserved_words_alone() {
    assert_eq!(tokenize("fun").unwrap(), vec![Token::Fun]);
    assert_eq!(tokenize("use").unwrap(), vec![Token::Use]);
    assert_eq!(tokenize("if").unwrap(), vec![Token::If]);
    assert_eq!(tokenize("else").unwrap(), vec![Token::Else]);
    assert_eq!(tokenize("funny").unwrap(), vec![ident("funny")]);
}

#[test]
fn lex_same_input_same_tokens() {
    let text = "fun f(a, b) { a * (b + 2.5) } # done\n f(1, 2)";
    assert_eq!(tokenize(text).unwrap(), tokenize(text).unwrap());
}

#[test]
fn lex_comment_between_tokens_changes_nothing() {
    let plain = "fun f(x) { x + 1 }";
    let commented = "fun f(x) {\n# a remark, with (brackets) and 12.5\n x + 1 }";
    assert_eq!(tokenize(plain).unwrap(), tokenize(commented).unwrap());
}

#[test]
fn lex_comment_runs_to_newline() {
    assert_eq!(tokenize("a # b c\nd").unwrap(), vec![ident("a"), ident("d")]);
    assert_eq!(tokenize("a#b\nc").unwrap(), vec![ident("a"), ident("c")]);
}

#[test]
fn lex_hash_without_newline_is_an_operator() {
    assert_eq!(
        tokenize("a # b").unwrap(),
        vec![ident("a"), Token::Operator("#".to_string()), ident("b")]
    );
}

#[test]
fn lex_numbers_in_canonical_form() {
    let n = |s: &str| Token::Number(s.to_string());
    assert_eq!(tokenize("007.500").unwrap(), vec![n("7.5")]);
    assert_eq!(tokenize("1.").unwrap(), vec![n("1")]);
    assert_eq!(tokenize("0.0").unwrap(), vec![n("0")]);
    assert_eq!(tokenize("3.14159").unwrap(), vec![n("3.14159")]);
    assert_eq!(tokenize("000").unwrap(), vec![n("0")]);
    assert_eq!(tokenize("2.50").unwrap(), tokenize("2.5").unwrap());
}

#[test]
fn lex_number_then_dot() {
    assert_eq!(
        tokenize("1.2.3").unwrap(),
        vec![
            Token::Number("1.2".to_string()),
            Token::Operator(".".to_string()),
            Token::Number("3".to_string()),
        ]
    );
}

#[test]
fn lex_operators_and_delimiters() {
    assert_eq!(
        tokenize("a<b;c,_").unwrap(),
        vec![
            ident("a"),
            Token::Operator("<".to_string()),
            ident("b"),
            Token::Delimiter,
            ident("c"),
            Token::Comma,
            Token::Operator("_".to_string()),
        ]
    );
}

#[test]
fn lex_identifier_with_digits_and_underscores() {
    assert_eq!(tokenize("x1_y2 9z").unwrap(), vec![
        ident("x1_y2"),
        Token::Number("9".to_string()),
        ident("z"),
    ]);
}

#[test]
fn lex_unicode_letters_and_spaces() {
    // 'é' and 'ß' are alphabetic; U+00A0 and U+3000 are whitespace
    assert_eq!(tokenize("héllo\u{a0}straße").unwrap(), vec![ident("héllo"), ident("straße")]);
    assert_eq!(tokenize("a\u{3000}b").unwrap(), vec![ident("a"), ident("b")]);
    // '→' is neither a letter nor whitespace
    assert_eq!(tokenize("→").unwrap(), vec![Token::Operator("→".to_string())]);
    // a digit of another script continues an identifier
    assert_eq!(tokenize("x٣").unwrap(), vec![ident("x٣")]);
}

#[test]
fn lex_empty_and_blank() {
    assert_eq!(tokenize("").unwrap(), vec![]);
    assert_eq!(tokenize(" \t\r\n").unwrap(), vec![]);
}

#[test]
fn lex_numeral_of_other_digits_has_no_value() {
    let msg = "Lexer failed trying to parse number".to_string();
    // U+0663 is ARABIC-INDIC DIGIT THREE
    assert_eq!(tokenize("٣").unwrap_err(), msg);
    assert_eq!(tokenize("x + 1٣").unwrap_err(), msg);
    assert_eq!(tokenize("12.٣").unwrap_err(), msg);
    // within an identifier such a digit is a word character
    assert_eq!(tokenize("x٣ + 1").unwrap(), vec![
        ident("x٣"),
        Token::Operator("+".to_string()),
        Token::Number("1".to_string()),
    ]);
    // a numeral of a letter-like numeric character is not taken: Ⅻ is alphabetic
    assert_eq!(tokenize("Ⅻ").unwrap(), vec![ident("Ⅻ")]);
}
