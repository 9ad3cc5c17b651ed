use saba_core::token::{JsLexer, Token};

fn tokens_of(src: &str) -> Vec<Token> {
    let mut lexer = JsLexer::new(src.to_string());
    let mut out = Vec::new();
    while let Some(t) = lexer.next() {
        out.push(t);
    }
    out
}

#[test]
fn empty_source_has_no_tokens() {
    assert_eq!(Vec::<Token>::new(), tokens_of(""));
}

#[test]
fn whitespace_only_source_has_no_tokens() {
    assert_eq!(Vec::<Token>::new(), tokens_of("  \t\n  \r "));
}

#[test]
fn declaration_lexes_to_expected_tokens() {
    assert_eq!(
        vec![
            Token::Keyword("var".to_string()),
            Token::Identifier("foo".to_string()),
            Token::Punctuator('='),
            Token::Number(42),
            Token::Punctuator(';'),
        ],
        tokens_of("var foo=42;")
    );
}

#[test]
fn keyword_needs_exact_text() {
    assert_eq!(
        vec![Token::Identifier("vars".to_string()), Token::Identifier("va".to_string())],
        tokens_of("vars va")
    );
}

#[test]
fn string_literal_keeps_inner_text() {
    assert_eq!(vec![Token::StringLiteral("bar".to_string())], tokens_of("\"bar\""));
}

#[test]
fn empty_string_literal_lexes() {
    assert_eq!(vec![Token::StringLiteral("".to_string())], tokens_of("\"\""));
}

#[test]
fn unterminated_string_runs_to_end_of_input() {
    assert_eq!(vec![Token::StringLiteral("ab".to_string())], tokens_of("\"ab"));
}

#[test]
fn unrecognized_characters_are_skipped() {
    assert_eq!(
        vec![Token::Number(1), Token::Punctuator('+'), Token::Number(2)],
        tokens_of("@1 + #2!")
    );
}

#[test]
fn numeric_literal_wraps_beyond_u64() {
    // 2^64 wraps to 0 under the declared wrapping policy for oversized digit
    // runs; the largest representable value is read exactly.
    assert_eq!(vec![Token::Number(0)], tokens_of("18446744073709551616"));
    assert_eq!(vec![Token::Number(u64::MAX)], tokens_of("18446744073709551615"));
}

#[test]
fn identifier_run_ends_at_punctuator() {
    assert_eq!(
        vec![
            Token::Identifier("a1".to_string()),
            Token::Punctuator('.'),
            Token::Identifier("b2".to_string()),
        ],
        tokens_of("a1.b2")
    );
}

#[test]
fn lexer_is_consumed_once() {
    let mut lexer = JsLexer::new("42".to_string());
    assert_eq!(Some(Token::Number(42)), lexer.next());
    assert_eq!(None, lexer.next());
    assert_eq!(None, lexer.next());
}

#[test]
fn trailing_whitespace_after_last_token() {
    assert_eq!(vec![Token::Number(42)], tokens_of("42  \n"));
}

#[test]
fn spaces_around_punctuators_are_skipped() {
    assert_eq!(
        vec![
            Token::Keyword("var".to_string()),
            Token::Identifier("foo".to_string()),
            Token::Punctuator('='),
            Token::Number(42),
        ],
        tokens_of("var foo = 42")
    );
}
