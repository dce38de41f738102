//! Finer-grained tests: one input per diagnostic, the numeric lexeme
//! grammar, stability of re-validation, and the lexer building blocks.

use jsonlint::lexer::Lexer;
use jsonlint::token::JsonError;
use jsonlint::validate;

fn err_of(input: &str) -> &'static str {
    validate(input).unwrap_err().message()
}

#[test]
fn test_unterminated_string_at_end() {
    assert_eq!(err_of(r#"{"abc"#), "Unterminated string literal");
}

#[test]
fn test_unterminated_string_newline() {
    assert_eq!(err_of("{\"ab\ncd\": 1}"), "Unterminated string literal");
}

#[test]
fn test_escape_sequence_rejected() {
    assert_eq!(err_of(r#"{"a\b": 1}"#), "Escape sequences not yet supported");
}

#[test]
fn test_expected_string_key() {
    assert_eq!(err_of(r#"{1: 2}"#), "Expected string key");
    assert_eq!(err_of(r#"{true: 2}"#), "Expected string key");
}

#[test]
fn test_expected_value_after_comma_at_end() {
    // the comma is consumed, then the element parse runs out of tokens
    assert_eq!(err_of(r#"{"a": [1,"#), "Expected value");
}

#[test]
fn test_premature_tokens_as_value() {
    assert_eq!(err_of(r#"{"a": ,}"#), "Expected value");
    assert_eq!(err_of(r#"{"a": :}"#), "Expected value");
}

#[test]
fn test_number_lexeme_accepted_forms() {
    assert!(validate(r#"{"k": 1e5}"#).is_ok());
    assert!(validate(r#"{"k": 1E+5}"#).is_ok());
    assert!(validate(r#"{"k": 1e-5}"#).is_ok());
    assert!(validate(r#"{"k": 1.}"#).is_ok());
    assert!(validate(r#"{"k": 1.e5}"#).is_ok());
    assert!(validate(r#"{"k": 0.25}"#).is_ok());
    assert!(validate(r#"{"k": -0.5e2}"#).is_ok());
}

#[test]
fn test_number_lexeme_rejected_forms() {
    assert_eq!(err_of(r#"{"k": 1e}"#), "Invalid number format");
    assert_eq!(err_of(r#"{"k": -}"#), "Invalid number format");
    assert_eq!(err_of(r#"{"k": 1-2}"#), "Invalid number format");
    assert_eq!(err_of(r#"{"k": 1..2}"#), "Invalid number format");
    assert_eq!(err_of(r#"{"k": 1e+}"#), "Invalid number format");
    assert_eq!(err_of(r#"{"k": 1.2e3.4}"#), "Invalid number format");
}

#[test]
fn test_plus_cannot_start_a_number() {
    assert_eq!(err_of(r#"{"k": +1}"#), "Invalid character in JSON");
}

#[test]
fn test_tokens_after_top_level_object_ignored() {
    // the parse stops at the closing brace of the top-level object
    assert!(validate("{} \t").is_ok());
    assert!(validate("{}{}").is_ok());
}

#[test]
fn test_revalidation_is_stable() {
    let ok_input = r#"{"k": [1, 2, {"n": null}]}"#;
    assert_eq!(validate(ok_input).is_ok(), validate(ok_input).is_ok());
    let bad_input = r#"{"k": [1, 2, ]}"#;
    let first = validate(bad_input).unwrap_err().message();
    let second = validate(bad_input).unwrap_err().message();
    assert_eq!(first, second);
    assert_eq!(first, "Trailing comma not allowed");
}

#[test]
fn test_messages_cover_every_variant() {
    assert_eq!(JsonError::UnterminatedString.message(), "Unterminated string literal");
    assert_eq!(JsonError::EscapeUnsupported.message(), "Escape sequences not yet supported");
    assert_eq!(JsonError::InvalidNumber.message(), "Invalid number format");
    assert_eq!(JsonError::InvalidIdentifier.message(), "Invalid identifier");
    assert_eq!(JsonError::InvalidCharacter.message(), "Invalid character in JSON");
    assert_eq!(JsonError::ExpectedObjectBrace.message(), "Expected '{'");
    assert_eq!(JsonError::ExpectedArrayBracket.message(), "Expected '['");
    assert_eq!(JsonError::ExpectedStringKey.message(), "Expected string key");
    assert_eq!(JsonError::ExpectedColon.message(), "Expected ':'");
    assert_eq!(JsonError::ExpectedValue.message(), "Expected value");
    assert_eq!(JsonError::ExpectedCommaOrBrace.message(), "Expected ',' or '}'");
    assert_eq!(JsonError::ExpectedCommaOrBracket.message(), "Expected ',' or ']'");
    assert_eq!(JsonError::TrailingComma.message(), "Trailing comma not allowed");
    assert_eq!(JsonError::UnexpectedEnd.message(), "Unexpected end of input");
}

#[test]
fn test_lexer_cursor_basics() {
    let mut lx = Lexer::new("ab");
    assert_eq!(lx.peek(), Some('a'));
    lx.advance();
    assert_eq!(lx.peek(), Some('b'));
    lx.advance();
    assert_eq!(lx.peek(), None);
}

#[test]
fn test_lexer_read_while() {
    let mut lx = Lexer::new("abc123");
    let run = lx.read_while(|c| c.is_ascii_alphabetic());
    assert_eq!(run, "abc");
    let digits = lx.read_while(|c| c.is_ascii_digit());
    assert_eq!(digits, "123");
    assert_eq!(lx.peek(), None);
}

#[test]
fn test_lexer_lex_string() {
    let mut lx = Lexer::new(r#""hello" rest"#);
    let s = lx.lex_string().unwrap();
    assert_eq!(s, "hello");
    assert_eq!(lx.peek(), Some(' '));

    let mut lx2 = Lexer::new(r#""broken"#);
    assert!(lx2.lex_string().is_err());
}

#[test]
fn test_lexer_lex_tokens_stream() {
    let mut lx = Lexer::new(r#"{ "a" : [true, null, 1.5] }"#);
    let tokens = lx.lex_tokens().unwrap();
    assert_eq!(tokens.len(), 11);
}
