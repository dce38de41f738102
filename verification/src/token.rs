//! The token vocabulary produced by the lexer and the fixed diagnostics
//! the validator reports.

use vstd::prelude::*;

verus! {

/// An atomic lexical unit: a structural marker or a value-carrying literal.
///
/// A `Number` token records that a well-formed numeric literal stood here;
/// the validator never consumes the numeric value itself, so the token
/// carries no payload for it.
#[derive(Debug, PartialEq)]
pub enum Token {
    LeftBrace,
    RightBrace,
    LeftBracket,
    RightBracket,
    StrLit(String),
    Number,
    Boolean(bool),
    Null,
    Colon,
    Comma,
}

/// The mathematical model of a [`Token`]: the same shape, with the string
/// payload abstracted to its character sequence.
pub enum SpecToken {
    LeftBrace,
    RightBrace,
    LeftBracket,
    RightBracket,
    StrLit(Seq<char>),
    Number,
    Boolean(bool),
    Null,
    Colon,
    Comma,
}

impl View for Token {
    type V = SpecToken;

    open spec fn view(&self) -> SpecToken {
        match self {
            Token::LeftBrace => SpecToken::LeftBrace,
            Token::RightBrace => SpecToken::RightBrace,
            Token::LeftBracket => SpecToken::LeftBracket,
            Token::RightBracket => SpecToken::RightBracket,
            Token::StrLit(s) => SpecToken::StrLit(s@),
            Token::Number => SpecToken::Number,
            Token::Boolean(b) => SpecToken::Boolean(*b),
            Token::Null => SpecToken::Null,
            Token::Colon => SpecToken::Colon,
            Token::Comma => SpecToken::Comma,
        }
    }
}

/// The model of a token sequence.
pub open spec fn toks_view(ts: Seq<Token>) -> Seq<SpecToken> {
    ts.map_values(|t: Token| t@)
}

/// The first structural error a pass encounters.  Each variant corresponds
/// to exactly one of the fixed diagnostic messages; [`JsonError::message`]
/// renders it.
#[derive(Clone, Copy, Debug, PartialEq, Eq, Structural)]
pub enum JsonError {
    /// A string literal ran into a raw newline or the end of the input.
    UnterminatedString,
    /// A backslash appeared inside a string literal.
    EscapeUnsupported,
    /// A numeric run is not a well-formed floating-point literal.
    InvalidNumber,
    /// An identifier is none of `true`, `false`, `null`.
    InvalidIdentifier,
    /// A character that no token can start.
    InvalidCharacter,
    /// The top-level construct does not open with `{`.
    ExpectedObjectBrace,
    /// An array did not open with `[`.
    ExpectedArrayBracket,
    /// An object member did not start with a string key.
    ExpectedStringKey,
    /// The key of an object member was not followed by `:`.
    ExpectedColon,
    /// No value can start with the token at hand.
    ExpectedValue,
    /// After an object member, neither `,` nor `}` followed.
    ExpectedCommaOrBrace,
    /// After an array element, neither `,` nor `]` followed.
    ExpectedCommaOrBracket,
    /// A comma was immediately followed by the closing delimiter.
    TrailingComma,
    /// The token stream ended inside an unclosed object or array.
    UnexpectedEnd,
}

/// The diagnostic text of each error.
pub open spec fn message_of(e: JsonError) -> Seq<char> {
    match e {
        JsonError::UnterminatedString => "Unterminated string literal"@,
        JsonError::EscapeUnsupported => "Escape sequences not yet supported"@,
        JsonError::InvalidNumber => "Invalid number format"@,
        JsonError::InvalidIdentifier => "Invalid identifier"@,
        JsonError::InvalidCharacter => "Invalid character in JSON"@,
        JsonError::ExpectedObjectBrace => "Expected '{'"@,
        JsonError::ExpectedArrayBracket => "Expected '['"@,
        JsonError::ExpectedStringKey => "Expected string key"@,
        JsonError::ExpectedColon => "Expected ':'"@,
        JsonError::ExpectedValue => "Expected value"@,
        JsonError::ExpectedCommaOrBrace => "Expected ',' or '}'"@,
        JsonError::ExpectedCommaOrBracket => "Expected ',' or ']'"@,
        JsonError::TrailingComma => "Trailing comma not allowed"@,
        JsonError::UnexpectedEnd => "Unexpected end of input"@,
    }
}

impl JsonError {
    /// The diagnostic message, exactly as the validator reports it.
    pub fn message(&self) -> (m: &'static str)
        ensures
            m@ == message_of(*self),
    {
        match self {
            JsonError::UnterminatedString => "Unterminated string literal",
            JsonError::EscapeUnsupported => "Escape sequences not yet supported",
            JsonError::InvalidNumber => "Invalid number format",
            JsonError::InvalidIdentifier => "Invalid identifier",
            JsonError::InvalidCharacter => "Invalid character in JSON",
            JsonError::ExpectedObjectBrace => "Expected '{'",
            JsonError::ExpectedArrayBracket => "Expected '['",
            JsonError::ExpectedStringKey => "Expected string key",
            JsonError::ExpectedColon => "Expected ':'",
            JsonError::ExpectedValue => "Expected value",
            JsonError::ExpectedCommaOrBrace => "Expected ',' or '}'",
            JsonError::ExpectedCommaOrBracket => "Expected ',' or ']'",
            JsonError::TrailingComma => "Trailing comma not allowed",
            JsonError::UnexpectedEnd => "Unexpected end of input",
        }
    }
}

} // verus!
