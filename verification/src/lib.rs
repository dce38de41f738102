//! A single-pass JSON syntax validator.
//!
//! The library answers one question: is a given text a syntactically valid
//! JSON object?  A hand-written lexer turns the text into a token sequence
//! and a recursive-descent parser with one-token lookahead recognizes the
//! grammar; the first error aborts the pass and is reported as a fixed
//! diagnostic.  A small line/word/byte counting module lives alongside.

pub mod chars;
pub mod counts;
pub mod laws;
pub mod lexer;
pub mod parser;
pub mod token;

use vstd::prelude::*;
use crate::lexer::{Lexer, spec_lex};
use crate::parser::{Parser, sp_object};
use crate::token::JsonError;

verus! {

/// The model of the whole validation pass: lex the text, then require a
/// JSON object at the head of the token sequence.  The first error of
/// either pass is the result; tokens after the top-level object are not
/// examined, as the parse stops at its closing brace.
pub open spec fn spec_validate(s: Seq<char>) -> Result<(), JsonError> {
    match spec_lex(s, 0) {
        Ok(ts) => match sp_object(ts, 0) {
            Ok(_) => Ok(()),
            Err(e) => Err(e),
        },
        Err(e) => Err(e),
    }
}

/// Validates `text` as a JSON object.
///
/// The result is a function of the characters of `text` alone — the same
/// text always yields the same verdict and, on failure, the identical
/// error — and equals the two-pass model [`spec_validate`] exactly.
pub fn validate(text: &str) -> (r: Result<(), JsonError>)
    ensures
        r == spec_validate(text@),
{
    let mut lexer = Lexer::new(text);
    let tokens = match lexer.lex_tokens() {
        Ok(ts) => ts,
        Err(e) => {
            return Err(e);
        },
    };
    let mut parser = Parser::new(tokens);
    match parser.parse_object() {
        Ok(_) => Ok(()),
        Err(e) => Err(e),
    }
}

} // verus!
