//! The lexer: raw text in, token sequence out, or the first lexical error.
//!
//! The mathematical model is [`spec_lex`], a recursive function over the
//! character sequence that consumes one lexical unit per step.  The
//! executable [`Lexer`] walks the text once, left to right, and its
//! contract says it returns exactly what the model does.

use vstd::prelude::*;
use vstd::string::StringExecFns;
use crate::chars::{
    is_digit, is_alpha, is_number_char, is_space, is_float_lexeme,
    digit_char, alpha_char, number_char, space_char, float_lexeme_ok,
};
use crate::token::{Token, SpecToken, JsonError};

verus! {

/// The position just past the maximal run of number-class characters
/// starting at `i`.
pub open spec fn number_end(s: Seq<char>, i: int) -> int
    decreases s.len() - i
        when 0 <= i <= s.len()
{
    if i < s.len() && is_number_char(s[i]) {
        number_end(s, i + 1)
    } else {
        i
    }
}

/// The position just past the maximal run of ASCII letters starting at `i`.
pub open spec fn alpha_end(s: Seq<char>, i: int) -> int
    decreases s.len() - i
        when 0 <= i <= s.len()
{
    if i < s.len() && is_alpha(s[i]) {
        alpha_end(s, i + 1)
    } else {
        i
    }
}

pub proof fn lemma_number_end_bounds(s: Seq<char>, i: int)
    requires
        0 <= i <= s.len(),
    ensures
        i <= number_end(s, i) <= s.len(),
    decreases s.len() - i,
{
    if i < s.len() && is_number_char(s[i]) {
        lemma_number_end_bounds(s, i + 1);
    }
}

pub proof fn lemma_alpha_end_bounds(s: Seq<char>, i: int)
    requires
        0 <= i <= s.len(),
    ensures
        i <= alpha_end(s, i) <= s.len(),
    decreases s.len() - i,
{
    if i < s.len() && is_alpha(s[i]) {
        lemma_alpha_end_bounds(s, i + 1);
    }
}

/// A scan that saw number-class characters up to `b` and stopped there
/// determines `number_end`.
pub proof fn lemma_number_end_from_scan(s: Seq<char>, a: int, b: int)
    requires
        0 <= a <= b <= s.len(),
        forall|k: int| a <= k < b ==> is_number_char(#[trigger] s[k]),
        b == s.len() || !is_number_char(s[b]),
    ensures
        number_end(s, a) == b,
    decreases b - a,
{
    if a < b {
        lemma_number_end_from_scan(s, a + 1, b);
    }
}

/// A scan that saw letters up to `b` and stopped there determines
/// `alpha_end`.
pub proof fn lemma_alpha_end_from_scan(s: Seq<char>, a: int, b: int)
    requires
        0 <= a <= b <= s.len(),
        forall|k: int| a <= k < b ==> is_alpha(#[trigger] s[k]),
        b == s.len() || !is_alpha(s[b]),
    ensures
        alpha_end(s, a) == b,
    decreases b - a,
{
    if a < b {
        lemma_alpha_end_from_scan(s, a + 1, b);
    }
}

/// The model of scanning a string literal body beginning at `i` (just past
/// the opening quote): the accumulated content and the position just past
/// the closing quote, or the first lexical error.
pub open spec fn scan_string(s: Seq<char>, i: int) -> Result<(Seq<char>, int), JsonError>
    decreases s.len() - i
        when 0 <= i <= s.len()
{
    if i >= s.len() {
        Err(JsonError::UnterminatedString)
    } else if s[i] == '"' {
        Ok((Seq::empty(), i + 1))
    } else if s[i] == '\\' {
        Err(JsonError::EscapeUnsupported)
    } else if s[i] == '\n' {
        Err(JsonError::UnterminatedString)
    } else {
        match scan_string(s, i + 1) {
            Ok(p) => Ok((seq![s[i]] + p.0, p.1)),
            Err(e) => Err(e),
        }
    }
}

pub proof fn lemma_scan_string_bounds(s: Seq<char>, i: int)
    requires
        0 <= i <= s.len(),
    ensures
        scan_string(s, i) matches Ok(p) ==> i < p.1 <= s.len(),
    decreases s.len() - i,
{
    if i < s.len() && s[i] != '"' && s[i] != '\\' && s[i] != '\n' {
        lemma_scan_string_bounds(s, i + 1);
    }
}

/// Prepends one token to the result of lexing the rest.
pub open spec fn lex_cons(t: SpecToken, rest: Result<Seq<SpecToken>, JsonError>) -> Result<
    Seq<SpecToken>,
    JsonError,
> {
    match rest {
        Ok(ts) => Ok(seq![t] + ts),
        Err(e) => Err(e),
    }
}

/// The model of the whole lexing pass from position `i`: each step emits a
/// structural token, scans a string, number or identifier, skips one
/// whitespace character, or fails.
pub open spec fn spec_lex(s: Seq<char>, i: int) -> Result<Seq<SpecToken>, JsonError>
    decreases s.len() - i
        when 0 <= i <= s.len()
{
    let n = s.len() as int;
    if i >= n {
        Ok(Seq::empty())
    } else {
        let c = s[i];
        if c == '{' {
            lex_cons(SpecToken::LeftBrace, spec_lex(s, i + 1))
        } else if c == '}' {
            lex_cons(SpecToken::RightBrace, spec_lex(s, i + 1))
        } else if c == '[' {
            lex_cons(SpecToken::LeftBracket, spec_lex(s, i + 1))
        } else if c == ']' {
            lex_cons(SpecToken::RightBracket, spec_lex(s, i + 1))
        } else if c == ':' {
            lex_cons(SpecToken::Colon, spec_lex(s, i + 1))
        } else if c == ',' {
            lex_cons(SpecToken::Comma, spec_lex(s, i + 1))
        } else if c == '"' {
            match scan_string(s, i + 1) {
                Ok(p) => if i + 1 < p.1 <= n {
                    lex_cons(SpecToken::StrLit(p.0), spec_lex(s, p.1))
                } else {
                    // scan_string never returns an out-of-range position
                    Err(JsonError::UnterminatedString)
                },
                Err(e) => Err(e),
            }
        } else if is_digit(c) || c == '-' {
            let j = number_end(s, i);
            if i < j <= n {
                if is_float_lexeme(s.subrange(i, j)) {
                    lex_cons(SpecToken::Number, spec_lex(s, j))
                } else {
                    Err(JsonError::InvalidNumber)
                }
            } else {
                // the run starts with a number-class character, so j > i
                Err(JsonError::InvalidNumber)
            }
        } else if is_alpha(c) {
            let j = alpha_end(s, i);
            if i < j <= n {
                let w = s.subrange(i, j);
                if w == "true"@ {
                    lex_cons(SpecToken::Boolean(true), spec_lex(s, j))
                } else if w == "false"@ {
                    lex_cons(SpecToken::Boolean(false), spec_lex(s, j))
                } else if w == "null"@ {
                    lex_cons(SpecToken::Null, spec_lex(s, j))
                } else {
                    Err(JsonError::InvalidIdentifier)
                }
            } else {
                // the run starts with a letter, so j > i
                Err(JsonError::InvalidIdentifier)
            }
        } else if is_space(c) {
            spec_lex(s, i + 1)
        } else {
            Err(JsonError::InvalidCharacter)
        }
    }
}

/// Mapping a pushed token through the view commutes with pushing its model.
pub proof fn lemma_toks_view_push(ts: Seq<Token>, t: Token)
    ensures
        crate::token::toks_view(ts.push(t)) == crate::token::toks_view(ts).push(t@),
{
    assert(crate::token::toks_view(ts.push(t)) =~= crate::token::toks_view(ts).push(t@));
}

/// Relies on `String: FromIterator<char>` (`collect` on a `char`
/// iterator): the resulting string holds exactly the characters of `v`,
/// in order.
#[verifier::external_body]
fn chars_to_string(v: Vec<char>) -> (s: String)
    ensures
        s@ == v@,
{
    v.into_iter().collect()
}

/// The lexer's working state: the input as an indexable character
/// sequence, and a cursor that only ever moves forward.
pub struct Lexer {
    pub input: Vec<char>,
    pub position: usize,
}

impl Lexer {
    /// The cursor stays within the input.
    pub open spec fn wf(&self) -> bool {
        self.position <= self.input@.len()
    }

    pub fn new(input: &str) -> (lx: Lexer)
        ensures
            lx.input@ == input@,
            lx.position == 0,
    {
        let n = input.unicode_len();
        let mut v: Vec<char> = Vec::new();
        let mut i: usize = 0;
        while i < n
            invariant
                i <= n,
                n == input@.len(),
                v@ == input@.subrange(0, i as int),
            decreases n - i,
        {
            let c = input.get_char(i);
            v.push(c);
            proof {
                assert(v@ =~= input@.subrange(0, i + 1));
            }
            i = i + 1;
        }
        proof {
            assert(v@ =~= input@);
        }
        Lexer { input: v, position: 0 }
    }

    pub fn peek(&self) -> (c: Option<char>)
        ensures
            c == (if self.position < self.input@.len() {
                Some(self.input@[self.position as int])
            } else {
                None::<char>
            }),
    {
        if self.position < self.input.len() {
            Some(self.input[self.position])
        } else {
            None
        }
    }

    pub fn advance(&mut self)
        requires
            old(self).position < old(self).input@.len(),
        ensures
            final(self).input@ == old(self).input@,
            final(self).position == old(self).position + 1,
    {
        proof {
            broadcast use vstd::std_specs::vec::axiom_spec_len;
            assert(vstd::std_specs::vec::spec_vec_len(&self.input) == self.input@.len());
        }
        self.position = self.position + 1
    }

    /// Consumes the maximal run of characters satisfying `predicate` and
    /// returns it; the cursor stops on the first character that fails (or
    /// at the end of the input).
    pub fn read_while<F: Fn(char) -> bool>(&mut self, predicate: F) -> (result: String)
        requires
            old(self).wf(),
            forall|c: char| #[trigger] call_requires(predicate, (c,)),
        ensures
            final(self).input@ == old(self).input@,
            final(self).wf(),
            old(self).position <= final(self).position,
            result@ == old(self).input@.subrange(
                old(self).position as int,
                final(self).position as int,
            ),
            forall|k: int|
                old(self).position <= k < final(self).position ==> call_ensures(
                    predicate,
                    (#[trigger] old(self).input@[k],),
                    true,
                ),
            final(self).position < old(self).input@.len() ==> call_ensures(
                predicate,
                (old(self).input@[final(self).position as int],),
                false,
            ),
    {
        let ghost s = self.input@;
        let ghost p0: int = self.position as int;
        let mut buf: Vec<char> = Vec::new();
        loop
            invariant
                self.wf(),
                s == old(self).input@,
                p0 == old(self).position as int,
                self.input@ == s,
                0 <= p0 <= self.position <= s.len(),
                buf@ == s.subrange(p0, self.position as int),
                forall|k: int|
                    p0 <= k < self.position ==> call_ensures(predicate, (#[trigger] s[k],), true),
                forall|c: char| #[trigger] call_requires(predicate, (c,)),
            ensures
                self.input@ == s,
                p0 <= self.position <= s.len(),
                buf@ == s.subrange(p0, self.position as int),
                forall|k: int|
                    p0 <= k < self.position ==> call_ensures(predicate, (#[trigger] s[k],), true),
                self.position < s.len() ==> call_ensures(
                    predicate,
                    (s[self.position as int],),
                    false,
                ),
            decreases s.len() - self.position,
        {
            if self.position >= self.input.len() {
                break;
            }
            let c = self.input[self.position];
            if !predicate(c) {
                break;
            }
            buf.push(c);
            proof {
                assert(buf@ =~= s.subrange(p0, self.position + 1));
            }
            self.position = self.position + 1;
        }
        chars_to_string(buf)
    }

    /// Scans a string literal: the cursor stands on the opening quote;
    /// content is accumulated verbatim until the closing quote.  A
    /// backslash, a raw newline, or the end of the input fails.
    #[verifier::loop_isolation(false)]
    pub fn lex_string(&mut self) -> (r: Result<String, JsonError>)
        requires
            old(self).wf(),
            old(self).position < old(self).input@.len(),
        ensures
            final(self).input@ == old(self).input@,
            final(self).wf(),
            ({
                let sc = scan_string(old(self).input@, old(self).position + 1);
                match sc {
                    Ok(p) => r matches Ok(st) && st@ == p.0 && final(self).position == p.1,
                    Err(e) => r == Err::<String, JsonError>(e),
                }
            }),
    {
        let ghost s = self.input@;
        let mut buf: Vec<char> = Vec::new();
        self.advance();  // skip the opening quote
        let ghost start: int = self.position as int;
        loop
            invariant
                self.input@ == s,
                start <= self.position <= s.len(),
                buf@ == s.subrange(start, self.position as int),
                ({
                    match scan_string(s, self.position as int) {
                        Ok(p) => scan_string(s, start) == Ok::<(Seq<char>, int), JsonError>(
                            (buf@ + p.0, p.1),
                        ),
                        Err(e) => scan_string(s, start) == Err::<(Seq<char>, int), JsonError>(e),
                    }
                }),
            decreases s.len() - self.position,
        {
            if self.position >= self.input.len() {
                return Err(JsonError::UnterminatedString);
            }
            let c = self.input[self.position];
            if c == '"' {
                self.advance();
                proof {
                    assert(buf@ + Seq::<char>::empty() =~= buf@);
                }
                return Ok(chars_to_string(buf));
            } else if c == '\\' {
                return Err(JsonError::EscapeUnsupported);
            } else if c == '\n' {
                return Err(JsonError::UnterminatedString);
            } else {
                proof {
                    let rest = scan_string(s, self.position + 1);
                    if rest is Ok {
                        let p = rest->Ok_0;
                        assert(buf@.push(c) + p.0 =~= buf@ + (seq![c] + p.0));
                    }
                    assert(buf@.push(c) =~= s.subrange(start, self.position + 1));
                }
                buf.push(c);
                self.advance();
            }
        }
    }

    /// Scans a numeric run and checks it is a well-formed floating-point
    /// literal; the token records no value, only that the literal was
    /// well formed.
    pub fn lex_number(&mut self) -> (r: Result<Token, JsonError>)
        requires
            old(self).wf(),
        ensures
            final(self).input@ == old(self).input@,
            final(self).wf(),
            final(self).position == number_end(old(self).input@, old(self).position as int),
            ({
                let w = old(self).input@.subrange(
                    old(self).position as int,
                    final(self).position as int,
                );
                r == (if is_float_lexeme(w) {
                    Ok::<Token, JsonError>(Token::Number)
                } else {
                    Err::<Token, JsonError>(JsonError::InvalidNumber)
                })
            }),
    {
        let ghost s = self.input@;
        let ghost p0: int = self.position as int;
        let pred = |c: char| -> (b: bool)
            ensures
                b == is_number_char(c),
            {
                number_char(c)
            };
        let run = self.read_while(pred);
        proof {
            assert forall|k: int| p0 <= k < self.position implies is_number_char(
                #[trigger] s[k],
            ) by {}
            lemma_number_end_from_scan(s, p0, self.position as int);
        }
        if float_lexeme_ok(run.as_str()) {
            Ok(Token::Number)
        } else {
            Err(JsonError::InvalidNumber)
        }
    }

    /// Scans an identifier run and matches it, case-sensitively, against
    /// exactly `true`, `false` and `null`.
    pub fn lex_identifier(&mut self) -> (r: Result<Token, JsonError>)
        requires
            old(self).wf(),
        ensures
            final(self).input@ == old(self).input@,
            final(self).wf(),
            final(self).position == alpha_end(old(self).input@, old(self).position as int),
            ({
                let w = old(self).input@.subrange(
                    old(self).position as int,
                    final(self).position as int,
                );
                r == (if w == "true"@ {
                    Ok::<Token, JsonError>(Token::Boolean(true))
                } else if w == "false"@ {
                    Ok::<Token, JsonError>(Token::Boolean(false))
                } else if w == "null"@ {
                    Ok::<Token, JsonError>(Token::Null)
                } else {
                    Err::<Token, JsonError>(JsonError::InvalidIdentifier)
                })
            }),
    {
        let ghost s = self.input@;
        let ghost p0: int = self.position as int;
        let pred = |c: char| -> (b: bool)
            ensures
                b == is_alpha(c),
            {
                alpha_char(c)
            };
        let run = self.read_while(pred);
        proof {
            assert forall|k: int| p0 <= k < self.position implies is_alpha(#[trigger] s[k]) by {}
            lemma_alpha_end_from_scan(s, p0, self.position as int);
        }
        if eq_str(&run, "true") {
            Ok(Token::Boolean(true))
        } else if eq_str(&run, "false") {
            Ok(Token::Boolean(false))
        } else if eq_str(&run, "null") {
            Ok(Token::Null)
        } else {
            Err(JsonError::InvalidIdentifier)
        }
    }
}

/// One lexing step preserves the loop relation: if the tokens collected so
/// far, followed by the model of the rest, give the model of the whole,
/// then the same holds after emitting one more token.
proof fn lemma_lex_step(s: Seq<char>, p0: int, pos: int, next: int, pre: Seq<Token>, t: Token)
    requires
        spec_lex(s, pos) == lex_cons(t@, spec_lex(s, next)),
        (match spec_lex(s, pos) {
            Ok(rest) => spec_lex(s, p0) == Ok::<Seq<SpecToken>, JsonError>(
                crate::token::toks_view(pre) + rest,
            ),
            Err(e) => spec_lex(s, p0) == Err::<Seq<SpecToken>, JsonError>(e),
        }),
    ensures
        (match spec_lex(s, next) {
            Ok(rest) => spec_lex(s, p0) == Ok::<Seq<SpecToken>, JsonError>(
                crate::token::toks_view(pre.push(t)) + rest,
            ),
            Err(e) => spec_lex(s, p0) == Err::<Seq<SpecToken>, JsonError>(e),
        }),
{
    lemma_toks_view_push(pre, t);
    match spec_lex(s, next) {
        Ok(rest) => {
            assert(crate::token::toks_view(pre.push(t)) + rest =~= crate::token::toks_view(pre)
                + (seq![t@] + rest));
        },
        Err(e) => {},
    }
}

impl Lexer {
    /// The main lexing pass: tokens until the end of the input, or the
    /// first lexical error.
    #[verifier::loop_isolation(false)]
    pub fn lex_tokens(&mut self) -> (r: Result<Vec<Token>, JsonError>)
        requires
            old(self).wf(),
        ensures
            final(self).input@ == old(self).input@,
            final(self).wf(),
            ({
                match spec_lex(old(self).input@, old(self).position as int) {
                    Ok(models) => r matches Ok(ts) && crate::token::toks_view(ts@) == models,
                    Err(e) => r == Err::<Vec<Token>, JsonError>(e),
                }
            }),
    {
        let ghost s = self.input@;
        let ghost p0: int = self.position as int;
        let mut tokens: Vec<Token> = Vec::new();
        loop
            invariant
                self.wf(),
                self.input@ == s,
                ({
                    match spec_lex(s, self.position as int) {
                        Ok(rest) => spec_lex(s, p0) == Ok::<Seq<SpecToken>, JsonError>(
                            crate::token::toks_view(tokens@) + rest,
                        ),
                        Err(e) => spec_lex(s, p0) == Err::<Seq<SpecToken>, JsonError>(e),
                    }
                }),
            decreases s.len() - self.position,
        {
            let ghost pos: int = self.position as int;
            let ghost pre = tokens@;
            let copt = self.peek();
            match copt {
                None => {
                    proof {
                        assert(crate::token::toks_view(tokens@) + Seq::<SpecToken>::empty()
                            =~= crate::token::toks_view(tokens@));
                    }
                    return Ok(tokens);
                },
                Some(c) => {
                    if c == '{' {
                        tokens.push(Token::LeftBrace);
                        self.advance();
                        proof {
                            lemma_lex_step(s, p0, pos, pos + 1, pre, Token::LeftBrace);
                        }
                    } else if c == '}' {
                        tokens.push(Token::RightBrace);
                        self.advance();
                        proof {
                            lemma_lex_step(s, p0, pos, pos + 1, pre, Token::RightBrace);
                        }
                    } else if c == '[' {
                        tokens.push(Token::LeftBracket);
                        self.advance();
                        proof {
                            lemma_lex_step(s, p0, pos, pos + 1, pre, Token::LeftBracket);
                        }
                    } else if c == ']' {
                        tokens.push(Token::RightBracket);
                        self.advance();
                        proof {
                            lemma_lex_step(s, p0, pos, pos + 1, pre, Token::RightBracket);
                        }
                    } else if c == ':' {
                        tokens.push(Token::Colon);
                        self.advance();
                        proof {
                            lemma_lex_step(s, p0, pos, pos + 1, pre, Token::Colon);
                        }
                    } else if c == ',' {
                        tokens.push(Token::Comma);
                        self.advance();
                        proof {
                            lemma_lex_step(s, p0, pos, pos + 1, pre, Token::Comma);
                        }
                    } else if c == '"' {
                        proof {
                            lemma_scan_string_bounds(s, pos + 1);
                        }
                        let res = self.lex_string();
                        match res {
                            Ok(st) => {
                                let ghost next: int = self.position as int;
                                tokens.push(Token::StrLit(st));
                                proof {
                                    lemma_lex_step(s, p0, pos, next, pre, Token::StrLit(st));
                                }
                            },
                            Err(e) => {
                                return Err(e);
                            },
                        }
                    } else if digit_char(c) || c == '-' {
                        proof {
                            lemma_number_end_bounds(s, pos + 1);
                        }
                        let res = self.lex_number();
                        match res {
                            Ok(_) => {
                                let ghost next: int = self.position as int;
                                tokens.push(Token::Number);
                                proof {
                                    lemma_lex_step(s, p0, pos, next, pre, Token::Number);
                                }
                            },
                            Err(e) => {
                                return Err(e);
                            },
                        }
                    } else if alpha_char(c) {
                        proof {
                            lemma_alpha_end_bounds(s, pos + 1);
                        }
                        let res = self.lex_identifier();
                        match res {
                            Ok(t) => {
                                let ghost next: int = self.position as int;
                                proof {
                                    lemma_lex_step(s, p0, pos, next, pre, t);
                                }
                                tokens.push(t);
                            },
                            Err(e) => {
                                return Err(e);
                            },
                        }
                    } else if space_char(c) {
                        self.advance();
                    } else {
                        return Err(JsonError::InvalidCharacter);
                    }
                },
            }
        }
    }
}

/// String comparison against a literal, by value.
fn eq_str(a: &String, b: &str) -> (r: bool)
    ensures
        r == (a@ == b@),
{
    let t = b.to_owned();
    *a == t
}

} // verus!
