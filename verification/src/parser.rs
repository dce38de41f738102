//! The parser: recursive descent with one-token lookahead over the token
//! sequence, recognizing a JSON object at the top level.
//!
//! The mathematical model is the family `sp_value` / `sp_object` /
//! `sp_array` below: each takes the token models and a position and
//! returns the position just past the construct it recognized, or the
//! first syntactic error.  Object and array bodies share one automaton
//! shape (`sp_object_items` / `sp_array_items`): the closer check precedes
//! the comma check, which precedes the catch-all error — that tie-break
//! order is exactly what makes a trailing comma its own error.

use vstd::prelude::*;
use crate::token::{Token, SpecToken, JsonError, toks_view};

verus! {

/// Recognizes one value starting at `i`.
pub open spec fn sp_value(t: Seq<SpecToken>, i: int) -> Result<int, JsonError>
    decreases t.len() - i, 2int
        when 0 <= i <= t.len()
{
    let n = t.len() as int;
    if i >= n {
        Err(JsonError::ExpectedValue)
    } else {
        match t[i] {
            SpecToken::LeftBrace => sp_object(t, i),
            SpecToken::LeftBracket => sp_array(t, i),
            SpecToken::StrLit(_) => Ok(i + 1),
            SpecToken::Number => Ok(i + 1),
            SpecToken::Boolean(_) => Ok(i + 1),
            SpecToken::Null => Ok(i + 1),
            _ => Err(JsonError::ExpectedValue),
        }
    }
}

/// Recognizes an object starting at `i`: the opening brace, then the
/// member automaton.
pub open spec fn sp_object(t: Seq<SpecToken>, i: int) -> Result<int, JsonError>
    decreases t.len() - i, 1int
        when 0 <= i <= t.len()
{
    if i < t.len() && t[i] is LeftBrace {
        sp_object_items(t, i + 1, true)
    } else {
        Err(JsonError::ExpectedObjectBrace)
    }
}

/// Recognizes an array starting at `i`: the opening bracket, then the
/// element automaton.
pub open spec fn sp_array(t: Seq<SpecToken>, i: int) -> Result<int, JsonError>
    decreases t.len() - i, 1int
        when 0 <= i <= t.len()
{
    if i < t.len() && t[i] is LeftBracket {
        sp_array_items(t, i + 1, true)
    } else {
        Err(JsonError::ExpectedArrayBracket)
    }
}

/// The object-member automaton, from just inside the braces.  `first` is
/// true until a member has been consumed.
pub open spec fn sp_object_items(t: Seq<SpecToken>, i: int, first: bool) -> Result<
    int,
    JsonError,
>
    decreases t.len() - i, 3int
        when 0 <= i <= t.len()
{
    let n = t.len() as int;
    if i >= n {
        Err(JsonError::UnexpectedEnd)
    } else if t[i] is RightBrace {
        Ok(i + 1)
    } else if t[i] is Comma && !first {
        if i + 1 < n && t[i + 1] is RightBrace {
            Err(JsonError::TrailingComma)
        } else {
            sp_object_pair(t, i + 1)
        }
    } else if !first {
        Err(JsonError::ExpectedCommaOrBrace)
    } else {
        sp_object_pair(t, i)
    }
}

/// One object member: a string key, a colon, a value; then back to the
/// automaton with `first` false.
pub open spec fn sp_object_pair(t: Seq<SpecToken>, i: int) -> Result<int, JsonError>
    decreases t.len() - i, 2int
        when 0 <= i <= t.len()
{
    let n = t.len() as int;
    if i >= n || !(t[i] is StrLit) {
        Err(JsonError::ExpectedStringKey)
    } else if i + 1 >= n || !(t[i + 1] is Colon) {
        Err(JsonError::ExpectedColon)
    } else {
        match sp_value(t, i + 2) {
            Ok(j) => if i < j <= n {
                sp_object_items(t, j, false)
            } else {
                // a recognized value always advances the position
                Err(JsonError::UnexpectedEnd)
            },
            Err(e) => Err(e),
        }
    }
}

/// The array-element automaton, from just inside the brackets.
pub open spec fn sp_array_items(t: Seq<SpecToken>, i: int, first: bool) -> Result<
    int,
    JsonError,
>
    decreases t.len() - i, 3int
        when 0 <= i <= t.len()
{
    let n = t.len() as int;
    if i >= n {
        Err(JsonError::UnexpectedEnd)
    } else if t[i] is RightBracket {
        Ok(i + 1)
    } else if t[i] is Comma && !first {
        if i + 1 < n && t[i + 1] is RightBracket {
            Err(JsonError::TrailingComma)
        } else {
            match sp_value(t, i + 1) {
                Ok(j) => if i < j <= n {
                    sp_array_items(t, j, false)
                } else {
                    // a recognized value always advances the position
                    Err(JsonError::UnexpectedEnd)
                },
                Err(e) => Err(e),
            }
        }
    } else if !first {
        Err(JsonError::ExpectedCommaOrBracket)
    } else {
        match sp_value(t, i) {
            Ok(j) => if i < j <= n {
                sp_array_items(t, j, false)
            } else {
                // a recognized value always advances the position
                Err(JsonError::UnexpectedEnd)
            },
            Err(e) => Err(e),
        }
    }
}

/// A recognized value ends strictly past where it began and within the
/// sequence.
pub proof fn lemma_value_progress(t: Seq<SpecToken>, i: int)
    requires
        0 <= i <= t.len(),
    ensures
        sp_value(t, i) matches Ok(j) ==> i < j <= t.len(),
    decreases t.len() - i, 2int,
{
    if i < t.len() {
        match t[i] {
            SpecToken::LeftBrace => lemma_object_progress(t, i),
            SpecToken::LeftBracket => lemma_array_progress(t, i),
            _ => {},
        }
    }
}

pub proof fn lemma_object_progress(t: Seq<SpecToken>, i: int)
    requires
        0 <= i <= t.len(),
    ensures
        sp_object(t, i) matches Ok(j) ==> i < j <= t.len(),
    decreases t.len() - i, 1int,
{
    if i < t.len() && t[i] is LeftBrace {
        lemma_object_items_progress(t, i + 1, true);
    }
}

pub proof fn lemma_array_progress(t: Seq<SpecToken>, i: int)
    requires
        0 <= i <= t.len(),
    ensures
        sp_array(t, i) matches Ok(j) ==> i < j <= t.len(),
    decreases t.len() - i, 1int,
{
    if i < t.len() && t[i] is LeftBracket {
        lemma_array_items_progress(t, i + 1, true);
    }
}

pub proof fn lemma_object_items_progress(t: Seq<SpecToken>, i: int, first: bool)
    requires
        0 <= i <= t.len(),
    ensures
        sp_object_items(t, i, first) matches Ok(j) ==> i < j <= t.len(),
    decreases t.len() - i, 3int,
{
    let n = t.len() as int;
    if i < n {
        if t[i] is RightBrace {
        } else if t[i] is Comma && !first {
            if !(i + 1 < n && t[i + 1] is RightBrace) {
                lemma_object_pair_progress(t, i + 1);
            }
        } else if first {
            lemma_object_pair_progress(t, i);
        }
    }
}

pub proof fn lemma_object_pair_progress(t: Seq<SpecToken>, i: int)
    requires
        0 <= i <= t.len(),
    ensures
        sp_object_pair(t, i) matches Ok(j) ==> i < j <= t.len(),
    decreases t.len() - i, 2int,
{
    let n = t.len() as int;
    if i < n && t[i] is StrLit && i + 1 < n && t[i + 1] is Colon {
        lemma_value_progress(t, i + 2);
        match sp_value(t, i + 2) {
            Ok(j) => {
                lemma_object_items_progress(t, j, false);
            },
            Err(_) => {},
        }
    }
}

pub proof fn lemma_array_items_progress(t: Seq<SpecToken>, i: int, first: bool)
    requires
        0 <= i <= t.len(),
    ensures
        sp_array_items(t, i, first) matches Ok(j) ==> i < j <= t.len(),
    decreases t.len() - i, 3int,
{
    let n = t.len() as int;
    if i < n {
        if t[i] is RightBracket {
        } else if t[i] is Comma && !first {
            if !(i + 1 < n && t[i + 1] is RightBracket) {
                lemma_value_progress(t, i + 1);
                match sp_value(t, i + 1) {
                    Ok(j) => {
                        lemma_array_items_progress(t, j, false);
                    },
                    Err(_) => {},
                }
            }
        } else if first {
            lemma_value_progress(t, i);
            match sp_value(t, i) {
                Ok(j) => {
                    lemma_array_items_progress(t, j, false);
                },
                Err(_) => {},
            }
        }
    }
}

/// The parser's working state: the token sequence and a cursor that only
/// ever moves forward.
pub struct Parser {
    pub tokens: Vec<Token>,
    pub position: usize,
}

impl Parser {
    /// The token models the parser works over.
    pub open spec fn toks(&self) -> Seq<SpecToken> {
        toks_view(self.tokens@)
    }

    /// The cursor stays within the token sequence.
    pub open spec fn wf(&self) -> bool {
        self.position <= self.tokens@.len()
    }

    pub fn new(tokens: Vec<Token>) -> (p: Parser)
        ensures
            p.tokens@ == tokens@,
            p.position == 0,
    {
        Parser { tokens, position: 0 }
    }

    pub fn peek(&self) -> (r: Option<&Token>)
        ensures
            self.position < self.tokens@.len() ==> (r matches Some(t) && *t == self.tokens@[
                self.position as int
            ]),
            self.position >= self.tokens@.len() ==> r is None,
    {
        if self.position < self.tokens.len() {
            Some(&self.tokens[self.position])
        } else {
            None
        }
    }

    pub fn advance(&mut self)
        requires
            old(self).position < old(self).tokens@.len(),
        ensures
            final(self).tokens@ == old(self).tokens@,
            final(self).position == old(self).position + 1,
    {
        proof {
            broadcast use vstd::std_specs::vec::axiom_spec_len;
            assert(vstd::std_specs::vec::spec_vec_len(&self.tokens) == self.tokens@.len());
        }
        self.position = self.position + 1
    }

    /// Recognizes one value: an object, an array, or a leaf token.
    pub fn parse_value(&mut self) -> (r: Result<(), JsonError>)
        requires
            old(self).wf(),
        ensures
            final(self).tokens@ == old(self).tokens@,
            final(self).wf(),
            ({
                match sp_value(old(self).toks(), old(self).position as int) {
                    Ok(j) => r == Ok::<(), JsonError>(()) && final(self).position == j,
                    Err(e) => r == Err::<(), JsonError>(e),
                }
            }),
        decreases self.tokens@.len() - self.position, 2int,
    {
        match self.peek() {
            Some(Token::LeftBrace) => self.parse_object(),
            Some(Token::LeftBracket) => self.parse_array(),
            Some(Token::StrLit(_)) | Some(Token::Number) | Some(Token::Boolean(_)) | Some(
                Token::Null,
            ) => {
                self.advance();
                Ok(())
            },
            _ => Err(JsonError::ExpectedValue),
        }
    }

    /// Recognizes an object: `'{' ( pair (',' pair)* )? '}'`, with a string
    /// key and a colon before each member's value.
    #[verifier::loop_isolation(false)]
    pub fn parse_object(&mut self) -> (r: Result<(), JsonError>)
        requires
            old(self).wf(),
        ensures
            final(self).tokens@ == old(self).tokens@,
            final(self).wf(),
            ({
                match sp_object(old(self).toks(), old(self).position as int) {
                    Ok(j) => r == Ok::<(), JsonError>(()) && final(self).position == j,
                    Err(e) => r == Err::<(), JsonError>(e),
                }
            }),
        decreases self.tokens@.len() - self.position, 1int,
    {
        let ghost t = self.toks();
        let ghost p0: int = self.position as int;
        // Expect the opening brace
        match self.peek() {
            Some(Token::LeftBrace) => self.advance(),
            _ => {
                return Err(JsonError::ExpectedObjectBrace);
            },
        }
        let mut first: bool = true;
        loop
            invariant
                self.wf(),
                self.tokens@ == old(self).tokens@,
                p0 < self.position <= t.len(),
                sp_object_items(t, p0 + 1, true) == sp_object_items(
                    t,
                    self.position as int,
                    first,
                ),
            decreases t.len() - self.position,
        {
            match self.peek() {
                None => {
                    return Err(JsonError::UnexpectedEnd);
                },
                Some(tok) => {
                    match tok {
                        // A closing brace ends the object, empty or not
                        Token::RightBrace => {
                            self.advance();
                            return Ok(());
                        },
                        // A separating comma; a closer right after it is a
                        // trailing comma
                        Token::Comma if !first => {
                            self.advance();
                            match self.peek() {
                                Some(Token::RightBrace) => {
                                    return Err(JsonError::TrailingComma);
                                },
                                _ => {},
                            }
                        },
                        // After a member, only a comma or a closer may follow
                        _ if !first => {
                            return Err(JsonError::ExpectedCommaOrBrace);
                        },
                        // First member: fall through to the pair
                        _ => {},
                    }
                },
            }
            let ghost pp: int = self.position as int;
            // Parse the key
            match self.peek() {
                Some(Token::StrLit(_)) => self.advance(),
                _ => {
                    return Err(JsonError::ExpectedStringKey);
                },
            }
            // Parse the colon
            match self.peek() {
                Some(Token::Colon) => self.advance(),
                _ => {
                    return Err(JsonError::ExpectedColon);
                },
            }
            // Parse the member's value
            let res = self.parse_value();
            match res {
                Ok(_) => {},
                Err(e) => {
                    return Err(e);
                },
            }
            proof {
                lemma_value_progress(t, pp + 2);
            }
            first = false;
        }
    }

    /// Recognizes an array: `'[' ( value (',' value)* )? ']'`.
    #[verifier::loop_isolation(false)]
    pub fn parse_array(&mut self) -> (r: Result<(), JsonError>)
        requires
            old(self).wf(),
        ensures
            final(self).tokens@ == old(self).tokens@,
            final(self).wf(),
            ({
                match sp_array(old(self).toks(), old(self).position as int) {
                    Ok(j) => r == Ok::<(), JsonError>(()) && final(self).position == j,
                    Err(e) => r == Err::<(), JsonError>(e),
                }
            }),
        decreases self.tokens@.len() - self.position, 1int,
    {
        let ghost t = self.toks();
        let ghost p0: int = self.position as int;
        // Expect the opening bracket
        match self.peek() {
            Some(Token::LeftBracket) => self.advance(),
            _ => {
                return Err(JsonError::ExpectedArrayBracket);
            },
        }
        let mut first: bool = true;
        loop
            invariant
                self.wf(),
                self.tokens@ == old(self).tokens@,
                p0 < self.position <= t.len(),
                sp_array_items(t, p0 + 1, true) == sp_array_items(
                    t,
                    self.position as int,
                    first,
                ),
            decreases t.len() - self.position,
        {
            match self.peek() {
                None => {
                    return Err(JsonError::UnexpectedEnd);
                },
                Some(tok) => {
                    match tok {
                        // A closing bracket ends the array, empty or not
                        Token::RightBracket => {
                            self.advance();
                            return Ok(());
                        },
                        // A separating comma; a closer right after it is a
                        // trailing comma
                        Token::Comma if !first => {
                            self.advance();
                            match self.peek() {
                                Some(Token::RightBracket) => {
                                    return Err(JsonError::TrailingComma);
                                },
                                _ => {},
                            }
                        },
                        // After an element, only a comma or a closer may
                        // follow
                        _ if !first => {
                            return Err(JsonError::ExpectedCommaOrBracket);
                        },
                        // First element: fall through to the value
                        _ => {},
                    }
                },
            }
            let ghost pp: int = self.position as int;
            // Parse the element's value
            let res = self.parse_value();
            match res {
                Ok(_) => {},
                Err(e) => {
                    return Err(e);
                },
            }
            proof {
                lemma_value_progress(t, pp);
            }
            first = false;
        }
    }
}

} // verus!
