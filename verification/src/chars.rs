//! Character classes used by the lexer, and the grammar of the numeric
//! lexemes it accepts.
//!
//! The lexer scans a number greedily over the class `{digit, -, ., e, E, +}`
//! and then asks whether the collected run is a well-formed 64-bit
//! floating-point literal.  That well-formedness test is stated here as
//! [`is_float_lexeme`]: the standard library's documented grammar for
//! parsing a float, restricted to the characters the scanner can collect
//! (the `inf`/`NaN` forms need letters the scanner never admits):
//!
//! ```text
//! Number ::= Sign? ( Digit+ ('.' Digit*)? | '.' Digit+ ) Exp?
//! Exp    ::= ('e' | 'E') Sign? Digit+
//! ```

use vstd::prelude::*;
use vstd::string::StrSliceExecFns;

verus! {

/// An ASCII decimal digit.
pub open spec fn is_digit(c: char) -> bool {
    ('0' as u32) <= (c as u32) && (c as u32) <= ('9' as u32)
}

/// An ASCII letter.
pub open spec fn is_alpha(c: char) -> bool {
    (('a' as u32) <= (c as u32) && (c as u32) <= ('z' as u32))
    || (('A' as u32) <= (c as u32) && (c as u32) <= ('Z' as u32))
}

/// A character that may appear in a numeric run.
pub open spec fn is_number_char(c: char) -> bool {
    is_digit(c) || c == '-' || c == '.' || c == 'e' || c == 'E' || c == '+'
}

/// A Unicode whitespace character: the `White_Space` property, the set
/// that `char::is_whitespace` recognizes.
pub open spec fn is_space(c: char) -> bool {
    let u = c as u32;
    (0x9 <= u && u <= 0xD) || u == 0x20 || u == 0x85 || u == 0xA0 || u == 0x1680
    || (0x2000 <= u && u <= 0x200A) || u == 0x2028 || u == 0x2029
    || u == 0x202F || u == 0x205F || u == 0x3000
}

pub fn digit_char(c: char) -> (b: bool)
    ensures
        b == is_digit(c),
{
    ('0' as u32) <= (c as u32) && (c as u32) <= ('9' as u32)
}

pub fn alpha_char(c: char) -> (b: bool)
    ensures
        b == is_alpha(c),
{
    ((('a' as u32) <= (c as u32)) && ((c as u32) <= ('z' as u32)))
    || ((('A' as u32) <= (c as u32)) && ((c as u32) <= ('Z' as u32)))
}

pub fn number_char(c: char) -> (b: bool)
    ensures
        b == is_number_char(c),
{
    digit_char(c) || c == '-' || c == '.' || c == 'e' || c == 'E' || c == '+'
}

pub fn space_char(c: char) -> (b: bool)
    ensures
        b == is_space(c),
{
    let u = c as u32;
    (0x9 <= u && u <= 0xD) || u == 0x20 || u == 0x85 || u == 0xA0 || u == 0x1680
    || (0x2000 <= u && u <= 0x200A) || u == 0x2028 || u == 0x2029
    || u == 0x202F || u == 0x205F || u == 0x3000
}

/// The position just past the maximal run of decimal digits starting at `i`.
pub open spec fn digits_end(s: Seq<char>, i: int) -> int
    decreases s.len() - i
        when 0 <= i <= s.len()
{
    if i < s.len() && is_digit(s[i]) {
        digits_end(s, i + 1)
    } else {
        i
    }
}

pub proof fn lemma_digits_end_bounds(s: Seq<char>, i: int)
    requires
        0 <= i <= s.len(),
    ensures
        i <= digits_end(s, i) <= s.len(),
    decreases s.len() - i,
{
    if i < s.len() && is_digit(s[i]) {
        lemma_digits_end_bounds(s, i + 1);
    }
}

/// Whether the exponent part beginning at `i` (or nothing, if `i` is the
/// end) completes the lexeme.
pub open spec fn exp_ok(s: Seq<char>, i: int) -> bool
    recommends
        0 <= i <= s.len(),
{
    let n = s.len() as int;
    if i == n {
        true
    } else if 0 <= i < n && (s[i] == 'e' || s[i] == 'E') {
        let j = if i + 1 < n && (s[i + 1] == '+' || s[i + 1] == '-') {
            i + 2
        } else {
            i + 1
        };
        digits_end(s, j) > j && digits_end(s, j) == n
    } else {
        false
    }
}

/// Whether `s` as a whole is a well-formed floating-point literal, per the
/// grammar in the module documentation.
pub open spec fn is_float_lexeme(s: Seq<char>) -> bool {
    let n = s.len() as int;
    let i0: int = if n > 0 && (s[0] == '+' || s[0] == '-') {
        1
    } else {
        0
    };
    let d1 = digits_end(s, i0);
    if d1 == i0 {
        // no integer digits: the mantissa must be '.' Digit+
        if i0 < n && s[i0] == '.' {
            let d2 = digits_end(s, i0 + 1);
            d2 > i0 + 1 && exp_ok(s, d2)
        } else {
            false
        }
    } else if d1 < n && s[d1] == '.' {
        // Digit+ '.' Digit*
        exp_ok(s, digits_end(s, d1 + 1))
    } else {
        exp_ok(s, d1)
    }
}

/// Scans the maximal digit run of `s` starting at `from`.
fn digits_run(s: &str, from: usize, n: usize) -> (r: usize)
    requires
        n == s@.len(),
        from <= n,
    ensures
        from <= r <= n,
        r == digits_end(s@, from as int),
{
    let mut i: usize = from;
    loop
        invariant
            from <= i <= n,
            n == s@.len(),
            digits_end(s@, from as int) == digits_end(s@, i as int),
        ensures
            from <= i <= n,
            i == digits_end(s@, from as int),
        decreases n - i,
    {
        if i >= n {
            assert(digits_end(s@, i as int) == i);
            break;
        }
        let c = s.get_char(i);
        if !digit_char(c) {
            assert(digits_end(s@, i as int) == i);
            break;
        }
        i = i + 1;
    }
    i
}

/// Decides [`is_float_lexeme`] for the characters of `s`.
pub fn float_lexeme_ok(s: &str) -> (b: bool)
    ensures
        b == is_float_lexeme(s@),
{
    let n = s.unicode_len();
    let i0: usize = if n > 0 {
        let c = s.get_char(0);
        if c == '+' || c == '-' {
            1
        } else {
            0
        }
    } else {
        0
    };
    let d1 = digits_run(s, i0, n);
    if d1 == i0 {
        if i0 < n && s.get_char(i0) == '.' {
            let d2 = digits_run(s, i0 + 1, n);
            d2 > i0 + 1 && exp_check(s, d2, n)
        } else {
            false
        }
    } else if d1 < n && s.get_char(d1) == '.' {
        let d2 = digits_run(s, d1 + 1, n);
        exp_check(s, d2, n)
    } else {
        exp_check(s, d1, n)
    }
}

/// Decides [`exp_ok`] at position `i`.
fn exp_check(s: &str, i: usize, n: usize) -> (b: bool)
    requires
        n == s@.len(),
        i <= n,
    ensures
        b == exp_ok(s@, i as int),
{
    if i == n {
        true
    } else {
        let c = s.get_char(i);
        if c == 'e' || c == 'E' {
            let j: usize = if i + 1 < n {
                let c1 = s.get_char(i + 1);
                if c1 == '+' || c1 == '-' {
                    i + 2
                } else {
                    i + 1
                }
            } else {
                i + 1
            };
            let d = digits_run(s, j, n);
            d > j && d == n
        } else {
            false
        }
    }
}

} // verus!
