//! The laws the validator obeys, stated over the models and proved once
//! and for all.

use vstd::prelude::*;
use crate::token::{SpecToken, JsonError};
use crate::parser::{sp_value, sp_object_items, sp_object_pair, sp_array_items};

verus! {

broadcast use vstd::seq::axiom_seq_index_decreases;

/// A well-formed JSON value, at the level the validator cares about: the
/// shape of the document, with strings as character sequences and the
/// leaves otherwise unvalued.
pub enum JsonValue {
    Object(Seq<(Seq<char>, JsonValue)>),
    Array(Seq<JsonValue>),
    StrVal(Seq<char>),
    NumVal,
    BoolVal(bool),
    NullVal,
}

/// The token rendering of a value.
pub open spec fn value_tokens(v: JsonValue) -> Seq<SpecToken>
    decreases v, 0int,
{
    match v {
        JsonValue::Object(ps) => seq![SpecToken::LeftBrace] + object_items_tokens(ps, 0),
        JsonValue::Array(vs) => seq![SpecToken::LeftBracket] + array_items_tokens(vs, 0),
        JsonValue::StrVal(s) => seq![SpecToken::StrLit(s)],
        JsonValue::NumVal => seq![SpecToken::Number],
        JsonValue::BoolVal(b) => seq![SpecToken::Boolean(b)],
        JsonValue::NullVal => seq![SpecToken::Null],
    }
}

/// The token rendering of an object's members from the `k`-th on,
/// commas between members, closed by the right brace.
pub open spec fn object_items_tokens(ps: Seq<(Seq<char>, JsonValue)>, k: int) -> Seq<SpecToken>
    decreases ps, ps.len() - k
        when 0 <= k <= ps.len()
{
    if k >= ps.len() {
        seq![SpecToken::RightBrace]
    } else if k == 0 {
        seq![SpecToken::StrLit(ps[0].0), SpecToken::Colon] + value_tokens(ps[0].1)
            + object_items_tokens(ps, 1)
    } else {
        seq![SpecToken::Comma, SpecToken::StrLit(ps[k].0), SpecToken::Colon]
            + value_tokens(ps[k].1) + object_items_tokens(ps, k + 1)
    }
}

/// The token rendering of an array's elements from the `k`-th on,
/// commas between elements, closed by the right bracket.
pub open spec fn array_items_tokens(vs: Seq<JsonValue>, k: int) -> Seq<SpecToken>
    decreases vs, vs.len() - k
        when 0 <= k <= vs.len()
{
    if k >= vs.len() {
        seq![SpecToken::RightBracket]
    } else if k == 0 {
        value_tokens(vs[0]) + array_items_tokens(vs, 1)
    } else {
        seq![SpecToken::Comma] + value_tokens(vs[k]) + array_items_tokens(vs, k + 1)
    }
}

/// A string literal's content the lexer takes verbatim: no quote, no
/// backslash, no raw newline.
pub open spec fn clean_string(s: Seq<char>) -> bool {
    forall|d: int| 0 <= d < s.len() ==> #[trigger] s[d] != '"' && s[d] != '\\' && s[d] != '\n'
}

/// Well-formedness of a value: every string in it, key or leaf, is one
/// the lexer accepts.
pub open spec fn wf_value(v: JsonValue) -> bool
    decreases v, 0int,
{
    match v {
        JsonValue::Object(ps) => forall|k: int|
            0 <= k < ps.len() ==> clean_string((#[trigger] ps[k]).0) && wf_value(ps[k].1),
        JsonValue::Array(vs) => forall|k: int| 0 <= k < vs.len() ==> wf_value(#[trigger] vs[k]),
        JsonValue::StrVal(s) => clean_string(s),
        _ => true,
    }
}

/// The canonical text rendering of a value: no whitespace, strings quoted
/// verbatim, numbers written as `0` (the validator never reads the
/// value), keywords spelled out.
pub open spec fn render_value(v: JsonValue) -> Seq<char>
    decreases v, 0int,
{
    match v {
        JsonValue::Object(ps) => seq!['{'] + render_object_items(ps, 0),
        JsonValue::Array(vs) => seq!['['] + render_array_items(vs, 0),
        JsonValue::StrVal(s) => seq!['"'] + s + seq!['"'],
        JsonValue::NumVal => seq!['0'],
        JsonValue::BoolVal(b) => if b {
            "true"@
        } else {
            "false"@
        },
        JsonValue::NullVal => "null"@,
    }
}

/// The canonical rendering of an object's members from the `k`-th on.
pub open spec fn render_object_items(ps: Seq<(Seq<char>, JsonValue)>, k: int) -> Seq<char>
    decreases ps, ps.len() - k
        when 0 <= k <= ps.len()
{
    if k >= ps.len() {
        seq!['}']
    } else if k == 0 {
        seq!['"'] + ps[0].0 + seq!['"', ':'] + render_value(ps[0].1)
            + render_object_items(ps, 1)
    } else {
        seq![',', '"'] + ps[k].0 + seq!['"', ':'] + render_value(ps[k].1)
            + render_object_items(ps, k + 1)
    }
}

/// The canonical rendering of an array's elements from the `k`-th on.
pub open spec fn render_array_items(vs: Seq<JsonValue>, k: int) -> Seq<char>
    decreases vs, vs.len() - k
        when 0 <= k <= vs.len()
{
    if k >= vs.len() {
        seq![']']
    } else if k == 0 {
        render_value(vs[0]) + render_array_items(vs, 1)
    } else {
        seq![','] + render_value(vs[k]) + render_array_items(vs, k + 1)
    }
}

/// A character that may legally follow a complete value: a separator or a
/// closing delimiter.  It extends no numeric run and no identifier.
pub open spec fn is_value_boundary(c: char) -> bool {
    c == ',' || c == '}' || c == ']'
}

/// Prepends already-lexed tokens to the result of lexing the rest.
pub open spec fn lex_concat(
    pre: Seq<SpecToken>,
    r: Result<Seq<SpecToken>, JsonError>,
) -> Result<Seq<SpecToken>, JsonError> {
    match r {
        Ok(ts) => Ok(pre + ts),
        Err(e) => Err(e),
    }
}

/// A value's rendering is nonempty, and its first token is one a value can
/// start with: never a closer, separator or colon.
pub proof fn lemma_value_tokens_first(v: JsonValue)
    ensures
        value_tokens(v).len() >= 1,
        !(value_tokens(v)[0] is RightBrace),
        !(value_tokens(v)[0] is RightBracket),
        !(value_tokens(v)[0] is Comma),
        !(value_tokens(v)[0] is Colon),
{
    match v {
        JsonValue::Object(ps) => {
            assert(value_tokens(v)[0] == SpecToken::LeftBrace);
        },
        JsonValue::Array(vs) => {
            assert(value_tokens(v)[0] == SpecToken::LeftBracket);
        },
        _ => {},
    }
}

/// Splicing token prefixes into a lexing result is associative.
pub proof fn lemma_lex_concat_assoc(
    a: Seq<SpecToken>,
    b: Seq<SpecToken>,
    r: Result<Seq<SpecToken>, JsonError>,
)
    ensures
        lex_concat(a, lex_concat(b, r)) == lex_concat(a + b, r),
{
    match r {
        Ok(ts) => {
            assert(a + (b + ts) =~= (a + b) + ts);
        },
        Err(_) => {},
    }
}

/// Prepending one token is splicing a one-token prefix.
pub proof fn lemma_lex_cons_is_concat(t: SpecToken, r: Result<Seq<SpecToken>, JsonError>)
    ensures
        crate::lexer::lex_cons(t, r) == lex_concat(seq![t], r),
{
}

/// Scanning a string literal body over clean content stops exactly at the
/// closing quote and returns the content verbatim.
pub proof fn lemma_scan_segment(s: Seq<char>, a: int, content: Seq<char>)
    requires
        0 <= a,
        a + content.len() < s.len(),
        forall|d: int| 0 <= d < content.len() ==> s[a + d] == #[trigger] content[d],
        clean_string(content),
        s[a + content.len()] == '"',
    ensures
        crate::lexer::scan_string(s, a) == Ok::<(Seq<char>, int), JsonError>(
            (content, a + content.len() + 1),
        ),
    decreases content.len(),
{
    if content.len() == 0 {
        assert(Seq::<char>::empty() =~= content);
    } else {
        assert(s[a] == content[0]);
        lemma_scan_segment(s, a + 1, content.drop_first());
        assert(seq![s[a]] + content.drop_first() =~= content);
    }
}

/// One lexing step over a string literal standing at `i`.
pub proof fn lemma_lex_string_step(s: Seq<char>, i: int, content: Seq<char>)
    requires
        0 <= i < s.len(),
        s[i] == '"',
        i + content.len() + 2 <= s.len(),
        forall|d: int| 0 <= d < content.len() ==> s[i + 1 + d] == #[trigger] content[d],
        clean_string(content),
        s[i + 1 + content.len()] == '"',
    ensures
        crate::lexer::spec_lex(s, i) == lex_concat(
            seq![SpecToken::StrLit(content)],
            crate::lexer::spec_lex(s, i + content.len() + 2),
        ),
{
    lemma_scan_segment(s, i + 1, content);
}

/// One lexing step over the canonical numeric literal `0` standing at `i`.
pub proof fn lemma_lex_number_step(s: Seq<char>, i: int)
    requires
        0 <= i < s.len(),
        s[i] == '0',
        i + 1 == s.len() || !crate::chars::is_number_char(s[i + 1]),
    ensures
        crate::lexer::spec_lex(s, i) == lex_concat(
            seq![SpecToken::Number],
            crate::lexer::spec_lex(s, i + 1),
        ),
{
    assert(crate::lexer::number_end(s, i + 1) == i + 1);
    assert(crate::lexer::number_end(s, i) == i + 1);
    let w = s.subrange(i, i + 1);
    assert(w =~= seq!['0']);
    assert(w.len() == 1 && w[0] == '0');
    assert(crate::chars::is_digit('0'));
    assert(crate::chars::digits_end(w, 1) == 1);
    assert(crate::chars::digits_end(w, 0) == 1);
    assert(crate::chars::exp_ok(w, 1));
    assert(crate::chars::is_float_lexeme(w));
}

/// One lexing step over a keyword standing at `i`: the maximal letter run
/// is the keyword itself, and it maps to its token.
pub proof fn lemma_lex_keyword_step(s: Seq<char>, i: int, word: Seq<char>, t: SpecToken)
    requires
        0 <= i,
        i + word.len() <= s.len(),
        forall|d: int| 0 <= d < word.len() ==> s[i + d] == #[trigger] word[d],
        word.len() > 0,
        forall|d: int| 0 <= d < word.len() ==> crate::chars::is_alpha(#[trigger] word[d]),
        i + word.len() == s.len() || !crate::chars::is_alpha(s[i + word.len()]),
        (word == "true"@ && t == SpecToken::Boolean(true)) || (word == "false"@ && t
            == SpecToken::Boolean(false)) || (word == "null"@ && t == SpecToken::Null),
    ensures
        crate::lexer::spec_lex(s, i) == lex_concat(
            seq![t],
            crate::lexer::spec_lex(s, i + word.len()),
        ),
{
    reveal_strlit("true");
    reveal_strlit("false");
    reveal_strlit("null");
    let j = i + word.len() as int;
    assert forall|k: int| i <= k < j implies crate::chars::is_alpha(#[trigger] s[k]) by {
        assert(s[k] == word[k - i]);
        assert(crate::chars::is_alpha(word[k - i]));
    }
    crate::lexer::lemma_alpha_end_from_scan(s, i, j);
    assert(s.subrange(i, j) =~= word);
    assert(crate::chars::is_alpha(s[i]));
    assert(!crate::chars::is_digit(s[i]) && s[i] != '-') by {
        assert(crate::chars::is_alpha(word[0]));
    }
    if word == "true"@ {
        assert(t == SpecToken::Boolean(true));
        assert(crate::lexer::spec_lex(s, i) == crate::lexer::lex_cons(
            t,
            crate::lexer::spec_lex(s, j),
        ));
    } else if word == "false"@ {
        assert(t == SpecToken::Boolean(false));
        assert(crate::lexer::spec_lex(s, i) == crate::lexer::lex_cons(
            t,
            crate::lexer::spec_lex(s, j),
        ));
    } else {
        assert(word == "null"@);
        assert(t == SpecToken::Null);
        assert(crate::lexer::spec_lex(s, i) == crate::lexer::lex_cons(
            t,
            crate::lexer::spec_lex(s, j),
        ));
    }
    lemma_lex_cons_is_concat(t, crate::lexer::spec_lex(s, j));
}

/// Lexing a value's canonical rendering yields exactly its tokens: where
/// the characters starting at `i` are `render_value(v)` and a value
/// boundary (or the end of the text) follows, the lexer emits
/// `value_tokens(v)` and continues after the rendering.
pub proof fn lemma_lex_render_value(s: Seq<char>, i: int, v: JsonValue)
    requires
        wf_value(v),
        0 <= i,
        i + render_value(v).len() <= s.len(),
        forall|d: int|
            0 <= d < render_value(v).len() ==> s[i + d] == #[trigger] render_value(v)[d],
        i + render_value(v).len() == s.len() || is_value_boundary(
            s[i + render_value(v).len()],
        ),
    ensures
        crate::lexer::spec_lex(s, i) == lex_concat(
            value_tokens(v),
            crate::lexer::spec_lex(s, i + render_value(v).len()),
        ),
    decreases v, 0int,
{
    let rv = render_value(v);
    let l = rv.len() as int;
    match v {
        JsonValue::Object(ps) => {
            let ri = render_object_items(ps, 0);
            assert(s[i] == rv[0] && rv[0] == '{');
            assert forall|d: int| 0 <= d < ri.len() implies s[i + 1 + d] == #[trigger] ri[d] by {
                assert(s[i + 1 + d] == rv[1 + d]);
            }
            lemma_lex_render_object_items(s, i + 1, ps, 0);
            assert(crate::lexer::spec_lex(s, i) == crate::lexer::lex_cons(
                SpecToken::LeftBrace,
                crate::lexer::spec_lex(s, i + 1),
            ));
            lemma_lex_cons_is_concat(SpecToken::LeftBrace, crate::lexer::spec_lex(s, i + 1));
            lemma_lex_concat_assoc(
                seq![SpecToken::LeftBrace],
                object_items_tokens(ps, 0),
                crate::lexer::spec_lex(s, i + l),
            );
        },
        JsonValue::Array(vs) => {
            let ri = render_array_items(vs, 0);
            assert(s[i] == rv[0] && rv[0] == '[');
            assert forall|d: int| 0 <= d < ri.len() implies s[i + 1 + d] == #[trigger] ri[d] by {
                assert(s[i + 1 + d] == rv[1 + d]);
            }
            lemma_lex_render_array_items(s, i + 1, vs, 0);
            assert(crate::lexer::spec_lex(s, i) == crate::lexer::lex_cons(
                SpecToken::LeftBracket,
                crate::lexer::spec_lex(s, i + 1),
            ));
            lemma_lex_cons_is_concat(SpecToken::LeftBracket, crate::lexer::spec_lex(s, i + 1));
            lemma_lex_concat_assoc(
                seq![SpecToken::LeftBracket],
                array_items_tokens(vs, 0),
                crate::lexer::spec_lex(s, i + l),
            );
        },
        JsonValue::StrVal(str) => {
            assert(s[i] == rv[0] && rv[0] == '"');
            assert forall|d: int| 0 <= d < str.len() implies s[i + 1 + d] == #[trigger] str[d]
            by {
                assert(s[i + 1 + d] == rv[1 + d]);
                assert(rv[1 + d] == str[d]);
            }
            assert(s[i + 1 + str.len()] == rv[l - 1] && rv[l - 1] == '"');
            lemma_lex_string_step(s, i, str);
        },
        JsonValue::NumVal => {
            assert(s[i] == rv[0] && rv[0] == '0');
            assert(i + 1 == s.len() || !crate::chars::is_number_char(s[i + 1]));
            lemma_lex_number_step(s, i);
        },
        JsonValue::BoolVal(b) => {
            reveal_strlit("true");
            reveal_strlit("false");
            lemma_lex_keyword_step(s, i, rv, SpecToken::Boolean(b));
        },
        JsonValue::NullVal => {
            reveal_strlit("null");
            lemma_lex_keyword_step(s, i, rv, SpecToken::Null);
        },
    }
}

/// Lexing the rendering of an object's members from the `k`-th on yields
/// exactly their tokens.
pub proof fn lemma_lex_render_object_items(
    s: Seq<char>,
    i: int,
    ps: Seq<(Seq<char>, JsonValue)>,
    k: int,
)
    requires
        0 <= k <= ps.len(),
        forall|m: int|
            0 <= m < ps.len() ==> clean_string((#[trigger] ps[m]).0) && wf_value(ps[m].1),
        0 <= i,
        i + render_object_items(ps, k).len() <= s.len(),
        forall|d: int|
            0 <= d < render_object_items(ps, k).len() ==> s[i + d]
                == #[trigger] render_object_items(ps, k)[d],
    ensures
        crate::lexer::spec_lex(s, i) == lex_concat(
            object_items_tokens(ps, k),
            crate::lexer::spec_lex(s, i + render_object_items(ps, k).len()),
        ),
    decreases ps, ps.len() - k,
{
    let seg = render_object_items(ps, k);
    let l = seg.len() as int;
    let fin = crate::lexer::spec_lex(s, i + l);
    if k >= ps.len() {
        assert(s[i] == seg[0] && seg[0] == '}');
        assert(crate::lexer::spec_lex(s, i) == crate::lexer::lex_cons(
            SpecToken::RightBrace,
            fin,
        ));
        lemma_lex_cons_is_concat(SpecToken::RightBrace, fin);
    } else {
        let off: int = if k == 0 {
            0
        } else {
            1
        };
        let key = ps[k].0;
        let kl = key.len() as int;
        let rv = render_value(ps[k].1);
        let rest = render_object_items(ps, k + 1);
        // positions: quote, key, quote, colon, value, rest
        let q = i + off;
        let qv = q + 3 + kl;
        let qr = qv + rv.len();
        assert(rest.len() >= 1);
        // the member's pieces, read off the segment
        if k > 0 {
            assert(s[i] == seg[0] && seg[0] == ',');
        }
        assert(s[q] == seg[off] && seg[off] == '"');
        assert forall|d: int| 0 <= d < kl implies s[q + 1 + d] == #[trigger] key[d] by {
            assert(s[q + 1 + d] == seg[off + 1 + d]);
            assert(seg[off + 1 + d] == key[d]);
        }
        assert(s[q + 1 + kl] == seg[off + 1 + kl] && seg[off + 1 + kl] == '"');
        assert(s[q + 2 + kl] == seg[off + 2 + kl] && seg[off + 2 + kl] == ':');
        assert forall|d: int| 0 <= d < rv.len() implies s[qv + d] == #[trigger] rv[d] by {
            assert(s[qv + d] == seg[off + 3 + kl + d]);
        }
        assert forall|d: int| 0 <= d < rest.len() implies s[qr + d] == #[trigger] rest[d] by {
            assert(s[qr + d] == seg[off + 3 + kl + rv.len() + d]);
        }
        // after the value stands the next separator or the closing brace
        assert(is_value_boundary(s[qr])) by {
            if k + 1 >= ps.len() {
                assert(rest[0] == '}');
            } else {
                assert(rest[0] == ',');
            }
            assert(s[qr] == rest[0]);
        }
        // chain the steps back to front
        lemma_lex_render_object_items(s, qr, ps, k + 1);
        lemma_lex_render_value(s, qv, ps[k].1);
        let vt = value_tokens(ps[k].1);
        let rest_toks = object_items_tokens(ps, k + 1);
        lemma_lex_concat_assoc(vt, rest_toks, fin);
        assert(crate::lexer::spec_lex(s, qv) == lex_concat(vt + rest_toks, fin));
        // the colon before the value
        assert(crate::lexer::spec_lex(s, q + 2 + kl) == crate::lexer::lex_cons(
            SpecToken::Colon,
            crate::lexer::spec_lex(s, qv),
        ));
        lemma_lex_cons_is_concat(SpecToken::Colon, crate::lexer::spec_lex(s, qv));
        lemma_lex_concat_assoc(seq![SpecToken::Colon], vt + rest_toks, fin);
        // the string key before the colon
        lemma_lex_string_step(s, q, key);
        lemma_lex_concat_assoc(
            seq![SpecToken::StrLit(key)],
            seq![SpecToken::Colon] + (vt + rest_toks),
            fin,
        );
        let member_toks = seq![SpecToken::StrLit(key)] + (seq![SpecToken::Colon] + (vt
            + rest_toks));
        assert(crate::lexer::spec_lex(s, q) == lex_concat(member_toks, fin));
        if k == 0 {
            assert(object_items_tokens(ps, k) =~= member_toks);
        } else {
            // the separating comma first
            assert(crate::lexer::spec_lex(s, i) == crate::lexer::lex_cons(
                SpecToken::Comma,
                crate::lexer::spec_lex(s, q),
            ));
            lemma_lex_cons_is_concat(SpecToken::Comma, crate::lexer::spec_lex(s, q));
            lemma_lex_concat_assoc(seq![SpecToken::Comma], member_toks, fin);
            assert(object_items_tokens(ps, k) =~= seq![SpecToken::Comma] + member_toks);
        }
    }
}

/// Lexing the rendering of an array's elements from the `k`-th on yields
/// exactly their tokens.
pub proof fn lemma_lex_render_array_items(s: Seq<char>, i: int, vs: Seq<JsonValue>, k: int)
    requires
        0 <= k <= vs.len(),
        forall|m: int| 0 <= m < vs.len() ==> wf_value(#[trigger] vs[m]),
        0 <= i,
        i + render_array_items(vs, k).len() <= s.len(),
        forall|d: int|
            0 <= d < render_array_items(vs, k).len() ==> s[i + d]
                == #[trigger] render_array_items(vs, k)[d],
    ensures
        crate::lexer::spec_lex(s, i) == lex_concat(
            array_items_tokens(vs, k),
            crate::lexer::spec_lex(s, i + render_array_items(vs, k).len()),
        ),
    decreases vs, vs.len() - k,
{
    let seg = render_array_items(vs, k);
    let l = seg.len() as int;
    let fin = crate::lexer::spec_lex(s, i + l);
    if k >= vs.len() {
        assert(s[i] == seg[0] && seg[0] == ']');
        assert(crate::lexer::spec_lex(s, i) == crate::lexer::lex_cons(
            SpecToken::RightBracket,
            fin,
        ));
        lemma_lex_cons_is_concat(SpecToken::RightBracket, fin);
    } else {
        let off: int = if k == 0 {
            0
        } else {
            1
        };
        let rv = render_value(vs[k]);
        let rest = render_array_items(vs, k + 1);
        let qv = i + off;
        let qr = qv + rv.len();
        assert(rest.len() >= 1);
        if k > 0 {
            assert(s[i] == seg[0] && seg[0] == ',');
        }
        assert forall|d: int| 0 <= d < rv.len() implies s[qv + d] == #[trigger] rv[d] by {
            assert(s[qv + d] == seg[off + d]);
        }
        assert forall|d: int| 0 <= d < rest.len() implies s[qr + d] == #[trigger] rest[d] by {
            assert(s[qr + d] == seg[off + rv.len() + d]);
        }
        // after the element stands the next separator or the closing bracket
        assert(is_value_boundary(s[qr])) by {
            if k + 1 >= vs.len() {
                assert(rest[0] == ']');
            } else {
                assert(rest[0] == ',');
            }
            assert(s[qr] == rest[0]);
        }
        lemma_lex_render_array_items(s, qr, vs, k + 1);
        lemma_lex_render_value(s, qv, vs[k]);
        let vt = value_tokens(vs[k]);
        let rest_toks = array_items_tokens(vs, k + 1);
        lemma_lex_concat_assoc(vt, rest_toks, fin);
        assert(crate::lexer::spec_lex(s, qv) == lex_concat(vt + rest_toks, fin));
        if k == 0 {
            assert(array_items_tokens(vs, k) =~= vt + rest_toks);
        } else {
            assert(crate::lexer::spec_lex(s, i) == crate::lexer::lex_cons(
                SpecToken::Comma,
                crate::lexer::spec_lex(s, qv),
            ));
            lemma_lex_cons_is_concat(SpecToken::Comma, crate::lexer::spec_lex(s, qv));
            lemma_lex_concat_assoc(seq![SpecToken::Comma], vt + rest_toks, fin);
            assert(array_items_tokens(vs, k) =~= seq![SpecToken::Comma] + (vt + rest_toks));
        }
    }
}

/// Completeness of the value parser: where the tokens starting at `i` are
/// the rendering of a value, the parser recognizes them and stops exactly
/// at their end.
pub proof fn lemma_value_complete(t: Seq<SpecToken>, i: int, v: JsonValue)
    requires
        0 <= i,
        i + value_tokens(v).len() <= t.len(),
        t.subrange(i, i + value_tokens(v).len()) == value_tokens(v),
    ensures
        sp_value(t, i) == Ok::<int, JsonError>(i + value_tokens(v).len()),
    decreases v, 0int,
{
    let vt = value_tokens(v);
    let l = vt.len() as int;
    assert(t[i] == vt[0]) by {
        assert(t.subrange(i, i + l)[0] == t[i]);
    }
    match v {
        JsonValue::Object(ps) => {
            let items = object_items_tokens(ps, 0);
            assert(t[i] is LeftBrace);
            assert(t.subrange(i + 1, i + 1 + items.len()) =~= items) by {
                assert forall|d: int| 0 <= d < items.len() implies t.subrange(
                    i + 1,
                    i + 1 + items.len(),
                )[d] == items[d] by {
                    assert(t.subrange(i, i + l)[d + 1] == t[i + 1 + d]);
                }
            }
            lemma_object_items_complete(t, i + 1, ps, 0);
        },
        JsonValue::Array(vs) => {
            let items = array_items_tokens(vs, 0);
            assert(t[i] is LeftBracket);
            assert(t.subrange(i + 1, i + 1 + items.len()) =~= items) by {
                assert forall|d: int| 0 <= d < items.len() implies t.subrange(
                    i + 1,
                    i + 1 + items.len(),
                )[d] == items[d] by {
                    assert(t.subrange(i, i + l)[d + 1] == t[i + 1 + d]);
                }
            }
            lemma_array_items_complete(t, i + 1, vs, 0);
        },
        _ => {},
    }
}

/// Completeness of the object-member automaton, from the `k`-th member on.
pub proof fn lemma_object_items_complete(
    t: Seq<SpecToken>,
    i: int,
    ps: Seq<(Seq<char>, JsonValue)>,
    k: int,
)
    requires
        0 <= k <= ps.len(),
        0 <= i,
        i + object_items_tokens(ps, k).len() <= t.len(),
        t.subrange(i, i + object_items_tokens(ps, k).len()) == object_items_tokens(ps, k),
    ensures
        sp_object_items(t, i, k == 0) == Ok::<int, JsonError>(
            i + object_items_tokens(ps, k).len(),
        ),
    decreases ps, ps.len() - k,
{
    let seg = object_items_tokens(ps, k);
    let l = seg.len() as int;
    assert forall|d: int| 0 <= d < l implies t[i + d] == seg[d] by {
        assert(t.subrange(i, i + l)[d] == t[i + d]);
    }
    if k >= ps.len() {
        // only the closing brace: both automaton states accept it
        assert(t[i] == seg[0]);
        assert(t[i] is RightBrace);
    } else {
        // the member's tokens sit after the separator, if any
        let off: int = if k == 0 {
            2
        } else {
            3
        };
        let pt = value_tokens(ps[k].1);
        let rest = object_items_tokens(ps, k + 1);
        let j = i + off + pt.len();
        assert(rest.len() >= 1);
        if k == 0 {
            assert(t[i] == seg[0]);
            assert(t[i] == SpecToken::StrLit(ps[0].0));
            assert(t[i + 1] == seg[1]);
            assert(t[i + 1] is Colon);
        } else {
            assert(t[i] == seg[0]);
            assert(t[i] is Comma);
            assert(t[i + 1] == seg[1]);
            assert(t[i + 1] == SpecToken::StrLit(ps[k].0));
            assert(t[i + 2] == seg[2]);
            assert(t[i + 2] is Colon);
        }
        assert(t.subrange(i + off, j) =~= pt) by {
            assert forall|d: int| 0 <= d < pt.len() implies t.subrange(i + off, j)[d] == pt[d]
            by {
                assert(t[i + off + d] == seg[off + d]);
            }
        }
        lemma_value_complete(t, i + off, ps[k].1);
        assert(t.subrange(j, j + rest.len()) =~= rest) by {
            assert forall|d: int| 0 <= d < rest.len() implies t.subrange(j, j + rest.len())[d]
                == rest[d] by {
                assert(t[j + d] == seg[off + pt.len() + d]);
            }
        }
        lemma_object_items_complete(t, j, ps, k + 1);
        assert(sp_object_items(t, j, false) == Ok::<int, JsonError>(i + l));
        if k == 0 {
            assert(sp_value(t, i + 2) == Ok::<int, JsonError>(j));
            assert(sp_object_pair(t, i) == Ok::<int, JsonError>(i + l));
        } else {
            assert(sp_value(t, i + 3) == Ok::<int, JsonError>(j));
            assert(sp_object_pair(t, i + 1) == Ok::<int, JsonError>(i + l));
            assert(!(t[i + 1] is RightBrace));
        }
    }
}

/// Completeness of the array-element automaton, from the `k`-th element on.
pub proof fn lemma_array_items_complete(t: Seq<SpecToken>, i: int, vs: Seq<JsonValue>, k: int)
    requires
        0 <= k <= vs.len(),
        0 <= i,
        i + array_items_tokens(vs, k).len() <= t.len(),
        t.subrange(i, i + array_items_tokens(vs, k).len()) == array_items_tokens(vs, k),
    ensures
        sp_array_items(t, i, k == 0) == Ok::<int, JsonError>(i + array_items_tokens(vs, k).len()),
    decreases vs, vs.len() - k,
{
    let seg = array_items_tokens(vs, k);
    let l = seg.len() as int;
    assert forall|d: int| 0 <= d < l implies t[i + d] == seg[d] by {
        assert(t.subrange(i, i + l)[d] == t[i + d]);
    }
    if k >= vs.len() {
        // only the closing bracket: both automaton states accept it
        assert(t[i] == seg[0]);
        assert(t[i] is RightBracket);
    } else {
        let off: int = if k == 0 {
            0
        } else {
            1
        };
        let pt = value_tokens(vs[k]);
        let rest = array_items_tokens(vs, k + 1);
        let j = i + off + pt.len();
        assert(rest.len() >= 1);
        lemma_value_tokens_first(vs[k]);
        if k > 0 {
            assert(t[i] == seg[0]);
            assert(t[i] is Comma);
            assert(t[i + 1] == seg[1]);
            assert(t[i + 1] == pt[0]);
        } else {
            assert(t[i] == seg[0]);
            assert(t[i] == pt[0]);
        }
        assert(t.subrange(i + off, j) =~= pt) by {
            assert forall|d: int| 0 <= d < pt.len() implies t.subrange(i + off, j)[d] == pt[d]
            by {
                assert(t[i + off + d] == seg[off + d]);
            }
        }
        lemma_value_complete(t, i + off, vs[k]);
        assert(t.subrange(j, j + rest.len()) =~= rest) by {
            assert forall|d: int| 0 <= d < rest.len() implies t.subrange(j, j + rest.len())[d]
                == rest[d] by {
                assert(t[j + d] == seg[off + pt.len() + d]);
            }
        }
        lemma_array_items_complete(t, j, vs, k + 1);
        assert(sp_array_items(t, j, false) == Ok::<int, JsonError>(i + l));
        assert(sp_value(t, i + off) == Ok::<int, JsonError>(j));
        if k > 0 {
            assert(!(t[i + 1] is RightBracket));
        } else {
            assert(!(t[i] is RightBracket));
            assert(!(t[i] is Comma));
        }
    }
}

/// Law: completeness of the validator.  Every text whose lexing yields the
/// token rendering of a well-formed JSON object — objects, arrays,
/// strings, numbers, booleans and nulls nested to any depth — validates
/// successfully.
pub proof fn lemma_wellformed_object_validates(text: Seq<char>, v: JsonValue)
    requires
        v is Object,
        crate::lexer::spec_lex(text, 0) == Ok::<Seq<SpecToken>, JsonError>(value_tokens(v)),
    ensures
        crate::spec_validate(text) == Ok::<(), JsonError>(()),
{
    let t = value_tokens(v);
    assert(t.subrange(0, t.len() as int) =~= t);
    lemma_value_complete(t, 0, v);
    assert(t[0] == SpecToken::LeftBrace) by {
        assert(t.subrange(0, t.len() as int)[0] == t[0]);
    }
}

/// Law: every well-formed JSON object literal validates.  For any
/// well-formed object value — objects, arrays, clean strings, numbers,
/// booleans and nulls, nested to any depth — the canonical rendering of
/// the value passes validation.
pub proof fn lemma_rendered_object_validates(v: JsonValue)
    requires
        v is Object,
        wf_value(v),
    ensures
        crate::spec_validate(render_value(v)) == Ok::<(), JsonError>(()),
{
    let s = render_value(v);
    lemma_lex_render_value(s, 0, v);
    assert(crate::lexer::spec_lex(s, s.len() as int) == Ok::<Seq<SpecToken>, JsonError>(
        Seq::empty(),
    ));
    assert(value_tokens(v) + Seq::<SpecToken>::empty() =~= value_tokens(v));
    assert(crate::lexer::spec_lex(s, 0) == Ok::<Seq<SpecToken>, JsonError>(value_tokens(v)));
    lemma_wellformed_object_validates(s, v);
}

/// Law: validation is deterministic.  [`crate::validate`] ensures its
/// result equals `spec_validate` of the text, so any two results of
/// validating the same text are the same verdict and, on failure, carry
/// the identical diagnostic.
pub proof fn lemma_validate_deterministic(
    t: Seq<char>,
    r1: Result<(), JsonError>,
    r2: Result<(), JsonError>,
)
    requires
        r1 == crate::spec_validate(t),
        r2 == crate::spec_validate(t),
    ensures
        r1 == r2,
        (r1 is Err && r2 is Err) ==> crate::token::message_of(r1->Err_0)
            == crate::token::message_of(r2->Err_0),
{
}

} // verus!
