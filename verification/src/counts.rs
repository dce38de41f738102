//! Byte, line, word and character counting over text that a caller has
//! already read in.
//!
//! Line counting follows the usual convention: a line is what a line
//! terminator ends, and a final fragment without a terminator still
//! counts.  A word is a maximal run of non-whitespace characters.

use vstd::prelude::*;
use vstd::string::StrSliceExecFns;
use vstd::string::StringSliceAdditionalSpecFns;
use crate::chars::{is_space, space_char};

verus! {

/// Line, word and byte counts of one text.
pub struct Counts {
    pub lines: usize,
    pub words: usize,
    pub bytes: usize,
}

/// The number of newline characters in `s`.
pub open spec fn newline_count(s: Seq<char>) -> nat
    decreases s.len(),
{
    if s.len() == 0 {
        0
    } else {
        newline_count(s.drop_last()) + (if s.last() == '\n' {
            1nat
        } else {
            0nat
        })
    }
}

/// The number of lines of `s`: one per newline, plus one for a nonempty
/// final fragment without a trailing newline.
pub open spec fn spec_line_count(s: Seq<char>) -> nat {
    newline_count(s) + (if s.len() > 0 && s.last() != '\n' {
        1nat
    } else {
        0nat
    })
}

/// The number of words from position `i` on, given whether position `i`
/// stands inside a word begun earlier.
pub open spec fn words_from(s: Seq<char>, i: int, in_word: bool) -> nat
    decreases s.len() - i
        when 0 <= i <= s.len()
{
    if i >= s.len() {
        0
    } else if is_space(s[i]) {
        words_from(s, i + 1, false)
    } else {
        (if in_word {
            0nat
        } else {
            1nat
        }) + words_from(s, i + 1, true)
    }
}

/// The number of maximal whitespace-separated words of `s`.
pub open spec fn spec_word_count(s: Seq<char>) -> nat {
    words_from(s, 0, false)
}

/// The byte count of a text handed over as raw bytes.
pub fn count_bytes(contents: &[u8]) -> (n: usize)
    ensures
        n == contents@.len(),
{
    contents.len()
}

/// There cannot be more newlines than characters.
pub proof fn lemma_newline_count_le(s: Seq<char>)
    ensures
        newline_count(s) <= s.len(),
    decreases s.len(),
{
    if s.len() > 0 {
        lemma_newline_count_le(s.drop_last());
    }
}

/// The line count of `contents`.
#[verifier::loop_isolation(false)]
pub fn count_lines(contents: &str) -> (r: usize)
    ensures
        r == spec_line_count(contents@),
{
    let ghost s = contents@;
    let n = contents.unicode_len();
    let mut nl: usize = 0;
    let mut i: usize = 0;
    while i < n
        invariant
            i <= n,
            n == s.len(),
            nl <= i,
            nl == newline_count(s.subrange(0, i as int)),
        decreases n - i,
    {
        let c = contents.get_char(i);
        proof {
            assert(s.subrange(0, i + 1).drop_last() =~= s.subrange(0, i as int));
            assert(s.subrange(0, i + 1).last() == s[i as int]);
        }
        if c == '\n' {
            nl = nl + 1;
        }
        i = i + 1;
    }
    proof {
        assert(s.subrange(0, n as int) =~= s);
    }
    if n > 0 {
        let last = contents.get_char(n - 1);
        if last != '\n' {
            proof {
                lemma_newline_count_le(s.drop_last());
                assert(newline_count(s) == newline_count(s.drop_last()));
            }
            return nl + 1;
        }
    }
    nl
}

/// The word count of `contents`.
#[verifier::loop_isolation(false)]
pub fn count_words(contents: &str) -> (r: usize)
    ensures
        r == spec_word_count(contents@),
{
    let ghost s = contents@;
    let n = contents.unicode_len();
    let mut count: usize = 0;
    let mut in_word: bool = false;
    let mut i: usize = 0;
    while i < n
        invariant
            i <= n,
            n == s.len(),
            count <= i,
            count + words_from(s, i as int, in_word) == spec_word_count(s),
        decreases n - i,
    {
        let c = contents.get_char(i);
        if space_char(c) {
            in_word = false;
        } else {
            if !in_word {
                count = count + 1;
            }
            in_word = true;
        }
        i = i + 1;
    }
    count
}

/// The character count of `contents`.
pub fn count_chars(contents: &str) -> (r: usize)
    ensures
        r == contents@.len(),
{
    contents.unicode_len()
}

/// All three counts of one text in a single record: lines, words, and the
/// text's length in bytes.
pub fn count_all(contents: &str) -> (c: Counts)
    ensures
        c.lines == spec_line_count(contents@),
        c.words == spec_word_count(contents@),
        c.bytes == contents.spec_bytes().len() as usize,
{
    let bytes = contents.len();
    let words = count_words(contents);
    let lines = count_lines(contents);
    Counts { lines, words, bytes }
}

} // verus!
