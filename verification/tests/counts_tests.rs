//! Tests of the counting module on concrete texts.

use jsonlint::counts::{count_all, count_bytes, count_chars, count_lines, count_words};

#[test]
fn test_count_chars_exact() {
    // each character counts once, however many bytes it takes
    assert_eq!(count_chars("Hello, 世界!\n"), 11);
    assert_eq!(count_chars(""), 0);
    assert_eq!(count_chars("世界"), 2);
}

#[test]
fn test_count_all() {
    let test_content = "Line 1 words\nLine 2 more\nLine 3 text\n";
    let result = count_all(test_content);
    assert_eq!(result.lines, 3);
    assert_eq!(result.words, 9);
    assert_eq!(result.bytes, test_content.len());
}

#[test]
fn test_count_bytes_exact() {
    assert_eq!(count_bytes(b"abc"), 3);
    assert_eq!(count_bytes(b""), 0);
    // multi-byte characters count per byte
    assert_eq!(count_bytes("世界".as_bytes()), 6);
}

#[test]
fn test_count_lines_exact() {
    assert_eq!(count_lines(""), 0);
    assert_eq!(count_lines("one line, no terminator"), 1);
    assert_eq!(count_lines("a\nb\n"), 2);
    assert_eq!(count_lines("a\nb"), 2);
    assert_eq!(count_lines("\n\n\n"), 3);
    assert_eq!(count_lines("a\n\nb"), 3);
}

#[test]
fn test_count_words_exact() {
    assert_eq!(count_words(""), 0);
    assert_eq!(count_words("   \t\n  "), 0);
    assert_eq!(count_words("one"), 1);
    assert_eq!(count_words("  spread \t out\nwords  "), 3);
    assert_eq!(count_words("a b c d e"), 5);
}

#[test]
fn test_count_all_empty() {
    let result = count_all("");
    assert_eq!(result.lines, 0);
    assert_eq!(result.words, 0);
    assert_eq!(result.bytes, 0);
}
