//! Tests of the greedy word wrapper.

use mdfmt::wrap::wrap_text;

#[test]
fn single_short_token_unchanged() {
    assert_eq!(wrap_text(10, None, "hello"), "hello");
}

#[test]
fn wrapping_idempotent_on_short_line() {
    let once = wrap_text(10, None, "hello");
    let twice = wrap_text(10, None, &once);
    assert_eq!(once, twice);
    assert_eq!(twice, "hello");
}

#[test]
fn exact_fit_stays_on_one_line() {
    assert_eq!(wrap_text(11, None, "aa bb cc dd"), "aa bb cc dd");
}

#[test]
fn overflow_starts_new_line() {
    assert_eq!(wrap_text(5, None, "aa bb cc"), "aa bb\ncc");
}

#[test]
fn prefix_seeds_first_line_and_indents_continuations() {
    assert_eq!(wrap_text(8, Some("* "), "one two three"), "* one\n  two\n  three");
}

#[test]
fn long_token_gets_its_own_line_unsplit() {
    assert_eq!(wrap_text(4, None, "abcdefgh ij"), "\nabcdefgh\nij");
}

#[test]
fn oversized_token_flushes_bare_prefix_then_stands_alone() {
    // The first token cannot fit beside the prefix, so the prefix line is
    // flushed on its own and the token stands on a continuation line that
    // exceeds the width (the unsplittable-token exception).
    assert_eq!(wrap_text(6, Some("* "), "abcdefgh x"), "* \n  abcdefgh\n  x");
}

#[test]
fn empty_text_stays_empty() {
    assert_eq!(wrap_text(10, None, ""), "");
}

#[test]
fn no_trailing_space_when_next_token_fits_exactly() {
    // "cc" would have fit the first line's remaining two columns only
    // without its separating space, so the line breaks before it and no
    // line ends in whitespace.
    let out = wrap_text(7, None, "aaa bb cc");
    assert_eq!(out, "aaa bb\ncc");
    for line in out.lines() {
        assert!(!line.ends_with(' '));
    }
}

#[test]
fn every_line_fits_width_when_tokens_do() {
    let out = wrap_text(9, None, "one two three four five six");
    for line in out.lines() {
        assert!(line.chars().count() <= 9);
    }
    assert_eq!(out, "one two\nthree\nfour five\nsix");
}
