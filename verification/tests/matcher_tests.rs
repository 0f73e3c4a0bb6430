use grepox::config::Flags;
use grepox::matcher::{
    build_matcher, contains_bytes, find_all_anywhere, literal_is_match, BuildError, MatchOn,
    MatcherHandle,
};
use grepox::pipeline::check_regex;
use grepox::regex_cap::PatternMatcher;
use grepox::trait_ext::Words;

fn compile_regex(pattern: &str, case_insensitive: bool) -> PatternMatcher {
    match build_matcher(pattern, false, case_insensitive, false, MatchOn::Anywhere) {
        Ok(MatcherHandle::Pattern(pm)) => pm,
        _ => panic!("expected a compiled pattern"),
    }
}

fn regex_is_match(pm: &PatternMatcher, line: &[u8]) -> bool {
    let mut buf = Vec::new();
    check_regex(&mut buf, Flags::default(), line, pm)
}

#[test]
fn word_mode_matches_whole_token() {
    assert!(literal_is_match(b"foo bar baz", b"bar", MatchOn::Word));
}

#[test]
fn word_mode_rejects_partial_token() {
    assert!(!literal_is_match(b"foo bar baz", b"ba", MatchOn::Word));
}

#[test]
fn word_mode_skips_empty_tokens() {
    assert!(!literal_is_match(b"foo  bar", b"", MatchOn::Word));
}

#[test]
fn word_mode_boundaries_include_tabs_and_high_bytes() {
    assert!(literal_is_match(b"a\tbar\xffbaz", b"bar", MatchOn::Word));
}

#[test]
fn anywhere_mode_substring() {
    assert!(literal_is_match(b"hello world", b"lo wo", MatchOn::Anywhere));
    assert!(!literal_is_match(b"hello world", b"low", MatchOn::Anywhere));
}

#[test]
fn anywhere_empty_pattern_matches() {
    assert!(contains_bytes(b"anything", b""));
    assert!(contains_bytes(b"", b""));
}

#[test]
fn line_mode_exact_only() {
    assert!(literal_is_match(b"hello", b"hello", MatchOn::Line));
    assert!(!literal_is_match(b"hello world", b"hello", MatchOn::Line));
}

#[test]
fn find_all_non_overlapping_left_to_right() {
    let spans = find_all_anywhere(b"aaaaa", b"aa");
    assert_eq!(spans, vec![(0, 2), (2, 4)]);
}

#[test]
fn find_all_resumes_past_occurrence() {
    let spans = find_all_anywhere(b"abababa", b"aba");
    assert_eq!(spans, vec![(0, 3), (4, 7)]);
}

#[test]
fn find_all_empty_pattern_every_position() {
    let spans = find_all_anywhere(b"ab", b"");
    assert_eq!(spans, vec![(0, 0), (1, 1), (2, 2)]);
}

#[test]
fn words_spans_in_order() {
    let line: &[u8] = b"foo bar";
    assert_eq!(line.words(), vec![(0, 3), (4, 7)]);
}

#[test]
fn words_collapse_boundaries() {
    let line: &[u8] = b"  foo\t\tbar  ";
    assert_eq!(line.words(), vec![(2, 5), (7, 10)]);
}

#[test]
fn words_empty_line() {
    let line: &[u8] = b"";
    assert!(line.words().is_empty());
}

// For plain-text queries, the literal matcher and the regex engine given the
// same query must agree on every line of a fixed corpus.
#[test]
fn literal_and_regex_agree_on_plain_queries() {
    let corpus: [&[u8]; 6] = [
        b"hello world",
        b"foo bar baz",
        b"xyzzy",
        b"",
        b"hello",
        b"say hello twice hello",
    ];
    for query in ["hello", "bar", "xyz", "o w", "nope"] {
        let pm = compile_regex(query, false);
        for line in corpus {
            let lit = literal_is_match(line, query.as_bytes(), MatchOn::Anywhere);
            let re = regex_is_match(&pm, line);
            assert_eq!(lit, re, "disagree on query {:?} line {:?}", query, line);
        }
    }
}

#[test]
fn build_matcher_literal_folds_pattern() {
    let m = build_matcher("HeLLo", true, true, false, MatchOn::Anywhere).unwrap();
    match m {
        MatcherHandle::Literal { pattern, mode } => {
            assert_eq!(pattern, b"hello".to_vec());
            assert_eq!(mode, MatchOn::Anywhere);
        }
        MatcherHandle::Pattern(_) => panic!("expected a literal matcher"),
    }
}

#[test]
fn build_matcher_reports_compile_error() {
    let r = build_matcher("a(", false, false, false, MatchOn::Anywhere);
    match r {
        Err(BuildError::RegexCompile(_)) => {}
        Ok(_) => panic!("expected a compile error"),
    }
}

#[test]
fn regex_case_insensitive_setting() {
    let pm = compile_regex("hello", true);
    assert!(regex_is_match(&pm, b"say HELLO"));
    let pm = compile_regex("hello", false);
    assert!(!regex_is_match(&pm, b"say HELLO"));
}

#[test]
fn regex_highlight_covers_every_engine_span() {
    let pm = compile_regex("o+", false);
    let mut flags = Flags::default();
    flags.color = true;
    let mut buf = Vec::new();
    assert!(check_regex(&mut buf, flags, b"foo booo", &pm));
    let mut expected = Vec::new();
    expected.extend_from_slice(b"f");
    expected.extend_from_slice(b"\x1b[31;1m");
    expected.extend_from_slice(b"oo");
    expected.extend_from_slice(b"\x1b[m");
    expected.extend_from_slice(b" b");
    expected.extend_from_slice(b"\x1b[31;1m");
    expected.extend_from_slice(b"ooo");
    expected.extend_from_slice(b"\x1b[m");
    assert_eq!(buf, expected);
}
