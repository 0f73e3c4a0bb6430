use grepox::config::Flags;
use grepox::matcher::{build_matcher, MatchOn, MatcherHandle};
use grepox::pipeline::{check_regex, check_string, grep_source, print_match, RunState, SourceSummary};
use grepox::trait_ext::ExitStatus;
use grepox::regex_cap::PatternMatcher;

const OPEN: &[u8] = b"\x1b[31;1m";
const CLOSE: &[u8] = b"\x1b[m";

fn literal(pat: &[u8], mode: MatchOn) -> MatcherHandle {
    MatcherHandle::Literal { pattern: pat.to_vec(), mode }
}

fn compiled(pattern: &str) -> PatternMatcher {
    match build_matcher(pattern, false, false, false, MatchOn::Anywhere) {
        Ok(MatcherHandle::Pattern(pm)) => pm,
        _ => panic!("expected a compiled pattern"),
    }
}

#[test]
fn print_match_all_metadata() {
    let mut out = Vec::new();
    print_match(&mut out, 1, b"content\n", true, b"file", true);
    assert_eq!(out, b"file:2:content\n".to_vec());
}

#[test]
fn print_match_line_number_only() {
    let mut out = Vec::new();
    print_match(&mut out, 9, b"content", true, b"file", false);
    assert_eq!(out, b"10:content".to_vec());
}

#[test]
fn print_match_bare() {
    let mut out = Vec::new();
    print_match(&mut out, 0, b"content", false, b"file", false);
    assert_eq!(out, b"content".to_vec());
}

#[test]
fn check_string_case_insensitive_emits_folded_line() {
    let mut buf = Vec::new();
    let mut flags = Flags::default();
    flags.case_insensitive = true;
    let m = check_string(&mut buf, flags, MatchOn::Anywhere, b"HeLLo World", b"hello");
    assert!(m);
    assert_eq!(buf, b"hello world".to_vec());
}

#[test]
fn check_string_invert_flips_decision() {
    let mut buf = Vec::new();
    let flags = Flags::default();
    assert!(check_string(&mut buf, flags, MatchOn::Anywhere, b"abc", b"b"));
    let mut inverted = flags;
    inverted.invert = true;
    assert!(!check_string(&mut buf, inverted, MatchOn::Anywhere, b"abc", b"b"));
    assert!(check_string(&mut buf, inverted, MatchOn::Anywhere, b"abc", b"z"));
}

#[test]
fn check_string_color_highlights_every_occurrence() {
    let mut buf = Vec::new();
    let mut flags = Flags::default();
    flags.color = true;
    let m = check_string(&mut buf, flags, MatchOn::Anywhere, b"foo bar foo", b"foo");
    assert!(m);
    let mut expected = Vec::new();
    expected.extend_from_slice(OPEN);
    expected.extend_from_slice(b"foo");
    expected.extend_from_slice(CLOSE);
    expected.extend_from_slice(b" bar ");
    expected.extend_from_slice(OPEN);
    expected.extend_from_slice(b"foo");
    expected.extend_from_slice(CLOSE);
    assert_eq!(buf, expected);
}

#[test]
fn check_string_color_with_invert_prints_plain() {
    let mut buf = Vec::new();
    let mut flags = Flags::default();
    flags.color = true;
    flags.invert = true;
    let m = check_string(&mut buf, flags, MatchOn::Anywhere, b"no hits here", b"zzz");
    assert!(m);
    assert_eq!(buf, b"no hits here".to_vec());
}

#[test]
fn check_string_word_color_joins_tokens_with_single_space() {
    let mut buf = Vec::new();
    let mut flags = Flags::default();
    flags.color = true;
    let m = check_string(&mut buf, flags, MatchOn::Word, b"foo  bar", b"bar");
    assert!(m);
    let mut expected = Vec::new();
    expected.extend_from_slice(b"foo ");
    expected.extend_from_slice(OPEN);
    expected.extend_from_slice(b"bar");
    expected.extend_from_slice(CLOSE);
    assert_eq!(buf, expected);
}

#[test]
fn check_string_line_mode_never_colors() {
    let mut buf = Vec::new();
    let mut flags = Flags::default();
    flags.color = true;
    let m = check_string(&mut buf, flags, MatchOn::Line, b"exact", b"exact");
    assert!(m);
    assert_eq!(buf, b"exact".to_vec());
}

#[test]
fn check_regex_color_uses_engine_spans() {
    let pm = compiled("o+");
    let mut buf = Vec::new();
    let mut flags = Flags::default();
    flags.color = true;
    let m = check_regex(&mut buf, flags, b"foo", &pm);
    assert!(m);
    let mut expected = Vec::new();
    expected.extend_from_slice(b"f");
    expected.extend_from_slice(OPEN);
    expected.extend_from_slice(b"oo");
    expected.extend_from_slice(CLOSE);
    assert_eq!(buf, expected);
}

#[test]
fn check_regex_invert() {
    let pm = compiled("a.*b");
    let mut buf = Vec::new();
    let mut flags = Flags::default();
    flags.invert = true;
    assert!(!check_regex(&mut buf, flags, b"xaYYbz", &pm));
    assert!(check_regex(&mut buf, flags, b"nothing", &pm));
    assert_eq!(buf, b"nothing".to_vec());
}

// Given 5 matching lines in one file and max=3, exactly 3 records are
// emitted and scanning stops before the fourth match.
#[test]
fn max_cap_stops_after_three_records() {
    let contents = b"match 1\nmatch 2\nmatch 3\nmatch 4\nmatch 5\n";
    let m = literal(b"match", MatchOn::Anywhere);
    let mut out = Vec::new();
    let summary = grep_source(&mut out, &m, Flags::default(), 3, b"file", contents);
    assert_eq!(out, b"match 1\nmatch 2\nmatch 3\n".to_vec());
    assert_eq!(summary.matches, 3);
    assert!(!summary.quiet_hit);
}

// In quiet mode a matching first line terminates the scan at once with
// nothing emitted.
#[test]
fn quiet_mode_emits_nothing() {
    let contents = b"hit first\nmore lines\nhit again\n";
    let m = literal(b"hit", MatchOn::Anywhere);
    let mut flags = Flags::default();
    flags.quiet = true;
    let mut out = Vec::new();
    let summary = grep_source(&mut out, &m, flags, 0, b"file", contents);
    assert!(out.is_empty());
    assert!(summary.quiet_hit);
}

#[test]
fn quiet_mode_without_match_fails_quietly() {
    let m = literal(b"absent", MatchOn::Anywhere);
    let mut flags = Flags::default();
    flags.quiet = true;
    let mut out = Vec::new();
    let summary = grep_source(&mut out, &m, flags, 0, b"file", b"a\nb\n");
    assert!(out.is_empty());
    assert!(!summary.quiet_hit);
    assert_eq!(summary.matches, 0);
}

// The set of lines reported with invert on is exactly the complement of the
// set reported with invert off.
#[test]
fn invert_reports_complement() {
    let corpus: [&[u8]; 5] = [b"foo one", b"two", b"three foo", b"four", b"foo"];
    let flags = Flags::default();
    let mut inverted = flags;
    inverted.invert = true;
    let mut plain_set = Vec::new();
    let mut invert_set = Vec::new();
    for (i, line) in corpus.iter().enumerate() {
        let mut buf = Vec::new();
        if check_string(&mut buf, flags, MatchOn::Anywhere, line, b"foo") {
            plain_set.push(i);
        }
        if check_string(&mut buf, inverted, MatchOn::Anywhere, line, b"foo") {
            invert_set.push(i);
        }
    }
    assert_eq!(plain_set, vec![0, 2, 4]);
    assert_eq!(invert_set, vec![1, 3]);
    for i in 0..corpus.len() {
        assert_eq!(plain_set.contains(&i), !invert_set.contains(&i));
    }
}

#[test]
fn list_mode_emits_name_once_and_stops() {
    let contents = b"x\nhit\nhit\n";
    let m = literal(b"hit", MatchOn::Anywhere);
    let mut flags = Flags::default();
    flags.list = true;
    let mut out = Vec::new();
    let summary = grep_source(&mut out, &m, flags, 0, b"somefile", contents);
    assert_eq!(out, b"somefile\n".to_vec());
    assert!(summary.listed);
    assert_eq!(summary.matches, 0);
}

#[test]
fn records_carry_name_and_line_numbers() {
    let contents = b"a\nhit\n";
    let m = literal(b"hit", MatchOn::Anywhere);
    let mut flags = Flags::default();
    flags.show_lines = true;
    flags.multiple_files = true;
    let mut out = Vec::new();
    let summary = grep_source(&mut out, &m, flags, 0, b"f.txt", contents);
    assert_eq!(out, b"f.txt:2:hit\n".to_vec());
    assert_eq!(summary.matches, 1);
}

#[test]
fn unterminated_final_line_is_kept_unterminated() {
    let m = literal(b"hit", MatchOn::Anywhere);
    let mut out = Vec::new();
    let summary = grep_source(&mut out, &m, Flags::default(), 0, b"f", b"hit");
    assert_eq!(out, b"hit".to_vec());
    assert_eq!(summary.matches, 1);
}

#[test]
fn line_mode_compares_without_terminator() {
    let m = literal(b"exact", MatchOn::Line);
    let mut out = Vec::new();
    let summary = grep_source(&mut out, &m, Flags::default(), 0, b"f", b"exact\nexactly\n");
    assert_eq!(out, b"exact\n".to_vec());
    assert_eq!(summary.matches, 1);
}

#[test]
fn grep_source_with_regex_matcher() {
    let m = MatcherHandle::Pattern(compiled("b.r"));
    let mut out = Vec::new();
    let summary = grep_source(&mut out, &m, Flags::default(), 0, b"f", b"bar\nbzz\nbor\n");
    assert_eq!(out, b"bar\nbor\n".to_vec());
    assert_eq!(summary.matches, 2);
}

#[test]
fn empty_source_produces_nothing() {
    let m = literal(b"x", MatchOn::Anywhere);
    let mut out = Vec::new();
    let summary = grep_source(&mut out, &m, Flags::default(), 0, b"f", b"");
    assert!(out.is_empty());
    assert_eq!(summary.matches, 0);
}

#[test]
fn run_state_counts_and_exit_status() {
    let mut run = RunState::new();
    assert_eq!(run.exit_status(), ExitStatus::Failure);
    run.absorb(SourceSummary { matches: 0, quiet_hit: false, listed: false });
    assert_eq!(run.exit_status(), ExitStatus::Failure);
    run.absorb(SourceSummary { matches: 2, quiet_hit: false, listed: false });
    run.absorb(SourceSummary { matches: 3, quiet_hit: false, listed: false });
    assert_eq!(run.total_matches, 5);
    assert_eq!(run.exit_status(), ExitStatus::Success);
}

#[test]
fn run_state_quiet_hit_wins() {
    let mut run = RunState::new();
    run.absorb(SourceSummary { matches: 0, quiet_hit: true, listed: false });
    assert!(run.quiet_hit);
    assert_eq!(run.exit_status(), ExitStatus::Success);
}

#[test]
fn color_literal_output_strips_back_to_line() {
    let mut buf = Vec::new();
    let mut flags = Flags::default();
    flags.color = true;
    assert!(check_string(&mut buf, flags, MatchOn::Anywhere, b"foo bar foo", b"foo"));
    assert_eq!(grepox::compose::strip_markers(&buf), b"foo bar foo".to_vec());
}

#[test]
fn color_regex_output_strips_back_to_line() {
    let pm = compiled("o+");
    let mut buf = Vec::new();
    let mut flags = Flags::default();
    flags.color = true;
    assert!(check_regex(&mut buf, flags, b"foo booo", &pm));
    assert_eq!(grepox::compose::strip_markers(&buf), b"foo booo".to_vec());
}

#[test]
fn max_cap_above_count_reports_all() {
    let contents = b"match 1\nmiss\nmatch 2\n";
    let m = literal(b"match", MatchOn::Anywhere);
    let mut out = Vec::new();
    let summary = grep_source(&mut out, &m, Flags::default(), 10, b"file", contents);
    assert_eq!(out, b"match 1\nmatch 2\n".to_vec());
    assert_eq!(summary.matches, 2);
}
