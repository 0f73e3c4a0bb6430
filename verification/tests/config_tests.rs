use grepox::config::{auto_select, classify_plain_text, ConfigParser, ConfigState, Flags};
use grepox::matcher::MatchOn;

#[test]
fn classifier_plain_text_query() {
    assert!(classify_plain_text(b"hello world"));
}

#[test]
fn classifier_rejects_metacharacters() {
    assert!(!classify_plain_text(b"a.*b"));
}

#[test]
fn classifier_accepts_safe_punctuation() {
    assert!(classify_plain_text(b";:~!@#%&-_=,<>/'\" aZ09"));
}

#[test]
fn classifier_rejects_each_metacharacter() {
    for q in [
        &b"a("[..],
        b"a)",
        b"a[",
        b"a]",
        b"a*",
        b"a+",
        b"a?",
        b"a.",
        b"a\\",
        b"a|",
        b"a^",
        b"a$",
        b"a{",
    ] {
        assert!(!classify_plain_text(q), "query {:?} should not be plain", q);
    }
}

#[test]
fn classifier_empty_query_is_plain() {
    assert!(classify_plain_text(b""));
}

#[test]
fn parser_sets_flags() {
    let mut p = ConfigParser::new();
    let consumed = p.run(b"-in");
    assert!(consumed);
    assert!(p.flags.case_insensitive);
    assert!(p.flags.show_lines);
    assert!(!p.flags.invert);
    assert_eq!(p.state, ConfigState::Space);
}

#[test]
fn parser_sets_every_switch() {
    let mut p = ConfigParser::new();
    assert!(p.run(b"-ivFcUqnl"));
    assert!(p.flags.case_insensitive);
    assert!(p.flags.invert);
    assert!(p.flags.string_search);
    assert!(p.flags.color);
    assert!(p.flags.no_unicode);
    assert!(p.flags.quiet);
    assert!(p.flags.show_lines);
    assert!(p.flags.list);
}

#[test]
fn parser_match_modes() {
    let mut p = ConfigParser::new();
    assert!(p.run(b"-w"));
    assert_eq!(p.match_on, MatchOn::Word);
    let mut p = ConfigParser::new();
    assert!(p.run(b"-x"));
    assert_eq!(p.match_on, MatchOn::Line);
}

#[test]
fn parser_max_with_equals() {
    let mut p = ConfigParser::new();
    assert!(p.run(b"-m=10"));
    assert_eq!(p.max, 10);
}

#[test]
fn parser_max_with_space() {
    let mut p = ConfigParser::new();
    assert!(p.run(b"-m 7"));
    assert_eq!(p.max, 7);
}

#[test]
fn parser_double_dash_ends_flags() {
    let mut p = ConfigParser::new();
    assert!(!p.run(b"--"));
    assert_eq!(p.state, ConfigState::End);
}

#[test]
fn parser_non_flag_argument_ends_flags() {
    let mut p = ConfigParser::new();
    assert!(!p.run(b"file.txt"));
    assert_eq!(p.state, ConfigState::End);
}

#[test]
fn parser_unknown_flag_is_invalid() {
    let mut p = ConfigParser::new();
    assert!(p.run(b"-z"));
    assert_eq!(p.state, ConfigState::Invalid);
}

#[test]
fn parser_help_flag() {
    let mut p = ConfigParser::new();
    assert!(p.run(b"-h"));
    assert_eq!(p.state, ConfigState::Help);
}

#[test]
fn parser_max_missing_digits_is_invalid() {
    let mut p = ConfigParser::new();
    assert!(p.run(b"-m=x"));
    assert_eq!(p.state, ConfigState::Invalid);
}

#[test]
fn parser_max_overflow_is_invalid() {
    let mut p = ConfigParser::new();
    assert!(p.run(b"-m=99999999999999999999"));
    assert_eq!(p.state, ConfigState::Invalid);
}

#[test]
fn parser_max_at_limit_is_kept() {
    let mut p = ConfigParser::new();
    assert!(p.run(b"-m=4294967295"));
    assert_eq!(p.max, u32::MAX);
    assert_eq!(p.state, ConfigState::Space);
}

#[test]
fn parser_several_groups() {
    let mut p = ConfigParser::new();
    assert!(p.run(b"-i -m=3 -c"));
    assert!(p.flags.case_insensitive);
    assert!(p.flags.color);
    assert_eq!(p.max, 3);
}

#[test]
fn auto_select_plain_query_switches_to_literal() {
    let flags = Flags::default();
    let r = auto_select(flags, b"plain text");
    assert!(r.string_search);
}

#[test]
fn auto_select_regex_query_keeps_pattern_search() {
    let flags = Flags::default();
    let r = auto_select(flags, b"a.*b");
    assert!(!r.string_search);
}

#[test]
fn auto_select_keeps_forced_literal() {
    let mut flags = Flags::default();
    flags.string_search = true;
    let r = auto_select(flags, b"a.*b");
    assert!(r.string_search);
}

#[test]
fn flags_default_all_off() {
    let f = Flags::default();
    assert!(
        !f.case_insensitive
            && !f.show_lines
            && !f.invert
            && !f.string_search
            && !f.color
            && !f.no_unicode
            && !f.quiet
            && !f.multiple_files
            && !f.list
    );
}

#[test]
fn config_record_carries_the_run() {
    let cfg = grepox::config::Config {
        query: String::from("needle"),
        filenames: vec![b"a.txt".to_vec(), b"b.txt".to_vec()],
        max: 2,
        flags: Flags::default(),
        match_on: MatchOn::Anywhere,
    };
    assert_eq!(cfg.query, "needle");
    assert_eq!(cfg.filenames.len(), 2);
    assert_eq!(cfg.max, 2);
    assert_eq!(cfg.match_on, MatchOn::Anywhere);
}
