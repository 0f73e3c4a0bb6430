//! The regular-expression capability: a compiled pattern with `is_match` and
//! `find_all` over byte lines. The engine is external; its results are named,
//! and everything downstream of them is verified against those names.

use vstd::prelude::*;

use crate::compose::spans_wf;

verus! {

#[verifier::external_type_specification]
#[verifier::external_body]
pub struct ExRegex(regex::bytes::Regex);

#[verifier::external_type_specification]
#[verifier::external_body]
pub struct ExRegexError(regex::Error);

/// Whether the pattern, compiled with the given case-insensitivity and
/// Unicode settings (and multi-line mode on), matches anywhere in the line.
/// The result depends on these arguments alone.
pub uninterp spec fn regex_match(
    pattern: Seq<char>,
    case_insensitive: bool,
    unicode: bool,
    line: Seq<u8>,
) -> bool;

/// Whether the engine accepts the pattern under the given settings: within
/// one engine version, compilation succeeds or fails as a function of the
/// pattern and the settings alone.
pub uninterp spec fn regex_compiles(
    pattern: Seq<char>,
    case_insensitive: bool,
    unicode: bool,
) -> bool;

/// The successive non-overlapping match spans of the pattern in the line,
/// leftmost first. The result depends on these arguments alone.
pub uninterp spec fn regex_spans(
    pattern: Seq<char>,
    case_insensitive: bool,
    unicode: bool,
    line: Seq<u8>,
) -> Seq<(usize, usize)>;

/// A compiled regular expression together with the pattern text and the
/// settings it was compiled with. Values are only ever produced by
/// [`PatternMatcher::compile`], so the compiled engine always corresponds to
/// the recorded pattern and settings.
pub struct PatternMatcher {
    re: regex::bytes::Regex,
    pattern: String,
    case_insensitive: bool,
    unicode: bool,
}

impl PatternMatcher {
    /// The pattern text this matcher was compiled from.
    pub closed spec fn pattern_spec(&self) -> Seq<char> {
        self.pattern@
    }

    /// Whether the pattern was compiled case-insensitively.
    pub closed spec fn ci_spec(&self) -> bool {
        self.case_insensitive
    }

    /// Whether the pattern was compiled with Unicode support.
    pub closed spec fn unicode_spec(&self) -> bool {
        self.unicode
    }

    /// Relies on regex::bytes::RegexBuilder: `new(pattern)` with the given
    /// `case_insensitive` and `unicode` settings and multi-line mode enabled,
    /// then `build`. Whether `build` succeeds depends on the pattern and the
    /// settings alone; on success the returned matcher records exactly the
    /// pattern and settings it was built from.
    #[verifier::external_body]
    pub(crate) fn compile(pattern: &str, case_insensitive: bool, unicode: bool) -> (r: Result<
        PatternMatcher,
        regex::Error,
    >)
        ensures
            r is Ok <==> regex_compiles(pattern@, case_insensitive, unicode),
            r matches Ok(m) ==> m.pattern_spec() == pattern@ && m.ci_spec() == case_insensitive
                && m.unicode_spec() == unicode,
    {
        let re = regex::bytes::RegexBuilder::new(pattern)
            .unicode(unicode)
            .case_insensitive(case_insensitive)
            .multi_line(true)
            .build()?;
        Ok(PatternMatcher { re, pattern: pattern.to_owned(), case_insensitive, unicode })
    }

    /// Relies on regex::bytes::Regex::is_match: true exactly when the
    /// compiled pattern matches somewhere in the line. The engine is
    /// deterministic, so the result is a function of the pattern, its
    /// settings and the line.
    #[verifier::external_body]
    pub(crate) fn is_match(&self, line: &[u8]) -> (r: bool)
        ensures
            r == regex_match(self.pattern_spec(), self.ci_spec(), self.unicode_spec(), line@),
    {
        self.re.is_match(line)
    }

    /// Relies on regex::bytes::Regex::find_iter: it yields the successive
    /// non-overlapping matches in the line, leftmost first, each a byte range
    /// with `start <= end <= line.len()`, and yields at least one match
    /// exactly when `is_match` holds.
    #[verifier::external_body]
    pub(crate) fn find_spans(&self, line: &[u8]) -> (r: Vec<(usize, usize)>)
        ensures
            r@ == regex_spans(self.pattern_spec(), self.ci_spec(), self.unicode_spec(), line@),
            spans_wf(r@, line@.len() as int),
            r@.len() > 0 <==> regex_match(
                self.pattern_spec(),
                self.ci_spec(),
                self.unicode_spec(),
                line@,
            ),
    {
        self.re.find_iter(line).map(|m| (m.start(), m.end())).collect()
    }
}

} // verus!
