//! The per-source line pipeline: split a source into lines, decide each line
//! with the selected matcher, format matching records (optionally through the
//! highlight compositor), and enforce the match-cap and quiet terminations.

use vstd::prelude::*;

use crate::compose::{compose, composed, lemma_compose_strip_round_trip, spans_wf, strip_markers_spec};
use crate::config::Flags;
use crate::matcher::{
    fold_if, literal_raw_match, lower_seq, occ_spans, to_lower, to_lowercase_into,
    word_highlight, find_all_anywhere, match_word, literal_is_match, MatchOn, MatcherHandle,
    MatcherModel,
};
use crate::matcher::{lemma_occ_spans_iff_contains, lemma_occ_spans_wf};
use crate::regex_cap::{regex_match, regex_spans, PatternMatcher};
use crate::trait_ext::{ExitStatus, ExtendFromSliceUnchecked, FromBool};

verus! {

/// The decimal digits of `n`, most significant first.
pub open spec fn dec_digits(n: int) -> Seq<u8>
    decreases n,
{
    if n < 10 {
        seq![(48 + n) as u8]
    } else {
        dec_digits(n / 10) + seq![(48 + n % 10) as u8]
    }
}

/// Append the decimal digits of `n`.
pub fn push_decimal(out: &mut Vec<u8>, n: usize)
    ensures
        final(out)@ == old(out)@ + dec_digits(n as int),
    decreases n,
{
    if n < 10 {
        out.push(48 + n as u8);
        assert(out@ =~= old(out)@ + dec_digits(n as int));
    } else {
        push_decimal(out, n / 10);
        out.push(48 + (n % 10) as u8);
        assert(out@ =~= old(out)@ + dec_digits(n as int));
    }
}

/// The metadata prefix of an emitted record: the source name when several
/// sources are active, and the 1-based line number when requested.
pub open spec fn record_prefix(
    index: int,
    show_lines: bool,
    name: Seq<u8>,
    multiple_files: bool,
) -> Seq<u8> {
    if multiple_files {
        if show_lines {
            name + seq![58u8] + dec_digits(index + 1) + seq![58u8]
        } else {
            name + seq![58u8]
        }
    } else if show_lines {
        dec_digits(index + 1) + seq![58u8]
    } else {
        Seq::empty()
    }
}

/// Append one formatted record: the metadata prefix for line `index`
/// followed by the record content.
pub fn print_match(
    out: &mut Vec<u8>,
    index: usize,
    line: &[u8],
    show_lines: bool,
    filename: &[u8],
    multiple_files: bool,
)
    requires
        index < usize::MAX,
    ensures
        final(out)@ == old(out)@ + record_prefix(index as int, show_lines, filename@,
            multiple_files) + line@,
{
    if multiple_files {
        out.extend_from_slice_unchecked(filename);
        out.push(58);
        if show_lines {
            push_decimal(out, index + 1);
            out.push(58);
        }
    } else if show_lines {
        push_decimal(out, index + 1);
        out.push(58);
    }
    out.extend_from_slice_unchecked(line);
    assert(out@ =~= old(out)@ + record_prefix(index as int, show_lines, filename@, multiple_files)
        + line@);
}

/// The offset of the first line-feed byte at or after `i`, or the length of
/// `s` if there is none.
pub open spec fn first_nl(s: Seq<u8>, i: int) -> int
    decreases s.len() - i,
{
    if i >= s.len() {
        s.len() as int
    } else if s[i] == 10 {
        i
    } else {
        first_nl(s, i + 1)
    }
}

/// Basic facts about `first_nl`.
pub proof fn lemma_first_nl(s: Seq<u8>, i: int)
    requires
        0 <= i <= s.len(),
    ensures
        i <= first_nl(s, i) <= s.len(),
        forall|j: int| i <= j < first_nl(s, i) ==> s[j] != 10,
        first_nl(s, i) < s.len() ==> s[first_nl(s, i)] == 10,
    decreases s.len() - i,
{
    if i < s.len() && s[i] != 10 {
        lemma_first_nl(s, i + 1);
    }
}

/// The offset just past the line that starts at `pos`: past its terminator,
/// or the end of the source for an unterminated final line.
pub open spec fn line_end(s: Seq<u8>, pos: int) -> int {
    if first_nl(s, pos) < s.len() {
        first_nl(s, pos) + 1
    } else {
        s.len() as int
    }
}

fn find_line_end(s: &[u8], pos: usize) -> (k: usize)
    requires
        pos <= s@.len(),
    ensures
        k as int == line_end(s@, pos as int),
        pos <= k <= s@.len(),
        pos < s@.len() ==> pos < k,
{
    let mut j: usize = pos;
    loop
        invariant
            pos <= j <= s@.len(),
            first_nl(s@, pos as int) == first_nl(s@, j as int),
        ensures
            pos <= j <= s@.len(),
            first_nl(s@, pos as int) == j,
            j < s@.len() ==> s@[j as int] == 10,
        decreases s@.len() - j,
    {
        if j == s.len() {
            break;
        }
        if s[j] == 10 {
            break;
        }
        j = j + 1;
    }
    if j == s.len() {
        proof {
            lemma_first_nl(s@, pos as int);
        }
        j
    } else {
        j + 1
    }
}

/// The line's content without its terminator.
pub open spec fn line_body(l: Seq<u8>) -> Seq<u8> {
    if l.len() > 0 && l[l.len() - 1] == 10 {
        l.drop_last()
    } else {
        l
    }
}

/// The line's terminator: one line feed, or nothing for an unterminated
/// final line.
pub open spec fn line_term(l: Seq<u8>) -> Seq<u8> {
    if l.len() > 0 && l[l.len() - 1] == 10 {
        seq![10u8]
    } else {
        Seq::empty()
    }
}

/// The match decision for one line body: the matcher's raw result, folded
/// for case-insensitive literal runs, exclusive-or the invert switch. The
/// terminator is excluded from all comparisons.
pub open spec fn line_matches(m: MatcherModel, flags: Flags, body: Seq<u8>) -> bool {
    match m {
        MatcherModel::Literal { pat, mode } => literal_raw_match(
            fold_if(flags.case_insensitive, body),
            pat,
            mode,
        ) != flags.invert,
        MatcherModel::Pattern { pattern, case_insensitive, unicode } => regex_match(
            pattern,
            case_insensitive,
            unicode,
            body,
        ) != flags.invert,
    }
}

/// The content of an emitted record for one matching line body: the
/// highlighted form when color is on and a highlighted form is defined for
/// the strategy, otherwise the (possibly folded) body itself.
pub open spec fn line_content(m: MatcherModel, flags: Flags, body: Seq<u8>) -> Seq<u8> {
    match m {
        MatcherModel::Literal { pat, mode } => {
            let fb = fold_if(flags.case_insensitive, body);
            if flags.color && !flags.invert && mode is Anywhere {
                composed(fb, occ_spans(fb, pat))
            } else if flags.color && !flags.invert && mode is Word {
                word_highlight(fb, pat)
            } else {
                fb
            }
        },
        MatcherModel::Pattern { pattern, case_insensitive, unicode } => {
            if flags.color && !flags.invert {
                composed(body, regex_spans(pattern, case_insensitive, unicode, body))
            } else {
                body
            }
        },
    }
}

/// Whether a matching line produces a record at all: quiet runs emit
/// nothing, and list runs emit only the source name.
pub open spec fn emits_record(flags: Flags) -> bool {
    !flags.quiet && !flags.list
}

/// Decide one line body against a literal pattern and, when a record is
/// owed, leave the record content in `buf`.
pub fn check_string(
    buf: &mut Vec<u8>,
    flags: Flags,
    match_on: MatchOn,
    line: &[u8],
    pattern: &[u8],
) -> (r: bool)
    ensures
        r == (literal_raw_match(fold_if(flags.case_insensitive, line@), pattern@, match_on)
            != flags.invert),
        r && emits_record(flags) ==> final(buf)@ == line_content(
            MatcherModel::Literal { pat: pattern@, mode: match_on },
            flags,
            line@,
        ),
        !(r && emits_record(flags)) ==> final(buf)@ == old(buf)@,
{
    let mut fvec: Vec<u8> = Vec::new();
    let fline: &[u8] = if flags.case_insensitive {
        to_lowercase_into(&mut fvec, line);
        fvec.as_slice()
    } else {
        line
    };
    assert(fline@ == fold_if(flags.case_insensitive, line@));
    if !flags.color || flags.invert || matches!(match_on, MatchOn::Line) {
        let raw = literal_is_match(fline, pattern, match_on);
        let m = raw != flags.invert;
        if m && !flags.quiet && !flags.list {
            buf.clear();
            buf.extend_from_slice_unchecked(fline);
            assert(buf@ =~= fline@);
        }
        m
    } else {
        match match_on {
            MatchOn::Anywhere => {
                let n = fline.len();
                let spans = find_all_anywhere(fline, pattern);
                proof {
                    assert(fline@.len() == n);
                    lemma_occ_spans_iff_contains(fline@, pattern@);
                    lemma_occ_spans_wf(fline@, pattern@, 0);
                }
                if spans.len() == 0 {
                    false
                } else {
                    if !flags.quiet && !flags.list {
                        compose(buf, fline, &spans);
                    }
                    true
                }
            },
            MatchOn::Word => {
                let found = match_word(fline, pattern);
                if found {
                    if !flags.quiet && !flags.list {
                        crate::matcher::word_highlight_into(buf, fline, pattern);
                    }
                    true
                } else {
                    false
                }
            },
            MatchOn::Line => {
                // line mode is always handled by the plain branch above
                assert(false);
                false
            },
        }
    }
}

/// Decide one line body against a compiled regex and, when a record is
/// owed, leave the record content in `buf`.
pub fn check_regex(buf: &mut Vec<u8>, flags: Flags, line: &[u8], pm: &PatternMatcher) -> (r: bool)
    ensures
        r == (regex_match(pm.pattern_spec(), pm.ci_spec(), pm.unicode_spec(), line@)
            != flags.invert),
        r && emits_record(flags) ==> final(buf)@ == line_content(
            MatcherModel::Pattern {
                pattern: pm.pattern_spec(),
                case_insensitive: pm.ci_spec(),
                unicode: pm.unicode_spec(),
            },
            flags,
            line@,
        ),
        !(r && emits_record(flags)) ==> final(buf)@ == old(buf)@,
{
    if flags.color && !flags.invert {
        let spans = pm.find_spans(line);
        if spans.len() == 0 {
            false
        } else {
            if !flags.quiet && !flags.list {
                compose(buf, line, &spans);
            }
            true
        }
    } else {
        let raw = pm.is_match(line);
        let m = raw != flags.invert;
        if m && !flags.quiet && !flags.list {
            buf.clear();
            buf.extend_from_slice_unchecked(line);
            assert(buf@ =~= line@);
        }
        m
    }
}

/// The full record emitted for the matching line `l` at index `idx`.
pub open spec fn line_record(
    m: MatcherModel,
    flags: Flags,
    idx: int,
    name: Seq<u8>,
    l: Seq<u8>,
) -> Seq<u8> {
    record_prefix(idx, flags.show_lines, name, flags.multiple_files) + line_content(
        m,
        flags,
        line_body(l),
    ) + line_term(l)
}

/// What scanning the rest of one source produces: the emitted bytes, the
/// final per-source match count, and whether the quiet short-circuit fired
/// or the source name was listed.
pub ghost struct SourceModel {
    pub out: Seq<u8>,
    pub matches: int,
    pub quiet_hit: bool,
    pub listed: bool,
}

/// The per-source state machine, starting at byte offset `pos` with line
/// index `idx` and `cnt` matches so far: stop when the source is exhausted
/// or the match cap is reached; on a matching line, quiet stops the scan
/// with nothing emitted, list emits the source name once and stops, and
/// otherwise the record is emitted and the count advances.
pub open spec fn source_model(
    m: MatcherModel,
    flags: Flags,
    max: u32,
    name: Seq<u8>,
    s: Seq<u8>,
    pos: int,
    idx: int,
    cnt: int,
) -> SourceModel
    decreases s.len() - pos,
    via source_model_decreases
{
    if pos < 0 || pos >= s.len() {
        SourceModel { out: Seq::empty(), matches: cnt, quiet_hit: false, listed: false }
    } else if max > 0 && cnt >= max {
        SourceModel { out: Seq::empty(), matches: cnt, quiet_hit: false, listed: false }
    } else {
        let k = line_end(s, pos);
        let l = s.subrange(pos, k);
        if line_matches(m, flags, line_body(l)) {
            if flags.quiet {
                SourceModel { out: Seq::empty(), matches: cnt, quiet_hit: true, listed: false }
            } else if flags.list {
                SourceModel {
                    out: name + seq![10u8],
                    matches: cnt,
                    quiet_hit: false,
                    listed: true,
                }
            } else {
                let rest = source_model(m, flags, max, name, s, k, idx + 1, cnt + 1);
                SourceModel {
                    out: line_record(m, flags, idx, name, l) + rest.out,
                    matches: rest.matches,
                    quiet_hit: rest.quiet_hit,
                    listed: rest.listed,
                }
            }
        } else {
            source_model(m, flags, max, name, s, k, idx + 1, cnt)
        }
    }
}

#[via_fn]
proof fn source_model_decreases(
    m: MatcherModel,
    flags: Flags,
    max: u32,
    name: Seq<u8>,
    s: Seq<u8>,
    pos: int,
    idx: int,
    cnt: int,
) {
    if 0 <= pos < s.len() {
        lemma_first_nl(s, pos);
    }
}


/// Decide one whole line (terminator included) and, when a record is owed,
/// leave the record content followed by the line's terminator in `buf`. The
/// terminator is excluded from the match decision.
pub fn check_line(buf: &mut Vec<u8>, matcher: &MatcherHandle, flags: Flags, line: &[u8]) -> (r:
    bool)
    ensures
        r == line_matches(matcher.model(), flags, line_body(line@)),
        r && emits_record(flags) ==> final(buf)@ == line_content(
            matcher.model(),
            flags,
            line_body(line@),
        ) + line_term(line@),
        !(r && emits_record(flags)) ==> final(buf)@ == old(buf)@,
{
    let n = line.len();
    let body_end = if n > 0 && line[n - 1] == 10 {
        n - 1
    } else {
        n
    };
    proof {
        if n > 0 && line@[n - 1] == 10 {
            assert(line_body(line@) =~= line@.subrange(0, n - 1));
            assert(line_term(line@) =~= seq![10u8]);
        } else {
            assert(line_body(line@) =~= line@.subrange(0, n as int));
            assert(line_term(line@) =~= Seq::<u8>::empty());
        }
    }
    let body = &line[0..body_end];
    let matched = match matcher {
        MatcherHandle::Literal { pattern, mode } => check_string(
            buf,
            flags,
            *mode,
            body,
            pattern.as_slice(),
        ),
        MatcherHandle::Pattern(pm) => check_regex(buf, flags, body, pm),
    };
    if matched && !flags.quiet && !flags.list {
        if body_end < n {
            buf.push(10);
        }
        assert(buf@ =~= line_content(matcher.model(), flags, line_body(line@)) + line_term(
            line@,
        ));
    }
    matched
}

/// What scanning one whole source produces.
pub open spec fn source_run(
    m: MatcherModel,
    flags: Flags,
    max: u32,
    name: Seq<u8>,
    s: Seq<u8>,
) -> SourceModel {
    source_model(m, flags, max, name, s, 0, 0, 0)
}

/// A quiet run emits no bytes at all: the scan either stops at the first
/// match before producing anything, or finds no match and produces nothing.
pub proof fn lemma_quiet_emits_nothing(
    m: MatcherModel,
    flags: Flags,
    max: u32,
    name: Seq<u8>,
    s: Seq<u8>,
    pos: int,
    idx: int,
    cnt: int,
)
    requires
        flags.quiet,
    ensures
        source_model(m, flags, max, name, s, pos, idx, cnt).out == Seq::<u8>::empty(),
    decreases s.len() - pos,
{
    if pos < 0 || pos >= s.len() {
    } else if max > 0 && cnt >= max {
    } else {
        let k = line_end(s, pos);
        let l = s.subrange(pos, k);
        lemma_first_nl(s, pos);
        if !line_matches(m, flags, line_body(l)) {
            lemma_quiet_emits_nothing(m, flags, max, name, s, k, idx + 1, cnt);
        }
    }
}

/// For a fixed matcher and line, flipping the invert switch flips the
/// decision: the lines reported with invert on are exactly the complement of
/// those reported with invert off.
pub proof fn lemma_invert_complement(m: MatcherModel, flags: Flags, body: Seq<u8>)
    ensures
        line_matches(m, Flags { invert: !flags.invert, ..flags }, body) == !line_matches(
            m,
            flags,
            body,
        ),
{
}

/// What one source contributed to a run.
#[derive(Clone, Copy, PartialEq, Eq, Structural, Debug)]
pub struct SourceSummary {
    pub matches: usize,
    pub quiet_hit: bool,
    pub listed: bool,
}


/// The number of matching lines of the source from byte offset `pos` on,
/// with no cap applied.
pub open spec fn match_count(m: MatcherModel, flags: Flags, s: Seq<u8>, pos: int) -> int
    decreases s.len() - pos,
    via match_count_decreases
{
    if pos < 0 || pos >= s.len() {
        0
    } else {
        let k = line_end(s, pos);
        (if line_matches(m, flags, line_body(s.subrange(pos, k))) {
            1int
        } else {
            0int
        }) + match_count(m, flags, s, k)
    }
}

#[via_fn]
proof fn match_count_decreases(m: MatcherModel, flags: Flags, s: Seq<u8>, pos: int) {
    if 0 <= pos < s.len() {
        lemma_first_nl(s, pos);
    }
}

proof fn lemma_match_count_nonneg(m: MatcherModel, flags: Flags, s: Seq<u8>, pos: int)
    ensures
        match_count(m, flags, s, pos) >= 0,
    decreases s.len() - pos,
{
    if 0 <= pos < s.len() {
        lemma_first_nl(s, pos);
        lemma_match_count_nonneg(m, flags, s, line_end(s, pos));
    }
}

proof fn lemma_max_cap_from(
    m: MatcherModel,
    flags: Flags,
    max: u32,
    name: Seq<u8>,
    s: Seq<u8>,
    pos: int,
    idx: int,
    cnt: int,
)
    requires
        !flags.quiet,
        !flags.list,
        max > 0,
        0 <= pos,
        0 <= cnt <= max,
    ensures
        source_model(m, flags, max, name, s, pos, idx, cnt).matches == if cnt + match_count(
            m,
            flags,
            s,
            pos,
        ) <= max {
            cnt + match_count(m, flags, s, pos)
        } else {
            max as int
        },
    decreases s.len() - pos,
{
    lemma_match_count_nonneg(m, flags, s, pos);
    if pos >= s.len() {
    } else if cnt >= max {
    } else {
        let k = line_end(s, pos);
        lemma_first_nl(s, pos);
        let l = s.subrange(pos, k);
        if line_matches(m, flags, line_body(l)) {
            lemma_max_cap_from(m, flags, max, name, s, k, idx + 1, cnt + 1);
        } else {
            lemma_max_cap_from(m, flags, max, name, s, k, idx + 1, cnt);
        }
    }
}

/// The match cap is exact: in a record-emitting scan with a cap, the source
/// reports all of its matching lines when they number at most the cap, and
/// exactly the cap's worth when more exist — the scan stops before any
/// further match.
pub proof fn lemma_max_cap_exact(
    m: MatcherModel,
    flags: Flags,
    max: u32,
    name: Seq<u8>,
    s: Seq<u8>,
)
    requires
        !flags.quiet,
        !flags.list,
        max > 0,
    ensures
        source_run(m, flags, max, name, s).matches == if match_count(m, flags, s, 0) <= max {
            match_count(m, flags, s, 0)
        } else {
            max as int
        },
{
    lemma_max_cap_from(m, flags, max, name, s, 0, 0, 0);
}

proof fn lemma_fold_no_esc(ci: bool, body: Seq<u8>)
    requires
        forall|i: int| 0 <= i < body.len() ==> body[i] != 27,
    ensures
        fold_if(ci, body).len() == body.len(),
        forall|i: int| 0 <= i < fold_if(ci, body).len() ==> fold_if(ci, body)[i] != 27,
{
    if ci {
        assert forall|i: int| 0 <= i < lower_seq(body).len() implies lower_seq(body)[i]
            != 27 by {
            assert(lower_seq(body)[i] == to_lower(body[i]));
        }
    }
}

/// Stripping all marker bytes from a colored literal-anywhere record's
/// content reproduces the (folded) line body exactly, for any line that
/// holds no ESC byte.
pub proof fn lemma_literal_content_strip(flags: Flags, body: Seq<u8>, pat: Seq<u8>)
    requires
        flags.color,
        !flags.invert,
        body.len() <= usize::MAX,
        forall|i: int| 0 <= i < body.len() ==> body[i] != 27,
    ensures
        strip_markers_spec(
            line_content(MatcherModel::Literal { pat, mode: MatchOn::Anywhere }, flags, body),
        ) == fold_if(flags.case_insensitive, body),
{
    let fb = fold_if(flags.case_insensitive, body);
    lemma_fold_no_esc(flags.case_insensitive, body);
    lemma_occ_spans_wf(fb, pat, 0);
    lemma_compose_strip_round_trip(fb, occ_spans(fb, pat));
}

/// Stripping all marker bytes from a colored regex record's content
/// reproduces the line body exactly, for any line that holds no ESC byte,
/// given the engine's spans are well-formed — which its wrapper guarantees
/// of every value it returns.
pub proof fn lemma_pattern_content_strip(
    flags: Flags,
    pattern: Seq<char>,
    case_insensitive: bool,
    unicode: bool,
    body: Seq<u8>,
)
    requires
        flags.color,
        !flags.invert,
        forall|i: int| 0 <= i < body.len() ==> body[i] != 27,
        spans_wf(regex_spans(pattern, case_insensitive, unicode, body), body.len() as int),
    ensures
        strip_markers_spec(
            line_content(
                MatcherModel::Pattern { pattern, case_insensitive, unicode },
                flags,
                body,
            ),
        ) == body,
{
    lemma_compose_strip_round_trip(
        body,
        regex_spans(pattern, case_insensitive, unicode, body),
    );
}

/// The line indices of a source from byte offset `pos` on, numbering the
/// line at `pos` with `idx`.
pub open spec fn source_lines(s: Seq<u8>, pos: int, idx: int) -> Set<int>
    decreases s.len() - pos,
    via source_lines_decreases
{
    if pos < 0 || pos >= s.len() {
        Set::empty()
    } else {
        source_lines(s, line_end(s, pos), idx + 1).insert(idx)
    }
}

#[via_fn]
proof fn source_lines_decreases(s: Seq<u8>, pos: int, idx: int) {
    if 0 <= pos < s.len() {
        lemma_first_nl(s, pos);
    }
}

/// The line indices a matcher reports of a source from byte offset `pos`
/// on, with no cap and no early termination.
pub open spec fn reported_lines(
    m: MatcherModel,
    flags: Flags,
    s: Seq<u8>,
    pos: int,
    idx: int,
) -> Set<int>
    decreases s.len() - pos,
    via reported_lines_decreases
{
    if pos < 0 || pos >= s.len() {
        Set::empty()
    } else {
        let k = line_end(s, pos);
        let rest = reported_lines(m, flags, s, k, idx + 1);
        if line_matches(m, flags, line_body(s.subrange(pos, k))) {
            rest.insert(idx)
        } else {
            rest
        }
    }
}

#[via_fn]
proof fn reported_lines_decreases(
    m: MatcherModel,
    flags: Flags,
    s: Seq<u8>,
    pos: int,
    idx: int,
) {
    if 0 <= pos < s.len() {
        lemma_first_nl(s, pos);
    }
}

proof fn lemma_source_lines_lb(s: Seq<u8>, pos: int, idx: int)
    ensures
        forall|x: int| #[trigger] source_lines(s, pos, idx).contains(x) ==> x >= idx,
    decreases s.len() - pos,
{
    if 0 <= pos < s.len() {
        lemma_first_nl(s, pos);
        lemma_source_lines_lb(s, line_end(s, pos), idx + 1);
        assert forall|x: int| #[trigger] source_lines(s, pos, idx).contains(x) implies x
            >= idx by {
            if x != idx {
                assert(source_lines(s, line_end(s, pos), idx + 1).contains(x));
            }
        }
    }
}

proof fn lemma_reported_in_source(m: MatcherModel, flags: Flags, s: Seq<u8>, pos: int, idx: int)
    ensures
        forall|x: int|
            #[trigger] reported_lines(m, flags, s, pos, idx).contains(x) ==> source_lines(
                s,
                pos,
                idx,
            ).contains(x),
    decreases s.len() - pos,
{
    if 0 <= pos < s.len() {
        let k = line_end(s, pos);
        lemma_first_nl(s, pos);
        lemma_reported_in_source(m, flags, s, k, idx + 1);
        assert forall|x: int|
            #[trigger] reported_lines(m, flags, s, pos, idx).contains(x) implies source_lines(
            s,
            pos,
            idx,
        ).contains(x) by {
            if x != idx {
                assert(reported_lines(m, flags, s, k, idx + 1).contains(x));
                assert(source_lines(s, k, idx + 1).contains(x));
            }
        }
    }
}

/// Within one source, the set of line indices reported with invert on is
/// exactly the complement, among the source's lines, of the set reported
/// with invert off.
pub proof fn lemma_invert_complement_source(
    m: MatcherModel,
    flags: Flags,
    s: Seq<u8>,
    pos: int,
    idx: int,
)
    ensures
        reported_lines(m, (Flags { invert: !flags.invert, ..flags }), s, pos, idx)
            =~= source_lines(s, pos, idx).difference(reported_lines(m, flags, s, pos, idx)),
    decreases s.len() - pos,
{
    let inv = Flags { invert: !flags.invert, ..flags };
    if pos < 0 || pos >= s.len() {
        assert(reported_lines(m, inv, s, pos, idx) =~= source_lines(s, pos, idx).difference(
            reported_lines(m, flags, s, pos, idx),
        ));
    } else {
        let k = line_end(s, pos);
        lemma_first_nl(s, pos);
        let body = line_body(s.subrange(pos, k));
        let rest_inv = reported_lines(m, inv, s, k, idx + 1);
        let rest_pl = reported_lines(m, flags, s, k, idx + 1);
        let all_rest = source_lines(s, k, idx + 1);
        lemma_invert_complement(m, flags, body);
        lemma_invert_complement_source(m, flags, s, k, idx + 1);
        lemma_source_lines_lb(s, k, idx + 1);
        lemma_reported_in_source(m, flags, s, k, idx + 1);
        assert(line_matches(m, inv, body) == !line_matches(m, flags, body));
        assert(!all_rest.contains(idx));
        assert(!rest_pl.contains(idx));
        assert forall|x: int|
            reported_lines(m, inv, s, pos, idx).contains(x) <==> (source_lines(
            s,
            pos,
            idx,
        ).contains(x) && !reported_lines(m, flags, s, pos, idx).contains(x)) by {
            if x == idx {
            } else {
                assert(reported_lines(m, inv, s, pos, idx).contains(x) == rest_inv.contains(x));
                assert(reported_lines(m, flags, s, pos, idx).contains(x) == rest_pl.contains(x));
                assert(source_lines(s, pos, idx).contains(x) == all_rest.contains(x));
                assert(rest_inv.contains(x) == all_rest.difference(rest_pl).contains(x));
            }
        }
        assert(reported_lines(m, inv, s, pos, idx) =~= source_lines(s, pos, idx).difference(
            reported_lines(m, flags, s, pos, idx),
        ));
    }
}

/// What processing one line does to the scan: the bytes emitted, the match
/// count afterwards, whether the source's scan must stop, and which of the
/// special terminations fired.
pub ghost struct LineStep {
    pub out: Seq<u8>,
    pub matches: int,
    pub stop: bool,
    pub quiet_hit: bool,
    pub listed: bool,
    pub matched: bool,
}

/// One step of the per-source state machine, for the line `l` at index
/// `idx` with `cnt` matches so far: stop without reading when the match cap
/// is reached; on a match, quiet stops the scan with nothing emitted, list
/// emits the source name and stops, and otherwise the record is emitted and
/// the count advances.
pub open spec fn line_step(
    m: MatcherModel,
    flags: Flags,
    max: u32,
    name: Seq<u8>,
    idx: int,
    cnt: int,
    l: Seq<u8>,
) -> LineStep {
    if max > 0 && cnt >= max {
        LineStep {
            out: Seq::empty(),
            matches: cnt,
            stop: true,
            quiet_hit: false,
            listed: false,
            matched: false,
        }
    } else if line_matches(m, flags, line_body(l)) {
        if flags.quiet {
            LineStep {
                out: Seq::empty(),
                matches: cnt,
                stop: true,
                quiet_hit: true,
                listed: false,
                matched: true,
            }
        } else if flags.list {
            LineStep {
                out: name + seq![10u8],
                matches: cnt,
                stop: true,
                quiet_hit: false,
                listed: true,
                matched: true,
            }
        } else {
            LineStep {
                out: line_record(m, flags, idx, name, l),
                matches: cnt + 1,
                stop: false,
                quiet_hit: false,
                listed: false,
                matched: true,
            }
        }
    } else {
        LineStep {
            out: Seq::empty(),
            matches: cnt,
            stop: false,
            quiet_hit: false,
            listed: false,
            matched: false,
        }
    }
}

/// The outcome of processing one line.
#[derive(Clone, Copy, PartialEq, Eq, Structural, Debug)]
pub struct LineVerdict {
    pub matched: bool,
    pub stop: bool,
    pub quiet_hit: bool,
    pub listed: bool,
    pub matches: usize,
}

/// Process one whole line (terminator included): decide it, append whatever
/// the scan emits for it to `out`, and report how the scan goes on. `buf` is
/// the reusable scratch buffer for highlighted content.
pub fn grep_line(
    out: &mut Vec<u8>,
    buf: &mut Vec<u8>,
    matcher: &MatcherHandle,
    flags: Flags,
    max: u32,
    name: &[u8],
    idx: usize,
    cnt: usize,
    line: &[u8],
) -> (r: LineVerdict)
    requires
        idx < usize::MAX,
        cnt < usize::MAX,
    ensures
        ({
            let st = line_step(matcher.model(), flags, max, name@, idx as int, cnt as int, line@);
            &&& final(out)@ == old(out)@ + st.out
            &&& r.matches == st.matches
            &&& r.stop == st.stop
            &&& r.quiet_hit == st.quiet_hit
            &&& r.listed == st.listed
            &&& r.matched == st.matched
        }),
{
    if max > 0 && cnt >= max as usize {
        proof {
            assert(out@ =~= old(out)@ + Seq::<u8>::empty());
        }
        return LineVerdict { matched: false, stop: true, quiet_hit: false, listed: false, matches: cnt };
    }
    let matched = check_line(buf, matcher, flags, line);
    if matched {
        if flags.quiet {
            proof {
                assert(out@ =~= old(out)@ + Seq::<u8>::empty());
            }
            return LineVerdict {
                matched: true,
                stop: true,
                quiet_hit: true,
                listed: false,
                matches: cnt,
            };
        }
        if flags.list {
            out.extend_from_slice_unchecked(name);
            out.push(10);
            proof {
                assert(out@ =~= old(out)@ + (name@ + seq![10u8]));
            }
            return LineVerdict {
                matched: true,
                stop: true,
                quiet_hit: false,
                listed: true,
                matches: cnt,
            };
        }
        print_match(out, idx, buf.as_slice(), flags.show_lines, name, flags.multiple_files);
        proof {
            assert(out@ =~= old(out)@ + line_record(
                matcher.model(),
                flags,
                idx as int,
                name@,
                line@,
            ));
        }
        return LineVerdict {
            matched: true,
            stop: false,
            quiet_hit: false,
            listed: false,
            matches: cnt + 1,
        };
    }
    proof {
        assert(out@ =~= old(out)@ + Seq::<u8>::empty());
    }
    LineVerdict { matched: false, stop: false, quiet_hit: false, listed: false, matches: cnt }
}

/// The run-wide counters: total matches over all sources and whether the
/// quiet short-circuit fired. Created once per invocation, fed one source
/// summary at a time, and read for the final exit status.
#[derive(Clone, Copy, PartialEq, Eq, Structural, Debug)]
pub struct RunState {
    pub total_matches: usize,
    pub quiet_hit: bool,
}

impl RunState {
    pub fn new() -> (r: Self)
        ensures
            r.total_matches == 0,
            !r.quiet_hit,
    {
        RunState { total_matches: 0, quiet_hit: false }
    }

    /// Fold one source's summary into the run: counts add (saturating at the
    /// machine limit), and a quiet hit anywhere makes the whole run a quiet
    /// hit.
    pub fn absorb(&mut self, s: SourceSummary)
        ensures
            final(self).total_matches == if old(self).total_matches + s.matches <= usize::MAX {
                old(self).total_matches + s.matches
            } else {
                usize::MAX as int
            },
            final(self).quiet_hit == (old(self).quiet_hit || s.quiet_hit),
    {
        self.total_matches = self.total_matches.saturating_add(s.matches);
        self.quiet_hit = self.quiet_hit || s.quiet_hit;
    }

    /// The overall exit status: success exactly when at least one match was
    /// found or the quiet short-circuit fired.
    pub fn exit_status(&self) -> (r: ExitStatus)
        ensures
            r == (if self.total_matches > 0 || self.quiet_hit {
                ExitStatus::Success
            } else {
                ExitStatus::Failure
            }),
    {
        ExitStatus::from_bool(self.total_matches > 0 || self.quiet_hit)
    }
}

/// Scan one in-memory source line by line and append the matching records to
/// `out`, exactly as the source state machine prescribes.
#[verifier::rlimit(100)]
pub fn grep_source(
    out: &mut Vec<u8>,
    matcher: &MatcherHandle,
    flags: Flags,
    max: u32,
    name: &[u8],
    contents: &[u8],
) -> (r: SourceSummary)
    ensures
        ({
            let mdl = source_run(matcher.model(), flags, max, name@, contents@);
            &&& final(out)@ == old(out)@ + mdl.out
            &&& r.matches == mdl.matches
            &&& r.quiet_hit == mdl.quiet_hit
            &&& r.listed == mdl.listed
        }),
{
    let ghost m = matcher.model();
    let ghost mdl0 = source_run(m, flags, max, name@, contents@);
    let mut buf: Vec<u8> = Vec::new();
    let mut pos: usize = 0;
    let mut idx: usize = 0;
    let mut cnt: usize = 0;
    let ghost mut emitted: Seq<u8> = Seq::empty();
    proof {
        assert(out@ =~= old(out)@ + emitted);
    }
    while pos < contents.len()
        invariant
            pos <= contents@.len(),
            idx <= pos,
            cnt <= idx,
            out@ == old(out)@ + emitted,
            ({
                let cur = source_model(
                    m,
                    flags,
                    max,
                    name@,
                    contents@,
                    pos as int,
                    idx as int,
                    cnt as int,
                );
                &&& mdl0.out == emitted + cur.out
                &&& mdl0.matches == cur.matches
                &&& mdl0.quiet_hit == cur.quiet_hit
                &&& mdl0.listed == cur.listed
            }),
            m == matcher.model(),
            mdl0 == source_run(m, flags, max, name@, contents@),
        decreases contents@.len() - pos,
    {
        let ghost cur = source_model(
            m,
            flags,
            max,
            name@,
            contents@,
            pos as int,
            idx as int,
            cnt as int,
        );
        let k = find_line_end(contents, pos);
        let ghost l = contents@.subrange(pos as int, k as int);
        let line_slice = &contents[pos..k];
        proof {
            assert(line_slice@ == l);
            assert(idx < contents@.len());
            assert(cnt < contents@.len());
        }
        let ghost out_before = out@;
        let verdict = grep_line(out, &mut buf, matcher, flags, max, name, idx, cnt, line_slice);
        let ghost st = line_step(m, flags, max, name@, idx as int, cnt as int, l);
        if verdict.stop {
            proof {
                assert(cur.out =~= st.out);
                assert(out@ =~= old(out)@ + (emitted + st.out));
                assert(mdl0.out =~= emitted + st.out);
                emitted = emitted + st.out;
            }
            return SourceSummary {
                matches: verdict.matches,
                quiet_hit: verdict.quiet_hit,
                listed: verdict.listed,
            };
        }
        proof {
            let rest = source_model(
                m,
                flags,
                max,
                name@,
                contents@,
                k as int,
                idx as int + 1,
                st.matches,
            );
            assert(cur.out == st.out + rest.out);
            assert(out@ =~= old(out)@ + (emitted + st.out));
            emitted = emitted + st.out;
            assert(mdl0.out =~= emitted + rest.out);
        }
        cnt = verdict.matches;
        idx = idx + 1;
        pos = k;
    }
    proof {
        let cur = source_model(m, flags, max, name@, contents@, pos as int, idx as int, cnt as int);
        assert(cur.out =~= Seq::<u8>::empty());
        assert(mdl0.out =~= emitted);
    }
    SourceSummary { matches: cnt, quiet_hit: false, listed: false }
}

} // verus!
