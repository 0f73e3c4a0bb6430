//! Literal matching strategies: substring (anywhere), exact whole line, and
//! whole word under byte-level whitespace splitting, together with the span
//! search used for highlighting and the case folding they share.

use vstd::prelude::*;

use crate::compose::{close_marker, open_marker, spans_wf_from};
use crate::regex_cap::{regex_compiles, PatternMatcher};
use vstd::string::StringSliceAdditionalSpecFns;
use crate::trait_ext::{is_boundary, ExtendFromSliceUnchecked, IsWhitespace};

verus! {

/// How a literal pattern must sit in a line to count as a match.
#[derive(Clone, Copy, PartialEq, Eq, Structural, Debug)]
pub enum MatchOn {
    Anywhere,
    Line,
    Word,
}

/// ASCII lower-casing of one byte.
pub open spec fn to_lower(b: u8) -> u8 {
    if 65 <= b && b <= 90 {
        (b + 32) as u8
    } else {
        b
    }
}

/// ASCII lower-casing of a byte sequence.
pub open spec fn lower_seq(s: Seq<u8>) -> Seq<u8> {
    s.map_values(|b: u8| to_lower(b))
}

/// Overwrite `out` with the ASCII lower-cased form of `s`.
pub fn to_lowercase_into(out: &mut Vec<u8>, s: &[u8])
    ensures
        final(out)@ == lower_seq(s@),
{
    out.clear();
    let mut i: usize = 0;
    while i < s.len()
        invariant
            i <= s@.len(),
            out@.len() == i,
            forall|j: int| 0 <= j < i ==> out@[j] == to_lower(s@[j]),
        decreases s@.len() - i,
    {
        let b = s[i];
        if 65 <= b && b <= 90 {
            out.push(b + 32);
        } else {
            out.push(b);
        }
        i = i + 1;
    }
    assert(out@ =~= lower_seq(s@));
}

/// Byte-for-byte equality of two slices.
pub fn bytes_eq(a: &[u8], b: &[u8]) -> (r: bool)
    ensures
        r == (a@ == b@),
{
    if a.len() != b.len() {
        return false;
    }
    let mut i: usize = 0;
    while i < a.len()
        invariant
            i <= a@.len(),
            a@.len() == b@.len(),
            forall|j: int| 0 <= j < i ==> a@[j] == b@[j],
        decreases a@.len() - i,
    {
        if a[i] != b[i] {
            return false;
        }
        i = i + 1;
    }
    proof {
        assert(a@ =~= b@);
    }
    true
}

/// The pattern occurs in `line` starting at byte offset `i`.
pub open spec fn matches_at(line: Seq<u8>, pat: Seq<u8>, i: int) -> bool {
    &&& 0 <= i
    &&& i + pat.len() <= line.len()
    &&& line.subrange(i, i + pat.len()) == pat
}

/// The pattern occurs somewhere in `line` as a contiguous subsequence.
pub open spec fn contains_slice(line: Seq<u8>, pat: Seq<u8>) -> bool {
    exists|i: int| matches_at(line, pat, i)
}

/// How far the search resumes after reporting an occurrence: past the whole
/// occurrence, or one byte for a zero-length pattern so the scan always
/// advances.
pub open spec fn occ_step(pat: Seq<u8>) -> int {
    if pat.len() == 0 {
        1
    } else {
        pat.len() as int
    }
}

/// The non-overlapping left-to-right occurrences of `pat` in `line` at or
/// after offset `i`, as match spans: after an occurrence at `j`, the search
/// resumes at `j + pat.len()` (or `j + 1` for an empty pattern).
pub open spec fn occ_spans_from(line: Seq<u8>, pat: Seq<u8>, i: int) -> Seq<(usize, usize)>
    decreases line.len() + 1 - i,
{
    if i < 0 || i + pat.len() > line.len() {
        Seq::empty()
    } else if line.subrange(i, i + pat.len()) == pat {
        seq![(i as usize, (i + pat.len()) as usize)] + occ_spans_from(line, pat, i + occ_step(pat))
    } else {
        occ_spans_from(line, pat, i + 1)
    }
}

/// All non-overlapping left-to-right occurrences of `pat` in `line`.
pub open spec fn occ_spans(line: Seq<u8>, pat: Seq<u8>) -> Seq<(usize, usize)> {
    occ_spans_from(line, pat, 0)
}

proof fn lemma_spans_wf_weaken(spans: Seq<(usize, usize)>, lo: int, lo2: int, line_len: int)
    requires
        spans_wf_from(spans, lo2, line_len),
        lo <= lo2,
    ensures
        spans_wf_from(spans, lo, line_len),
{
}

/// The occurrence spans are ordered, non-overlapping and within bounds.
pub proof fn lemma_occ_spans_wf(line: Seq<u8>, pat: Seq<u8>, i: int)
    requires
        0 <= i,
        line.len() <= usize::MAX,
    ensures
        spans_wf_from(occ_spans_from(line, pat, i), i, line.len() as int),
    decreases line.len() + 1 - i,
{
    if i + pat.len() > line.len() {
    } else if line.subrange(i, i + pat.len()) == pat {
        lemma_occ_spans_wf(line, pat, i + occ_step(pat));
        let rest = occ_spans_from(line, pat, i + occ_step(pat));
        let sp = (i as usize, (i + pat.len()) as usize);
        assert((seq![sp] + rest)[0] == sp);
        assert((seq![sp] + rest).drop_first() =~= rest);
        lemma_spans_wf_weaken(rest, i + pat.len(), i + occ_step(pat), line.len() as int);
    } else {
        lemma_occ_spans_wf(line, pat, i + 1);
        lemma_spans_wf_weaken(occ_spans_from(line, pat, i + 1), i, i + 1, line.len() as int);
    }
}

/// There is an occurrence span at or after `i` exactly when the pattern
/// occurs at some offset at or after `i`.
pub proof fn lemma_occ_spans_iff_match(line: Seq<u8>, pat: Seq<u8>, i: int)
    requires
        0 <= i,
    ensures
        occ_spans_from(line, pat, i).len() > 0 <==> exists|j: int|
            i <= j && matches_at(line, pat, j),
    decreases line.len() + 1 - i,
{
    if i + pat.len() > line.len() {
        assert(forall|j: int| i <= j ==> !matches_at(line, pat, j));
    } else if line.subrange(i, i + pat.len()) == pat {
        assert(matches_at(line, pat, i));
    } else {
        lemma_occ_spans_iff_match(line, pat, i + 1);
        if exists|j: int| i <= j && matches_at(line, pat, j) {
            let j = choose|j: int| i <= j && matches_at(line, pat, j);
            assert(j != i);
            assert(i + 1 <= j && matches_at(line, pat, j));
        }
    }
}

/// The occurrence list is non-empty exactly when the pattern occurs at all.
pub proof fn lemma_occ_spans_iff_contains(line: Seq<u8>, pat: Seq<u8>)
    ensures
        occ_spans(line, pat).len() > 0 <==> contains_slice(line, pat),
{
    lemma_occ_spans_iff_match(line, pat, 0);
}

/// Does the pattern occur anywhere in the line?
pub fn contains_bytes(line: &[u8], pat: &[u8]) -> (r: bool)
    ensures
        r == contains_slice(line@, pat@),
{
    if pat.len() > line.len() {
        proof {
            assert(forall|j: int| !matches_at(line@, pat@, j));
        }
        return false;
    }
    if pat.len() == 0 {
        proof {
            assert(line@.subrange(0, 0) =~= pat@);
            assert(matches_at(line@, pat@, 0));
        }
        return true;
    }
    let mut i: usize = 0;
    while i <= line.len() - pat.len()
        invariant
            1 <= pat@.len() <= line@.len(),
            i <= line@.len() + 1 - pat@.len(),
            forall|j: int| 0 <= j < i ==> !matches_at(line@, pat@, j),
        decreases line@.len() + 1 - i,
    {
        if bytes_eq(&line[i..i + pat.len()], pat) {
            proof {
                assert(matches_at(line@, pat@, i as int));
            }
            return true;
        }
        i = i + 1;
    }
    proof {
        if contains_slice(line@, pat@) {
            let j = choose|j: int| matches_at(line@, pat@, j);
            assert(j < i);
            assert(false);
        }
    }
    false
}

/// All non-overlapping left-to-right occurrences of `pat` in `line`, as
/// spans ready for the highlight compositor.
pub fn find_all_anywhere(line: &[u8], pat: &[u8]) -> (r: Vec<(usize, usize)>)
    ensures
        r@ == occ_spans(line@, pat@),
{
    let mut r: Vec<(usize, usize)> = Vec::new();
    if pat.len() > line.len() {
        return r;
    }
    if pat.len() == 0 {
        let mut i: usize = 0;
        proof {
            assert(r@ + occ_spans_from(line@, pat@, 0) =~= occ_spans(line@, pat@));
        }
        while i < line.len()
            invariant
                pat@.len() == 0,
                i <= line@.len(),
                occ_spans(line@, pat@) == r@ + occ_spans_from(line@, pat@, i as int),
            decreases line@.len() - i,
        {
            let ghost r0 = r@;
            proof {
                assert(line@.subrange(i as int, i as int) =~= pat@);
            }
            r.push((i, i));
            proof {
                assert(r@ + occ_spans_from(line@, pat@, i as int + 1) =~= r0 + occ_spans_from(
                    line@,
                    pat@,
                    i as int,
                ));
            }
            i = i + 1;
        }
        let ghost r0 = r@;
        proof {
            assert(line@.subrange(i as int, i as int) =~= pat@);
        }
        r.push((i, i));
        proof {
            assert(occ_spans_from(line@, pat@, line@.len() as int + 1).len() == 0);
            assert(r@ + occ_spans_from(line@, pat@, i as int + 1) =~= r0 + occ_spans_from(
                line@,
                pat@,
                i as int,
            ));
            assert(r@ =~= occ_spans(line@, pat@));
        }
        return r;
    }
    let mut i: usize = 0;
    while i <= line.len() - pat.len()
        invariant
            1 <= pat@.len() <= line@.len(),
            i <= line@.len(),
            occ_spans(line@, pat@) == r@ + occ_spans_from(line@, pat@, i as int),
        decreases line@.len() + 1 - i,
    {
        let ghost r0 = r@;
        if bytes_eq(&line[i..i + pat.len()], pat) {
            r.push((i, i + pat.len()));
            proof {
                assert(r@ + occ_spans_from(line@, pat@, i as int + occ_step(pat@)) =~= r0
                    + occ_spans_from(line@, pat@, i as int));
            }
            if pat.len() == 0 {
                i = i + 1;
            } else {
                i = i + pat.len();
            }
        } else {
            i = i + 1;
        }
    }
    proof {
        assert(occ_spans_from(line@, pat@, i as int).len() == 0);
        assert(r@ + occ_spans_from(line@, pat@, i as int) =~= r@);
    }
    r
}

/// The first offset at or past `i` that is the end of the line or holds a
/// boundary byte: the end of the token starting at `i`.
pub open spec fn token_end(line: Seq<u8>, i: int) -> int
    decreases line.len() - i,
{
    if i >= line.len() || is_boundary(line[i]) {
        i
    } else {
        token_end(line, i + 1)
    }
}

/// Basic facts about `token_end`: it stays within the line, everything
/// before it from `i` on is word content, and it stops at a boundary or at
/// the end of the line.
pub proof fn lemma_token_end(line: Seq<u8>, i: int)
    requires
        0 <= i <= line.len(),
    ensures
        i <= token_end(line, i) <= line.len(),
        forall|j: int| i <= j < token_end(line, i) ==> !is_boundary(line[j]),
        token_end(line, i) == line.len() || is_boundary(line[token_end(line, i)]),
    decreases line.len() - i,
{
    if i < line.len() && !is_boundary(line[i]) {
        lemma_token_end(line, i + 1);
    }
}

/// `line[s..e]` is a whole token: a non-empty maximal run of non-boundary
/// bytes.
pub open spec fn is_token(line: Seq<u8>, s: int, e: int) -> bool {
    &&& 0 <= s < e <= line.len()
    &&& (s == 0 || is_boundary(line[s - 1]))
    &&& (e == line.len() || is_boundary(line[e]))
    &&& forall|j: int| s <= j < e ==> !is_boundary(line[j])
}

/// Some whole token of `line` is exactly `pat`. Empty tokens are skipped,
/// so an empty pattern never matches in word mode.
pub open spec fn matches_word(line: Seq<u8>, pat: Seq<u8>) -> bool {
    exists|s: int, e: int| #[trigger] is_token(line, s, e) && line.subrange(s, e) == pat
}

/// The end of the token starting at `i`: the first boundary byte or the end
/// of the line.
pub fn find_token_end(line: &[u8], i: usize) -> (e: usize)
    requires
        i <= line@.len(),
    ensures
        i <= e <= line@.len(),
        e as int == token_end(line@, i as int),
{
    let mut j: usize = i;
    loop
        invariant
            i <= j <= line@.len(),
            token_end(line@, i as int) == token_end(line@, j as int),
        ensures
            i <= j <= line@.len(),
            token_end(line@, i as int) == j,
        decreases line@.len() - j,
    {
        if j == line.len() {
            break;
        }
        if line[j].is_whitespace() {
            break;
        }
        j = j + 1;
    }
    j
}

/// Does some whole token of `line` equal `pat`?
pub fn match_word(line: &[u8], pat: &[u8]) -> (r: bool)
    ensures
        r == matches_word(line@, pat@),
{
    let mut i: usize = 0;
    while i < line.len()
        invariant
            i <= line@.len(),
            forall|s: int, e: int|
                #[trigger] is_token(line@, s, e) && s < i ==> line@.subrange(s, e) != pat@,
            i == 0 || i == line@.len() || is_boundary(line@[i - 1]) || is_boundary(
                line@[i as int],
            ),
        decreases line@.len() - i,
    {
        if line[i].is_whitespace() {
            proof {
                assert forall|s: int, e: int|
                    #[trigger] is_token(line@, s, e) && s < i + 1 implies line@.subrange(s, e)
                    != pat@ by {
                    if s == i {
                        assert(!is_boundary(line@[s]));
                    }
                }
            }
            i = i + 1;
        } else {
            let e = find_token_end(line, i);
            proof {
                lemma_token_end(line@, i as int);
                assert(is_token(line@, i as int, e as int));
            }
            if bytes_eq(&line[i..e], pat) {
                proof {
                    assert(matches_word(line@, pat@));
                }
                return true;
            }
            proof {
                assert forall|s: int, e2: int|
                    #[trigger] is_token(line@, s, e2) && s < e implies line@.subrange(s, e2)
                    != pat@ by {
                    if i < s < e {
                        assert(!is_boundary(line@[s - 1]));
                        assert(false);
                    }
                    if s == i {
                        if e2 < e {
                            assert(!is_boundary(line@[e2]));
                            assert(false);
                        }
                        if e2 > e {
                            assert(!is_boundary(line@[e as int]));
                            assert(e < line@.len());
                            assert(false);
                        }
                        assert(e2 == e);
                    }
                }
            }
            i = e;
        }
    }
    proof {
        if matches_word(line@, pat@) {
            let (s, e) = choose|s: int, e: int|
                #[trigger] is_token(line@, s, e) && line@.subrange(s, e) == pat@;
            assert(s < i);
            assert(false);
        }
    }
    false
}

/// The word-mode highlighted form of the tail of `line` from offset `i`:
/// tokens joined by a single space, matching tokens wrapped in markers.
/// Splitting discards the original boundary bytes, so word-mode output is a
/// documented lossy normalization of the whitespace.
pub open spec fn word_highlight_from(line: Seq<u8>, pat: Seq<u8>, i: int, first: bool) -> Seq<u8>
    decreases line.len() - i,
    when 0 <= i
    via word_highlight_from_decreases
{
    if i >= line.len() {
        Seq::empty()
    } else if is_boundary(line[i]) {
        word_highlight_from(line, pat, i + 1, first)
    } else {
        let e = token_end(line, i);
        let tok = line.subrange(i, e);
        let sep: Seq<u8> = if first {
            Seq::empty()
        } else {
            seq![32u8]
        };
        let piece: Seq<u8> = if tok == pat {
            open_marker() + tok + close_marker()
        } else {
            tok
        };
        sep + piece + word_highlight_from(line, pat, e, false)
    }
}

#[via_fn]
proof fn word_highlight_from_decreases(line: Seq<u8>, pat: Seq<u8>, i: int, first: bool) {
    if 0 <= i < line.len() && !is_boundary(line[i]) {
        lemma_token_end(line, i + 1);
    }
}

/// The word-mode highlighted form of a whole line.
pub open spec fn word_highlight(line: Seq<u8>, pat: Seq<u8>) -> Seq<u8> {
    word_highlight_from(line, pat, 0, true)
}

/// Overwrite `buf` with the word-mode highlighted form of `line`.
pub fn word_highlight_into(buf: &mut Vec<u8>, line: &[u8], pat: &[u8])
    ensures
        final(buf)@ == word_highlight(line@, pat@),
{
    buf.clear();
    let mut i: usize = 0;
    let mut first: bool = true;
    while i < line.len()
        invariant
            i <= line@.len(),
            word_highlight(line@, pat@) == buf@ + word_highlight_from(
                line@,
                pat@,
                i as int,
                first,
            ),
        decreases line@.len() - i,
    {
        if line[i].is_whitespace() {
            i = i + 1;
        } else {
            let ghost buf0 = buf@;
            let ghost i0 = i as int;
            let ghost first0 = first;
            let e = find_token_end(line, i);
            proof {
                lemma_token_end(line@, i as int);
            }
            let is_match = bytes_eq(&line[i..e], pat);
            if !first {
                buf.push(32);
            }
            if is_match {
                crate::compose::push_open_marker(buf);
                buf.extend_from_slice_unchecked(&line[i..e]);
                crate::compose::push_close_marker(buf);
            } else {
                buf.extend_from_slice_unchecked(&line[i..e]);
            }
            proof {
                assert(buf@ + word_highlight_from(line@, pat@, e as int, false) =~= buf0
                    + word_highlight_from(line@, pat@, i0, first0));
            }
            i = e;
            first = false;
        }
    }
    proof {
        assert(buf@ + word_highlight_from(line@, pat@, i as int, first) =~= buf@);
    }
}

/// The raw (pre-invert) literal match decision for one mode.
pub open spec fn literal_raw_match(line: Seq<u8>, pat: Seq<u8>, mode: MatchOn) -> bool {
    match mode {
        MatchOn::Anywhere => contains_slice(line, pat),
        MatchOn::Line => line == pat,
        MatchOn::Word => matches_word(line, pat),
    }
}

/// The literal match decision for one mode, before inversion.
pub fn literal_is_match(line: &[u8], pat: &[u8], mode: MatchOn) -> (r: bool)
    ensures
        r == literal_raw_match(line@, pat@, mode),
{
    match mode {
        MatchOn::Anywhere => contains_bytes(line, pat),
        MatchOn::Line => bytes_eq(line, pat),
        MatchOn::Word => match_word(line, pat),
    }
}

/// ASCII-fold a byte sequence when the run is case-insensitive.
pub open spec fn fold_if(case_insensitive: bool, s: Seq<u8>) -> Seq<u8> {
    if case_insensitive {
        lower_seq(s)
    } else {
        s
    }
}

/// The mathematical identity of a matcher: the folded literal pattern with
/// its mode, or the regex pattern text with its compile settings.
pub ghost enum MatcherModel {
    Literal { pat: Seq<u8>, mode: MatchOn },
    Pattern { pattern: Seq<char>, case_insensitive: bool, unicode: bool },
}

/// The matcher selected for a run: exactly one strategy is active, fixed for
/// the run's lifetime.
pub enum MatcherHandle {
    Literal { pattern: Vec<u8>, mode: MatchOn },
    Pattern(PatternMatcher),
}

impl MatcherHandle {
    pub open spec fn model(&self) -> MatcherModel {
        match self {
            MatcherHandle::Literal { pattern, mode } => MatcherModel::Literal {
                pat: pattern@,
                mode: *mode,
            },
            MatcherHandle::Pattern(pm) => MatcherModel::Pattern {
                pattern: pm.pattern_spec(),
                case_insensitive: pm.ci_spec(),
                unicode: pm.unicode_spec(),
            },
        }
    }
}

/// Why a matcher could not be built.
#[derive(Debug)]
pub enum BuildError {
    RegexCompile(regex::Error),
}

/// Select and build the matcher for a run. With `string_search` the literal
/// matcher always succeeds, its pattern folded for case-insensitive runs;
/// otherwise the query is compiled as a regular expression, succeeding
/// exactly when the engine accepts it, and a compile failure is reported.
pub fn build_matcher(
    query: &str,
    string_search: bool,
    case_insensitive: bool,
    no_unicode: bool,
    match_on: MatchOn,
) -> (r: Result<MatcherHandle, BuildError>)
    ensures
        string_search ==> (r matches Ok(m) && m.model() == (MatcherModel::Literal {
            pat: fold_if(case_insensitive, query.spec_bytes()),
            mode: match_on,
        })),
        !string_search ==> (r is Ok <==> regex_compiles(query@, case_insensitive, !no_unicode)),
        !string_search ==> (r matches Ok(m) ==> m.model() == (MatcherModel::Pattern {
            pattern: query@,
            case_insensitive: case_insensitive,
            unicode: !no_unicode,
        })),
        r matches Err(_) ==> !string_search,
{
    if string_search {
        let bytes = query.as_bytes();
        let pattern: Vec<u8> = if case_insensitive {
            let mut v: Vec<u8> = Vec::new();
            to_lowercase_into(&mut v, bytes);
            v
        } else {
            vstd::slice::slice_to_vec(bytes)
        };
        Ok(MatcherHandle::Literal { pattern, mode: match_on })
    } else {
        match PatternMatcher::compile(query, case_insensitive, !no_unicode) {
            Ok(pm) => Ok(MatcherHandle::Pattern(pm)),
            Err(e) => Err(BuildError::RegexCompile(e)),
        }
    }
}

} // verus!
