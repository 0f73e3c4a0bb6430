//! Highlight compositor: splices ANSI escape markers around an ordered,
//! non-overlapping list of match spans in a byte line, and the inverse
//! operation that removes the markers again.

use vstd::prelude::*;

use crate::trait_ext::{ExtendFromSliceUnchecked, ReserveTotal};

verus! {

/// The marker opening a highlighted region: ESC `[31;1m`.
pub open spec fn open_marker() -> Seq<u8> {
    seq![27u8, 91u8, 51u8, 49u8, 59u8, 49u8, 109u8]
}

/// The marker closing a highlighted region: ESC `[m`.
pub open spec fn close_marker() -> Seq<u8> {
    seq![27u8, 91u8, 109u8]
}

/// Combined byte length of the open and close markers.
pub const MARKER_OVERHEAD: usize = 10;

/// The spans are ordered left to right, non-overlapping, start at or after
/// `lo`, and stay within a line of length `line_len`.
pub open spec fn spans_wf_from(spans: Seq<(usize, usize)>, lo: int, line_len: int) -> bool
    decreases spans.len(),
{
    spans.len() == 0 || {
        &&& lo <= spans[0].0
        &&& spans[0].0 <= spans[0].1
        &&& spans[0].1 <= line_len
        &&& spans_wf_from(spans.drop_first(), spans[0].1 as int, line_len)
    }
}

/// Well-formed match spans for a line of length `line_len`.
pub open spec fn spans_wf(spans: Seq<(usize, usize)>, line_len: int) -> bool {
    spans_wf_from(spans, 0, line_len)
}

/// The bytes produced by walking the spans from `cursor`: for each span the
/// bytes before it, the open marker, the span's bytes, the close marker, and
/// after the last span the remainder of the line.
pub open spec fn composed_from(line: Seq<u8>, spans: Seq<(usize, usize)>, cursor: int) -> Seq<u8>
    decreases spans.len(),
{
    if spans.len() == 0 {
        line.subrange(cursor, line.len() as int)
    } else {
        line.subrange(cursor, spans[0].0 as int) + open_marker() + line.subrange(
            spans[0].0 as int,
            spans[0].1 as int,
        ) + close_marker() + composed_from(line, spans.drop_first(), spans[0].1 as int)
    }
}

/// The highlighted form of a whole line.
pub open spec fn composed(line: Seq<u8>, spans: Seq<(usize, usize)>) -> Seq<u8> {
    composed_from(line, spans, 0)
}

/// The compositor writes exactly `line.len() - cursor + spans.len() * MARKER_OVERHEAD`
/// bytes: each span contributes its own bytes plus one open and one close marker.
pub proof fn lemma_composed_len(line: Seq<u8>, spans: Seq<(usize, usize)>, cursor: int)
    requires
        0 <= cursor <= line.len(),
        spans_wf_from(spans, cursor, line.len() as int),
    ensures
        composed_from(line, spans, cursor).len() == line.len() - cursor + spans.len() * 10,
    decreases spans.len(),
{
    if spans.len() > 0 {
        lemma_composed_len(line, spans.drop_first(), spans[0].1 as int);
        assert(spans.len() * 10 == (spans.len() - 1) * 10 + 10) by (nonlinear_arith);
    }
}

pub fn push_open_marker(buf: &mut Vec<u8>)
    ensures
        final(buf)@ == old(buf)@ + open_marker(),
{
    buf.push(27);
    buf.push(91);
    buf.push(51);
    buf.push(49);
    buf.push(59);
    buf.push(49);
    buf.push(109);
    assert(buf@ =~= old(buf)@ + open_marker());
}

pub fn push_close_marker(buf: &mut Vec<u8>)
    ensures
        final(buf)@ == old(buf)@ + close_marker(),
{
    buf.push(27);
    buf.push(91);
    buf.push(109);
    assert(buf@ =~= old(buf)@ + close_marker());
}

/// Rewrite `line` into `buf` with every span wrapped in highlight markers.
///
/// The required capacity is computed exactly and reserved once up front, so
/// the append loop never reallocates; all appends are bounds-checked.
pub fn compose(buf: &mut Vec<u8>, line: &[u8], spans: &Vec<(usize, usize)>)
    requires
        spans_wf(spans@, line@.len() as int),
    ensures
        final(buf)@ == composed(line@, spans@),
        final(buf)@.len() == line@.len() + spans@.len() * 10,
{
    let needed: Option<usize> = match spans.len().checked_mul(10) {
        Some(m) => m.checked_add(line.len()),
        None => None,
    };
    if let Some(n) = needed {
        let _ = buf.reserve_total(n);
    }
    buf.clear();
    let mut cursor: usize = 0;
    let mut k: usize = 0;
    proof {
        assert(spans@.skip(0) =~= spans@);
    }
    while k < spans.len()
        invariant
            k <= spans@.len(),
            cursor <= line@.len(),
            spans_wf_from(spans@.skip(k as int), cursor as int, line@.len() as int),
            composed(line@, spans@) == buf@ + composed_from(
                line@,
                spans@.skip(k as int),
                cursor as int,
            ),
        decreases spans@.len() - k,
    {
        let ghost buf0 = buf@;
        let ghost cursor0 = cursor as int;
        let ghost suffix = spans@.skip(k as int);
        let (s, e) = spans[k];
        proof {
            assert(suffix[0] == spans@[k as int]);
            assert(suffix.drop_first() =~= spans@.skip(k as int + 1));
        }
        buf.extend_from_slice_unchecked(&line[cursor..s]);
        push_open_marker(buf);
        buf.extend_from_slice_unchecked(&line[s..e]);
        push_close_marker(buf);
        proof {
            assert(buf@ + composed_from(line@, spans@.skip(k as int + 1), e as int) =~= buf0
                + composed_from(line@, suffix, cursor0));
        }
        cursor = e;
        k = k + 1;
    }
    buf.extend_from_slice_unchecked(&line[cursor..line.len()]);
    proof {
        assert(spans@.skip(spans@.len() as int).len() == 0);
        lemma_composed_len(line@, spans@, 0);
    }
}

/// Remove highlight markers: an occurrence of the open or close marker is
/// dropped; any other byte is kept.
pub open spec fn strip_markers_spec(s: Seq<u8>) -> Seq<u8>
    decreases s.len(),
{
    if s.len() == 0 {
        s
    } else if s.len() >= 7 && s.subrange(0, 7) == open_marker() {
        strip_markers_spec(s.skip(7))
    } else if s.len() >= 3 && s.subrange(0, 3) == close_marker() {
        strip_markers_spec(s.skip(3))
    } else {
        seq![s[0]] + strip_markers_spec(s.skip(1))
    }
}

proof fn lemma_strip_no_esc_prefix(p: Seq<u8>, t: Seq<u8>)
    requires
        forall|i: int| 0 <= i < p.len() ==> p[i] != 27,
    ensures
        strip_markers_spec(p + t) == p + strip_markers_spec(t),
    decreases p.len(),
{
    if p.len() == 0 {
        assert(p + t =~= t);
        assert(p + strip_markers_spec(t) =~= strip_markers_spec(t));
    } else {
        let s = p + t;
        assert(s[0] == p[0]);
        assert(open_marker()[0] == 27);
        assert(close_marker()[0] == 27);
        assert(s.len() >= 7 && s.subrange(0, 7) == open_marker() ==> s[0] == 27);
        assert(s.len() >= 3 && s.subrange(0, 3) == close_marker() ==> s[0] == 27);
        assert(s.skip(1) =~= p.skip(1) + t);
        lemma_strip_no_esc_prefix(p.skip(1), t);
        assert(seq![p[0]] + (p.skip(1) + strip_markers_spec(t)) =~= p + strip_markers_spec(t));
    }
}

proof fn lemma_strip_open(t: Seq<u8>)
    ensures
        strip_markers_spec(open_marker() + t) == strip_markers_spec(t),
{
    let s = open_marker() + t;
    assert(s.subrange(0, 7) =~= open_marker());
    assert(s.skip(7) =~= t);
}

proof fn lemma_strip_close(t: Seq<u8>)
    ensures
        strip_markers_spec(close_marker() + t) == strip_markers_spec(t),
{
    let s = close_marker() + t;
    assert(s[2] == 109);
    assert(open_marker()[2] == 51);
    assert(s.len() >= 7 && s.subrange(0, 7) == open_marker() ==> s[2] == 51);
    assert(s.subrange(0, 3) =~= close_marker());
    assert(s.skip(3) =~= t);
}

#[verifier::spinoff_prover]
#[verifier::rlimit(50)]
proof fn lemma_strip_composed_from(line: Seq<u8>, spans: Seq<(usize, usize)>, cursor: int)
    requires
        0 <= cursor <= line.len(),
        spans_wf_from(spans, cursor, line.len() as int),
        forall|i: int| 0 <= i < line.len() ==> line[i] != 27,
    ensures
        strip_markers_spec(composed_from(line, spans, cursor)) == line.subrange(
            cursor,
            line.len() as int,
        ),
    decreases spans.len(),
{
    if spans.len() == 0 {
        let p = line.subrange(cursor, line.len() as int);
        lemma_strip_no_esc_prefix(p, Seq::empty());
        assert(p + Seq::<u8>::empty() =~= p);
        assert(p + strip_markers_spec(Seq::empty()) =~= p);
    } else {
        let s0 = spans[0].0 as int;
        let e0 = spans[0].1 as int;
        let pre = line.subrange(cursor, s0);
        let mid = line.subrange(s0, e0);
        let rest = composed_from(line, spans.drop_first(), e0);
        lemma_strip_composed_from(line, spans.drop_first(), e0);
        let tail1 = open_marker() + (mid + (close_marker() + rest));
        assert(composed_from(line, spans, cursor) =~= pre + tail1);
        lemma_strip_no_esc_prefix(pre, tail1);
        lemma_strip_open(mid + (close_marker() + rest));
        lemma_strip_no_esc_prefix(mid, close_marker() + rest);
        lemma_strip_close(rest);
        assert(pre + (mid + line.subrange(e0, line.len() as int)) =~= line.subrange(
            cursor,
            line.len() as int,
        ));
    }
}

/// Composing highlights and then stripping all marker bytes reproduces the
/// original line exactly, for any well-formed non-overlapping span list,
/// provided the line itself contains no ESC byte.
pub proof fn lemma_compose_strip_round_trip(line: Seq<u8>, spans: Seq<(usize, usize)>)
    requires
        spans_wf(spans, line.len() as int),
        forall|i: int| 0 <= i < line.len() ==> line[i] != 27,
    ensures
        strip_markers_spec(composed(line, spans)) == line,
{
    lemma_strip_composed_from(line, spans, 0);
    assert(line.subrange(0, line.len() as int) =~= line);
}

/// Remove every occurrence of the open and close markers from `s`.
pub fn strip_markers(s: &[u8]) -> (r: Vec<u8>)
    ensures
        r@ == strip_markers_spec(s@),
{
    let mut out: Vec<u8> = Vec::new();
    let mut i: usize = 0;
    proof {
        assert(s@.skip(0) =~= s@);
    }
    while i < s.len()
        invariant
            i <= s@.len(),
            strip_markers_spec(s@) == out@ + strip_markers_spec(s@.skip(i as int)),
        decreases s@.len() - i,
    {
        let ghost out0 = out@;
        let ghost suf = s@.skip(i as int);
        let n = s.len();
        if n - i >= 7 && s[i] == 27 && s[i + 1] == 91 && s[i + 2] == 51 && s[i + 3] == 49 && s[i
            + 4] == 59 && s[i + 5] == 49 && s[i + 6] == 109 {
            proof {
                assert(suf.subrange(0, 7) =~= open_marker());
                assert(suf.skip(7) =~= s@.skip(i as int + 7));
            }
            i = i + 7;
        } else if n - i >= 3 && s[i] == 27 && s[i + 1] == 91 && s[i + 2] == 109 {
            proof {
                assert(suf.len() >= 7 && suf.subrange(0, 7) == open_marker() ==> suf[2] == 51);
                assert(suf[2] == 109);
                assert(suf.subrange(0, 3) =~= close_marker());
                assert(suf.skip(3) =~= s@.skip(i as int + 3));
            }
            i = i + 3;
        } else {
            proof {
                if suf.len() >= 7 && suf.subrange(0, 7) == open_marker() {
                    assert(suf[0] == 27 && suf[1] == 91 && suf[2] == 51 && suf[3] == 49 && suf[4]
                        == 59 && suf[5] == 49 && suf[6] == 109);
                    assert(false);
                }
                if suf.len() >= 3 && suf.subrange(0, 3) == close_marker() {
                    assert(suf[0] == 27 && suf[1] == 91 && suf[2] == 109);
                    assert(false);
                }
                assert(suf.skip(1) =~= s@.skip(i as int + 1));
                assert(out0 + seq![suf[0]] + strip_markers_spec(suf.skip(1)) =~= out0
                    + strip_markers_spec(suf));
            }
            out.push(s[i]);
            i = i + 1;
        }
    }
    proof {
        assert(s@.skip(s@.len() as int).len() == 0);
        assert(out@ + strip_markers_spec(s@.skip(s@.len() as int)) =~= out@);
    }
    out
}

} // verus!
