//! Small extension traits: byte-level whitespace classification, buffer
//! append/reserve helpers, and conversion from a match result to an exit
//! status.

use vstd::prelude::*;

verus! {

/// A byte is a word boundary if it is the ASCII space, an ASCII control byte
/// in the 0x09..=0x0d range (tab, LF, VT, FF, CR), or has its high bit set
/// (treated conservatively as a boundary so that multi-byte sequences are
/// never split inside).
pub open spec fn is_boundary(b: u8) -> bool {
    b == 32 || (9 <= b && b <= 13) || b > 127
}

/// Word-boundary classification on bytes.
pub trait IsWhitespace {
    spec fn is_whitespace_spec(&self) -> bool;

    fn is_whitespace(&self) -> (r: bool)
        ensures
            r == self.is_whitespace_spec(),
    ;
}

impl IsWhitespace for u8 {
    open spec fn is_whitespace_spec(&self) -> bool {
        is_boundary(*self)
    }

    fn is_whitespace(&self) -> (r: bool) {
        *self == 32 || (9 <= *self && *self <= 13) || *self > 127
    }
}

/// Append a whole slice to a buffer.
///
/// Every write is bounds-checked; the name records the calling convention
/// that capacity is reserved up front, so the appends never reallocate
/// mid-copy.
pub trait ExtendFromSliceUnchecked<T> {
    spec fn elems(&self) -> Seq<T>;

    fn extend_from_slice_unchecked(&mut self, slice: &[T])
        ensures
            final(self).elems() == old(self).elems() + slice@,
    ;
}

impl<T: Copy> ExtendFromSliceUnchecked<T> for Vec<T> {
    open spec fn elems(&self) -> Seq<T> {
        self@
    }

    fn extend_from_slice_unchecked(&mut self, slice: &[T]) {
        let mut i: usize = 0;
        while i < slice.len()
            invariant
                i <= slice.len(),
                self@ == old(self)@ + slice@.subrange(0, i as int),
            decreases slice.len() - i,
        {
            self.push(slice[i]);
            i = i + 1;
            assert(self@ =~= old(self)@ + slice@.subrange(0, i as int));
        }
        assert(self@ =~= old(self)@ + slice@);
    }
}

/// Word splitting: the byte spans of the whole tokens of a line, in order.
/// Empty tokens are skipped, so consecutive boundary bytes never produce a
/// span.
pub trait Words {
    spec fn words_view(&self) -> Seq<u8>;

    fn words(&self) -> (r: Vec<(usize, usize)>)
        ensures
            forall|t: int|
                0 <= t < r@.len() ==> crate::matcher::is_token(
                    self.words_view(),
                    #[trigger] r@[t].0 as int,
                    r@[t].1 as int,
                ),
            forall|s: int, e: int|
                #[trigger] crate::matcher::is_token(self.words_view(), s, e) ==> exists|t: int|
                    0 <= t < r@.len() && r@[t].0 == s && r@[t].1 == e,
            forall|t: int| 0 <= t && t + 1 < r@.len() ==> (#[trigger] r@[t]).1 < r@[t + 1].0,
    ;
}

impl Words for [u8] {
    open spec fn words_view(&self) -> Seq<u8> {
        self@
    }

    fn words(&self) -> (r: Vec<(usize, usize)>) {
        let mut r: Vec<(usize, usize)> = Vec::new();
        let mut i: usize = 0;
        while i < self.len()
            invariant
                i <= self@.len(),
                forall|t: int|
                    0 <= t < r@.len() ==> crate::matcher::is_token(
                        self@,
                        #[trigger] r@[t].0 as int,
                        r@[t].1 as int,
                    ),
                forall|s: int, e: int|
                    #[trigger] crate::matcher::is_token(self@, s, e) && s < i ==> exists|t: int|
                        0 <= t < r@.len() && r@[t].0 == s && r@[t].1 == e,
                forall|t: int| 0 <= t && t + 1 < r@.len() ==> (#[trigger] r@[t]).1 < r@[t + 1].0,
                forall|t: int| 0 <= t < r@.len() ==> (#[trigger] r@[t]).1 <= i,
                i == 0 || i == self@.len() || is_boundary(self@[i - 1]) || is_boundary(
                    self@[i as int],
                ),
            decreases self@.len() - i,
        {
            if self[i].is_whitespace() {
                proof {
                    assert forall|s: int, e: int|
                        #[trigger] crate::matcher::is_token(self@, s, e) && s < i + 1 implies
                        exists|t: int| 0 <= t < r@.len() && r@[t].0 == s && r@[t].1 == e by {
                        if s == i {
                            assert(!is_boundary(self@[s]));
                        }
                    }
                }
                i = i + 1;
            } else {
                let e = crate::matcher::find_token_end(self, i);
                proof {
                    crate::matcher::lemma_token_end(self@, i as int);
                    assert(crate::matcher::is_token(self@, i as int, e as int));
                    assert forall|t: int| 0 <= t < r@.len() implies (#[trigger] r@[t]).1
                        < i by {
                        assert(crate::matcher::is_token(self@, r@[t].0 as int, r@[t].1 as int));
                        if r@[t].1 == i {
                            assert(is_boundary(self@[i as int]));
                        }
                    }
                }
                let ghost r0 = r@;
                r.push((i, e));
                proof {
                    assert forall|s: int, e2: int|
                        #[trigger] crate::matcher::is_token(self@, s, e2) && s < e implies
                        exists|t: int| 0 <= t < r@.len() && r@[t].0 == s && r@[t].1 == e2 by {
                        if s < i {
                            let t = choose|t: int|
                                0 <= t < r0.len() && r0[t].0 == s && r0[t].1 == e2;
                            assert(r@[t].0 == s && r@[t].1 == e2);
                        } else if i < s < e {
                            assert(!is_boundary(self@[s - 1]));
                            assert(false);
                        } else {
                            assert(s == i);
                            if e2 < e {
                                assert(!is_boundary(self@[e2]));
                                assert(false);
                            }
                            if e2 > e {
                                assert(!is_boundary(self@[e as int]));
                                assert(e < self@.len());
                                assert(false);
                            }
                            assert(r@[r@.len() - 1].0 == s && r@[r@.len() - 1].1 == e2);
                        }
                    }
                }
                i = e;
            }
        }
        proof {
            assert forall|s: int, e: int|
                #[trigger] crate::matcher::is_token(self@, s, e) implies exists|t: int|
                0 <= t < r@.len() && r@[t].0 == s && r@[t].1 == e by {
                assert(s < i);
            }
        }
        r
    }
}

/// Reports that a requested total capacity cannot be provided.
pub struct CapacityOverflow;

/// Grow a buffer's capacity to at least `total` elements without touching its
/// contents, reporting failure instead of aborting. A request that asks for
/// no growth always succeeds.
pub trait ReserveTotal: View {
    spec fn reserve_len(&self) -> nat;

    fn reserve_total(&mut self, total: usize) -> (r: Result<(), CapacityOverflow>)
        ensures
            final(self)@ == old(self)@,
            total <= old(self).reserve_len() ==> r is Ok,
    ;
}

impl<T> ReserveTotal for Vec<T> {
    open spec fn reserve_len(&self) -> nat {
        self@.len()
    }

    fn reserve_total(&mut self, total: usize) -> (r: Result<(), CapacityOverflow>) {
        if total > self.len() {
            let additional = total - self.len();
            match self.try_reserve(additional) {
                Ok(()) => Ok(()),
                Err(_) => Err(CapacityOverflow),
            }
        } else {
            Ok(())
        }
    }
}

/// Overall result of a run: success exactly when at least one match was
/// found (or the quiet short-circuit fired).
#[derive(Clone, Copy, Debug, PartialEq, Eq, Structural)]
pub enum ExitStatus {
    Success,
    Failure,
}

/// Conversion from a boolean outcome to a status value.
pub trait FromBool: Sized {
    spec fn from_bool_spec(b: bool) -> Self;

    fn from_bool(b: bool) -> (r: Self)
        ensures
            r == Self::from_bool_spec(b),
    ;
}

impl FromBool for ExitStatus {
    open spec fn from_bool_spec(b: bool) -> Self {
        if b {
            ExitStatus::Success
        } else {
            ExitStatus::Failure
        }
    }

    fn from_bool(b: bool) -> (r: Self) {
        if b {
            ExitStatus::Success
        } else {
            ExitStatus::Failure
        }
    }
}

} // verus!
