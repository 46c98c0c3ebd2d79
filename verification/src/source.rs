//! The byte-delimiter scanner.
//!
//! A [`ByteSource`] holds the bytes of one connection's input and a read
//! position.  [`ByteSource::scan_until`] consumes bytes up to and
//! including the first occurrence of a delimiter sequence and returns
//! everything read before it, or fails when the input is exhausted first.

use vstd::prelude::*;
use crate::errors::{HttpError, HttpErrorView};

verus! {

/// The delimiter sequence `d` occurs in `s` starting at index `i`.
pub open spec fn match_at<T>(s: Seq<T>, d: Seq<T>, i: int) -> bool {
    &&& 0 <= i
    &&& i + d.len() <= s.len()
    &&& s.subrange(i, i + d.len() as int) == d
}

/// The first index at or after `from` at which `d` occurs in `s`,
/// or `None` when it never does.  An empty `d` is taken to occur nowhere.
pub open spec fn find_sub<T>(s: Seq<T>, d: Seq<T>, from: int) -> Option<int>
    decreases s.len() + d.len() - from,
{
    if from < 0 || d.len() <= 0 || from + d.len() > s.len() {
        None
    } else if s.subrange(from, from + d.len() as int) == d {
        Some(from)
    } else {
        find_sub(s, d, from + 1)
    }
}

/// `find_sub` returns an in-range index no smaller than `from`.
pub proof fn lemma_find_sub_bounds<T>(s: Seq<T>, d: Seq<T>, from: int)
    requires
        d.len() > 0,
        find_sub(s, d, from) is Some,
    ensures
        from <= find_sub(s, d, from).unwrap(),
        find_sub(s, d, from).unwrap() + d.len() <= s.len(),
        match_at(s, d, find_sub(s, d, from).unwrap()),
    decreases s.len() + d.len() - from,
{
    if !(from < 0 || from + d.len() > s.len())
        && !(s.subrange(from, from + d.len() as int) == d) {
        lemma_find_sub_bounds(s, d, from + 1);
    }
}

/// `find_sub` finds exactly the first occurrence: an occurrence at `i`
/// with none in `[from, i)` is the answer.
pub proof fn lemma_find_sub_first<T>(s: Seq<T>, d: Seq<T>, from: int, i: int)
    requires
        d.len() > 0,
        0 <= from <= i,
        match_at(s, d, i),
        forall|k: int| from <= k < i ==> !match_at(s, d, k),
    ensures
        find_sub(s, d, from) == Some(i),
    decreases i - from,
{
    if from < i {
        assert(!match_at(s, d, from));
        lemma_find_sub_first(s, d, from + 1, i);
    }
}

/// When `d` occurs nowhere at or after `from`, `find_sub` reports so.
pub proof fn lemma_find_sub_none<T>(s: Seq<T>, d: Seq<T>, from: int)
    requires
        d.len() > 0,
        0 <= from,
        forall|k: int| from <= k ==> !match_at(s, d, k),
    ensures
        find_sub(s, d, from) is None,
    decreases s.len() + d.len() - from,
{
    if !(from + d.len() > s.len()) {
        assert(!match_at(s, d, from));
        lemma_find_sub_none(s, d, from + 1);
    }
}

/// What one scan does to a stream: on the first occurrence of `d`,
/// split the stream into the bytes before it and the bytes after it;
/// when `d` never occurs, the stream is unterminated.
pub open spec fn spec_scan(s: Seq<u8>, d: Seq<u8>) -> Result<(Seq<u8>, Seq<u8>), HttpErrorView> {
    match find_sub(s, d, 0) {
        Some(i) => Ok((s.subrange(0, i), s.subrange(i + d.len() as int, s.len() as int))),
        None => Err(HttpErrorView::UnterminatedStream),
    }
}

/// The first index at or after `from` holding the byte `b`, as
/// [`find_sub`] of the one-byte sequence reports it.
pub fn find_byte(v: &Vec<u8>, b: u8, from: usize) -> (r: Option<usize>)
    requires
        from <= v@.len(),
    ensures
        match find_sub(v@, seq![b], from as int) {
            Some(i) => r matches Some(j) && j == i,
            None => r is None,
        },
{
    let n = v.len();
    let mut j = from;
    while j < n
        invariant
            n == v@.len(),
            from <= j <= n,
            forall|k: int| from <= k < j ==> !match_at(v@, seq![b], k),
        decreases n - j,
    {
        if v[j] == b {
            proof {
                assert(v@.subrange(j as int, j + 1) =~= seq![b]);
                lemma_find_sub_first(v@, seq![b], from as int, j as int);
            }
            return Some(j);
        }
        proof {
            if match_at(v@, seq![b], j as int) {
                assert(v@.subrange(j as int, j + 1) =~= seq![v@[j as int]]);
                assert(v@.subrange(j as int, j + 1)[0] == seq![b][0]);
                assert(false);
            }
        }
        j += 1;
    }
    proof {
        assert forall|k: int| from <= k implies !match_at(v@, seq![b], k) by {
            if k + 1 <= v@.len() {
                assert(v@.subrange(k, k + 1) =~= seq![v@[k]]);
            }
        }
        lemma_find_sub_none(v@, seq![b], from as int);
    }
    None
}

/// A copy of the bytes of `v` between the indices `i` and `j`.
pub fn subvec(v: &Vec<u8>, i: usize, j: usize) -> (r: Vec<u8>)
    requires
        i <= j <= v@.len(),
    ensures
        r@ == v@.subrange(i as int, j as int),
{
    let mut out: Vec<u8> = Vec::new();
    let mut k = i;
    while k < j
        invariant
            i <= k <= j <= v@.len(),
            out@ =~= v@.subrange(i as int, k as int),
        decreases j - k,
    {
        out.push(v[k]);
        k += 1;
    }
    proof {
        assert(out@ =~= v@.subrange(i as int, j as int));
    }
    out
}

/// An in-memory byte source with a read position.
///
/// Its view is the sequence of bytes not yet consumed; every successful
/// scan moves the position one byte past the end of the delimiter.
pub struct ByteSource {
    data: Vec<u8>,
    pos: usize,
}

impl View for ByteSource {
    type V = Seq<u8>;

    closed spec fn view(&self) -> Seq<u8> {
        if self.pos <= self.data.len() {
            self.data@.subrange(self.pos as int, self.data@.len() as int)
        } else {
            Seq::empty()
        }
    }
}

impl ByteSource {
    /// The read position never runs past the end of the data.
    #[verifier::type_invariant]
    closed spec fn wf(self) -> bool {
        self.pos <= self.data@.len()
    }

    /// Wraps a fully read byte stream as a source positioned at its start.
    pub fn new(data: Vec<u8>) -> (r: ByteSource)
        ensures
            r@ == data@,
    {
        let source = ByteSource { data, pos: 0 };
        proof {
            assert(source@ =~= source.data@);
        }
        source
    }

    /// How many bytes remain unconsumed.
    pub fn remaining(&self) -> (r: usize)
        ensures
            r == self@.len(),
    {
        proof {
            use_type_invariant(&*self);
        }
        self.data.len() - self.pos
    }

    /// Whether the delimiter `d` occurs in `self.data` at absolute index `at`.
    fn matches_at(&self, d: &[u8], at: usize) -> (r: bool)
        requires
            at + d@.len() <= self.data@.len(),
        ensures
            r == match_at(self.data@, d@, at as int),
    {
        let n = self.data.len();
        let dl = d.len();
        let mut k: usize = 0;
        while k < dl
            invariant
                n == self.data@.len(),
                dl == d@.len(),
                at + dl <= n,
                0 <= k <= dl,
                forall|j: int| 0 <= j < k ==> self.data@[at + j] == d@[j],
            decreases dl - k,
        {
            if self.data[at + k] != d[k] {
                assert(self.data@.subrange(at as int, at + d@.len()) != d@) by {
                    assert(self.data@.subrange(at as int, at + d@.len())[k as int]
                        != d@[k as int]);
                }
                return false;
            }
            k += 1;
        }
        assert(self.data@.subrange(at as int, at + d@.len()) =~= d@);
        true
    }

    /// Reads bytes until the delimiter `delimiter` is matched and returns
    /// everything read before it; the read position afterwards is exactly
    /// one byte past the end of the delimiter.  When the source is
    /// exhausted before the delimiter is ever matched, the scan fails with
    /// [`HttpError::UnterminatedStream`] and has consumed all input: it
    /// never returns partial data.
    pub fn scan_until(&mut self, delimiter: &[u8]) -> (r: Result<Vec<u8>, HttpError>)
        requires
            delimiter@.len() > 0,
        ensures
            match spec_scan(old(self)@, delimiter@) {
                Ok((content, rest)) => {
                    &&& r matches Ok(line) && line@ == content
                    &&& final(self)@ == rest
                },
                Err(e) => {
                    &&& r matches Err(err) && err@ == e
                    &&& final(self)@ == Seq::<u8>::empty()
                },
            },
    {
        proof {
            use_type_invariant(&*self);
        }
        let ghost s = self@;
        let ghost whole = self.data@;
        let ghost start = self.pos as int;
        let dlen = delimiter.len();
        let mut at = self.pos;
        let mut found = false;
        if dlen <= self.data.len() - self.pos {
            let limit = self.data.len() - dlen;
            while at <= limit
                invariant_except_break
                    whole == self.data@,
                    start == self.pos as int,
                    s == self@,
                    dlen == delimiter@.len(),
                    dlen > 0,
                    limit == self.data@.len() - dlen,
                    self.pos <= at <= limit + 1,
                    !found,
                    forall|k: int| start <= k < at ==> !match_at(whole, delimiter@, k),
                ensures
                    whole == self.data@,
                    start == self.pos as int,
                    s == self@,
                    dlen == delimiter@.len(),
                    limit == self.data@.len() - dlen,
                    self.pos <= at,
                    found ==> at <= limit && match_at(whole, delimiter@, at as int),
                    forall|k: int| start <= k < at ==> !match_at(whole, delimiter@, k),
                    !found ==> at == limit + 1,
                decreases limit + 1 - at,
            {
                if self.matches_at(delimiter, at) {
                    found = true;
                    break;
                }
                at += 1;
            }
            if found {
                // Copy out the bytes before the delimiter.
                let mut line: Vec<u8> = Vec::new();
                let mut j = self.pos;
                while j < at
                    invariant
                        whole == self.data@,
                        start == self.pos as int,
                        self.pos <= j <= at <= self.data@.len(),
                        line@ =~= whole.subrange(start, j as int),
                    decreases at - j,
                {
                    line.push(self.data[j]);
                    j += 1;
                }
                proof {
                    // The match found at absolute index `at` is the first one
                    // in the remaining view, at relative index `at - start`.
                    let i = at - start;
                    assert(s.subrange(i, i + delimiter@.len() as int)
                        =~= whole.subrange(at as int, at + delimiter@.len() as int));
                    assert(match_at(s, delimiter@, i));
                    assert forall|k: int| 0 <= k < i implies !match_at(s, delimiter@, k) by {
                        if match_at(s, delimiter@, k) {
                            assert(s.subrange(k, k + delimiter@.len() as int)
                                =~= whole.subrange(start + k, start + k + delimiter@.len() as int));
                            assert(match_at(whole, delimiter@, start + k));
                        }
                    }
                    lemma_find_sub_first(s, delimiter@, 0, i);
                    assert(line@ =~= s.subrange(0, i));
                }
                self.pos = at + dlen;
                proof {
                    let i = at - start;
                    assert(self@ =~= s.subrange(i + delimiter@.len() as int, s.len() as int));
                }
                return Ok(line);
            }
        }
        // The delimiter never occurs in what remains: consume everything.
        proof {
            assert forall|k: int| 0 <= k implies !match_at(s, delimiter@, k) by {
                if match_at(s, delimiter@, k) {
                    assert(s.subrange(k, k + delimiter@.len() as int)
                        =~= whole.subrange(start + k, start + k + delimiter@.len() as int));
                    assert(match_at(whole, delimiter@, start + k));
                }
            }
            lemma_find_sub_none(s, delimiter@, 0);
        }
        self.pos = self.data.len();
        proof {
            assert(self@ =~= Seq::<u8>::empty());
        }
        Err(HttpError::UnterminatedStream)
    }
}

} // verus!
