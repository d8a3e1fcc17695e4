//! Delimiter-seeking reader: consumes bytes until a fixed delimiter sequence
//! has just been read, using a naive restart matcher (on a mismatch the
//! partial-match index resets to zero; the mismatching byte is not retried
//! against the start of the delimiter). This is deliberately not a full
//! string-search automaton: for delimiters with self-overlapping structure it
//! can pass over an occurrence.

use vstd::prelude::*;

verus! {

/// One transition of the naive matcher: a partial match of length `idx`
/// either grows by one byte or collapses back to zero.
pub open spec fn step_spec(pattern: Seq<u8>, idx: int, b: u8) -> int {
    if 0 <= idx < pattern.len() && b == pattern[idx] {
        idx + 1
    } else {
        0
    }
}

/// Runs the naive matcher over `stream` from offset `i`, with a partial match
/// of length `idx` already in hand. Yields the total number of bytes consumed
/// when the delimiter is completed, or `None` when the stream ends first.
pub open spec fn scan_from(pattern: Seq<u8>, stream: Seq<u8>, i: int, idx: int) -> Option<int>
    decreases stream.len() - i,
{
    if idx == pattern.len() {
        Some(i)
    } else if i < 0 || i >= stream.len() {
        None
    } else {
        scan_from(pattern, stream, i + 1, step_spec(pattern, idx, stream[i]))
    }
}

/// Number of bytes the reader consumes from `stream` before the delimiter
/// `pattern` has just been read, or `None` when the stream is exhausted first.
pub open spec fn scan(pattern: Seq<u8>, stream: Seq<u8>) -> Option<int> {
    scan_from(pattern, stream, 0, 0)
}

/// `pattern` occurs in `stream` starting at byte offset `pos`.
pub open spec fn occurs_at(stream: Seq<u8>, pattern: Seq<u8>, pos: int) -> bool {
    &&& 0 <= pos
    &&& pos + pattern.len() <= stream.len()
    &&& stream.subrange(pos, pos + pattern.len()) == pattern
}

proof fn lemma_scan_from_sound(pattern: Seq<u8>, stream: Seq<u8>, i: int, idx: int)
    requires
        0 <= idx <= pattern.len(),
        idx <= i <= stream.len(),
        stream.subrange(i - idx, i) == pattern.subrange(0, idx),
        scan_from(pattern, stream, i, idx) is Some,
    ensures
        ({
            let c = scan_from(pattern, stream, i, idx)->Some_0;
            &&& i <= c <= stream.len()
            &&& pattern.len() <= c
            &&& occurs_at(stream, pattern, c - pattern.len())
        }),
    decreases stream.len() - i,
{
    if idx == pattern.len() {
        assert(pattern.subrange(0, pattern.len() as int) =~= pattern);
    } else {
        let b = stream[i];
        let idx2 = step_spec(pattern, idx, b);
        if b == pattern[idx] {
            assert(stream.subrange(i - idx, i + 1) =~= pattern.subrange(0, idx + 1)) by {
                assert forall|j: int| 0 <= j < idx + 1 implies #[trigger] stream.subrange(
                    i - idx,
                    i + 1,
                )[j] == pattern.subrange(0, idx + 1)[j] by {
                    if j < idx {
                        assert(stream.subrange(i - idx, i)[j] == pattern.subrange(0, idx)[j]);
                    }
                }
            }
        } else {
            assert(stream.subrange(i + 1, i + 1) =~= pattern.subrange(0, 0));
        }
        lemma_scan_from_sound(pattern, stream, i + 1, idx2);
    }
}

/// When the reader succeeds after consuming `c` bytes, the last bytes it
/// consumed are exactly the delimiter: `c` is at least the delimiter length
/// and the delimiter occurs ending at offset `c`.
pub proof fn lemma_success_ends_with_delimiter(pattern: Seq<u8>, stream: Seq<u8>)
    requires
        scan(pattern, stream) is Some,
    ensures
        ({
            let c = scan(pattern, stream)->Some_0;
            &&& pattern.len() <= c <= stream.len()
            &&& occurs_at(stream, pattern, c - pattern.len())
        }),
{
    assert(stream.subrange(0, 0) =~= pattern.subrange(0, 0));
    lemma_scan_from_sound(pattern, stream, 0, 0);
}

/// If the delimiter occurs nowhere in the stream, the reader fails instead of
/// reporting a truncated match.
pub proof fn lemma_fails_without_occurrence(pattern: Seq<u8>, stream: Seq<u8>)
    requires
        forall|pos: int| !occurs_at(stream, pattern, pos),
    ensures
        scan(pattern, stream) is None,
{
    if scan(pattern, stream) is Some {
        lemma_success_ends_with_delimiter(pattern, stream);
        let c = scan(pattern, stream)->Some_0;
        assert(occurs_at(stream, pattern, c - pattern.len()));
    }
}

/// Incremental form of the reader for a stream whose bytes arrive one at a
/// time: the caller feeds each consumed byte and stops at the first match.
pub struct DelimiterMatcher {
    pattern: Vec<u8>,
    idx: usize,
    consumed: Ghost<Seq<u8>>,
}

impl DelimiterMatcher {
    /// The delimiter being sought.
    pub closed spec fn pattern(self) -> Seq<u8> {
        self.pattern@
    }

    /// Every byte fed so far, in order.
    pub closed spec fn consumed(self) -> Seq<u8> {
        self.consumed@
    }

    /// Length of the partial match currently in hand.
    pub closed spec fn progress(self) -> int {
        self.idx as int
    }

    /// The delimiter has just been read in full.
    pub open spec fn matched(self) -> bool {
        self.progress() == self.pattern().len()
    }

    /// The partial match in hand is real: the last `progress()` bytes fed
    /// equal the first `progress()` bytes of the delimiter.
    pub closed spec fn wf(self) -> bool {
        &&& self.pattern@.len() > 0
        &&& self.idx <= self.pattern@.len()
        &&& self.idx <= self.consumed@.len()
        &&& self.consumed@.subrange(
            self.consumed@.len() - self.idx,
            self.consumed@.len() as int,
        ) == self.pattern@.subrange(0, self.idx as int)
    }

    /// A matcher that has consumed nothing.
    pub fn new(pattern: Vec<u8>) -> (m: Self)
        requires
            pattern@.len() > 0,
        ensures
            m.wf(),
            m.pattern() == pattern@,
            m.consumed() == Seq::<u8>::empty(),
            !m.matched(),
    {
        let m = DelimiterMatcher { pattern, idx: 0, consumed: Ghost(Seq::empty()) };
        proof {
            assert(m.consumed@.subrange(0, 0) =~= m.pattern@.subrange(0, 0));
        }
        m
    }

    /// Feeds one consumed byte; reports whether the delimiter has just been
    /// completed. The partial-match index advances on a matching byte and
    /// resets to zero otherwise (naive restart).
    pub fn step(&mut self, b: u8) -> (done: bool)
        requires
            old(self).wf(),
            !old(self).matched(),
        ensures
            final(self).wf(),
            final(self).pattern() == old(self).pattern(),
            final(self).consumed() == old(self).consumed().push(b),
            final(self).progress() == step_spec(old(self).pattern(), old(self).progress(), b),
            done == final(self).matched(),
    {
        self.consumed = Ghost(self.consumed@.push(b));
        let n = self.pattern.len();
        if b == self.pattern[self.idx] {
            assert(self.idx < n);
            self.idx = self.idx + 1;
            proof {
                let s = self.consumed@;
                let n = s.len() as int;
                let idx = self.idx as int;
                assert forall|j: int| 0 <= j < idx implies #[trigger] s.subrange(n - idx, n)[j]
                    == self.pattern@.subrange(0, idx)[j] by {
                    if j < idx - 1 {
                        assert(old(self).consumed@.subrange(n - idx, n - 1)[j] == self.pattern@.subrange(
                            0,
                            idx - 1,
                        )[j]);
                    }
                }
                assert(s.subrange(n - idx, n) =~= self.pattern@.subrange(0, idx));
            }
        } else {
            self.idx = 0;
            proof {
                let s = self.consumed@;
                assert(s.subrange(s.len() as int, s.len() as int) =~= self.pattern@.subrange(0, 0));
            }
        }
        self.idx == self.pattern.len()
    }
}

/// Once the matcher reports a match, the bytes consumed end with exactly the
/// delimiter.
pub proof fn lemma_matched_ends_with_delimiter(m: DelimiterMatcher)
    requires
        m.wf(),
        m.matched(),
    ensures
        m.consumed().len() >= m.pattern().len(),
        occurs_at(m.consumed(), m.pattern(), m.consumed().len() - m.pattern().len()),
{
    assert(m.pattern().subrange(0, m.pattern().len() as int) =~= m.pattern());
}

/// Runs the reader over an in-memory stream: consumes bytes into `out` until
/// the delimiter has just been read, returning the total count of bytes
/// consumed, delimiter included. Fails with `None` exactly when the stream
/// ends before the delimiter is found, after consuming every byte.
pub fn read_until_slice(pattern: &Vec<u8>, stream: &Vec<u8>, out: &mut Vec<u8>) -> (r: Option<
    usize,
>)
    requires
        pattern@.len() > 0,
    ensures
        (match r {
            Some(c) => scan(pattern@, stream@) == Some(c as int) && final(out)@ == old(out)@
                + stream@.take(c as int),
            None => scan(pattern@, stream@) is None && final(out)@ == old(out)@ + stream@,
        }),
{
    let mut idx: usize = 0;
    let mut i: usize = 0;
    loop
        invariant
            pattern@.len() > 0,
            idx <= pattern@.len(),
            i <= stream@.len(),
            out@ == old(out)@ + stream@.take(i as int),
            scan_from(pattern@, stream@, i as int, idx as int) == scan(pattern@, stream@),
        decreases stream@.len() - i,
    {
        if idx == pattern.len() {
            return Some(i);
        }
        if i >= stream.len() {
            proof {
                assert(stream@.take(i as int) =~= stream@);
            }
            return None;
        }
        let b = stream[i];
        out.push(b);
        proof {
            assert(stream@.take(i + 1).drop_last() =~= stream@.take(i as int));
            assert(stream@.take(i + 1) =~= stream@.take(i as int).push(b));
        }
        if b == pattern[idx] {
            idx = idx + 1;
        } else {
            idx = 0;
        }
        i = i + 1;
    }
}

proof fn lemma_skip_junk(pattern: Seq<u8>, stream: Seq<u8>, i: int, pos: int)
    requires
        pattern.len() > 0,
        0 <= i <= pos <= stream.len(),
        forall|j: int| i <= j < pos ==> stream[j] != pattern[0],
    ensures
        scan_from(pattern, stream, i, 0) == scan_from(pattern, stream, pos, 0),
    decreases pos - i,
{
    if i < pos {
        assert(step_spec(pattern, 0, stream[i]) == 0);
        lemma_skip_junk(pattern, stream, i + 1, pos);
    }
}

proof fn lemma_match_through(pattern: Seq<u8>, stream: Seq<u8>, pos: int, k: int)
    requires
        occurs_at(stream, pattern, pos),
        0 <= k <= pattern.len(),
    ensures
        scan_from(pattern, stream, pos + k, k) == Some(pos + pattern.len()),
    decreases pattern.len() - k,
{
    if k < pattern.len() {
        assert(stream.subrange(pos, pos + pattern.len())[k] == stream[pos + k]);
        assert(stream[pos + k] == pattern[k]);
        assert(step_spec(pattern, k, stream[pos + k]) == k + 1);
        lemma_match_through(pattern, stream, pos, k + 1);
    }
}

/// When the delimiter occurs at `pos` and its first byte occurs nowhere
/// earlier in the stream, the reader consumes exactly through the end of that
/// occurrence, which is the first occurrence. (Without the side condition the
/// naive restart matcher may pass over an occurrence: delimiter `ab` in
/// stream `aab`, for example.)
pub proof fn lemma_finds_first_occurrence(pattern: Seq<u8>, stream: Seq<u8>, pos: int)
    requires
        pattern.len() > 0,
        occurs_at(stream, pattern, pos),
        forall|j: int| 0 <= j < pos ==> stream[j] != pattern[0],
    ensures
        scan(pattern, stream) == Some(pos + pattern.len() as int),
        forall|q: int| 0 <= q < pos ==> !occurs_at(stream, pattern, q),
{
    lemma_skip_junk(pattern, stream, 0, pos);
    lemma_match_through(pattern, stream, pos, 0);
    assert forall|q: int| 0 <= q < pos implies !occurs_at(stream, pattern, q) by {
        if occurs_at(stream, pattern, q) {
            assert(stream.subrange(q, q + pattern.len())[0] == stream[q]);
        }
    }
}

} // verus!
