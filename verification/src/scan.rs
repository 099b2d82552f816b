//! Incremental detection of the head terminator `\r\n\r\n`.
//!
//! The scanner tracks, across arbitrarily sized chunks, how many trailing
//! bytes of everything seen so far match a prefix of the terminator. Because
//! the terminator overlaps itself (`\r\n` recurs at its start), a failed
//! partial match is re-evaluated through the pattern's failure function
//! rather than flatly reset.
use vstd::prelude::*;

verus! {

/// The four terminator bytes CR LF CR LF that end an HTTP/1.x head.
pub open spec fn terminator() -> Seq<u8> {
    seq![13u8, 10u8, 13u8, 10u8]
}

/// The last `k` bytes of `s` equal the first `k` bytes of the terminator.
pub open spec fn matches_prefix(s: Seq<u8>, k: int) -> bool {
    let n = s.len() as int;
    if k == 0 {
        true
    } else if k == 1 {
        n >= 1 && s[n - 1] == 13u8
    } else if k == 2 {
        n >= 2 && s[n - 2] == 13u8 && s[n - 1] == 10u8
    } else if k == 3 {
        n >= 3 && s[n - 3] == 13u8 && s[n - 2] == 10u8 && s[n - 1] == 13u8
    } else if k == 4 {
        n >= 4 && s[n - 4] == 13u8 && s[n - 3] == 10u8 && s[n - 2] == 13u8 && s[n - 1] == 10u8
    } else {
        false
    }
}

/// The longest terminator prefix matched by a suffix of `s`.
pub open spec fn overlap_of(s: Seq<u8>) -> int {
    if matches_prefix(s, 4) {
        4
    } else if matches_prefix(s, 3) {
        3
    } else if matches_prefix(s, 2) {
        2
    } else if matches_prefix(s, 1) {
        1
    } else {
        0
    }
}

/// The terminator occupies `s[i .. i + 4]`.
pub open spec fn terminator_at(s: Seq<u8>, i: int) -> bool {
    &&& 0 <= i
    &&& i + 4 <= s.len()
    &&& s[i] == 13u8
    &&& s[i + 1] == 10u8
    &&& s[i + 2] == 13u8
    &&& s[i + 3] == 10u8
}

/// `s` contains the terminator somewhere.
pub open spec fn has_terminator(s: Seq<u8>) -> bool {
    exists|i: int| terminator_at(s, i)
}

/// `n` is the head length of `s`: the first terminator occurrence ends
/// exactly at byte `n`.
pub open spec fn is_head_len(s: Seq<u8>, n: int) -> bool {
    &&& terminator_at(s, n - 4)
    &&& forall|j: int| j < n - 4 ==> !terminator_at(s, j)
}

/// No head of `s` ends within the first `cap` bytes.
pub open spec fn no_head_within(s: Seq<u8>, cap: int) -> bool {
    forall|e: int| is_head_len(s, e) ==> e > cap
}

/// A matched suffix never beats the recorded overlap.
pub proof fn lemma_overlap_max(s: Seq<u8>, k: int)
    requires
        matches_prefix(s, k),
    ensures
        k <= overlap_of(s),
{
}

/// The head boundary is unique: however the input was chunked, every scan
/// that completes reports the same head length.
pub proof fn lemma_head_len_unique(s: Seq<u8>, n1: int, n2: int)
    requires
        is_head_len(s, n1),
        is_head_len(s, n2),
    ensures
        n1 == n2,
{
    if n1 < n2 {
        assert(terminator_at(s, n1 - 4));
        assert(!terminator_at(s, n1 - 4));
    }
    if n2 < n1 {
        assert(terminator_at(s, n2 - 4));
        assert(!terminator_at(s, n2 - 4));
    }
}

/// At a head boundary, the last four bytes of the head are exactly the
/// terminator: completion is never reported on a partial match.
pub proof fn lemma_head_ends_with_terminator(s: Seq<u8>, n: int)
    requires
        is_head_len(s, n),
    ensures
        4 <= n <= s.len(),
        s.subrange(n - 4, n) == terminator(),
{
    assert(s.subrange(n - 4, n) =~= terminator());
}

/// Wherever the terminator occurs, a first occurrence exists.
pub proof fn lemma_first_head_exists(s: Seq<u8>)
    requires
        has_terminator(s),
    ensures
        exists|n: int| is_head_len(s, n),
{
    let i = choose|i: int| terminator_at(s, i);
    lemma_first_head_from(s, i);
}

proof fn lemma_first_head_from(s: Seq<u8>, i: int)
    requires
        terminator_at(s, i),
    ensures
        exists|n: int| is_head_len(s, n),
    decreases i,
{
    if exists|j: int| j < i && terminator_at(s, j) {
        let j = choose|j: int| j < i && terminator_at(s, j);
        lemma_first_head_from(s, j);
    } else {
        assert(is_head_len(s, i + 4));
    }
}

/// A head found in a prefix is the head of the whole sequence.
pub proof fn lemma_head_len_extend(s: Seq<u8>, n: int)
    requires
        0 <= n <= s.len(),
        is_head_len(s.take(n), n),
    ensures
        is_head_len(s, n),
{
    assert forall|j: int| j < n - 4 implies !terminator_at(s, j) by {
        if terminator_at(s, j) {
            assert(terminator_at(s.take(n), j));
        }
    }
    assert(terminator_at(s, n - 4));
}

/// If the first `m` bytes hold no terminator, a head can end no earlier than
/// after the bytes that could still complete the current partial match. This
/// is what makes the per-read bound sound: a scan never stops short of, nor
/// runs past, the true boundary.
pub proof fn lemma_earliest_head_end(s: Seq<u8>, m: int)
    requires
        0 <= m <= s.len(),
        !has_terminator(s.take(m)),
    ensures
        forall|e: int| is_head_len(s, e) ==> e >= m + 4 - overlap_of(s.take(m)),
{
    let o = overlap_of(s.take(m));
    assert forall|e: int| is_head_len(s, e) implies e >= m + 4 - o by {
        assert(terminator_at(s, e - 4));
        if e < m + 4 - o {
            if e <= m {
                assert(terminator_at(s.take(m), e - 4));
            } else {
                let k = m - e + 4;
                assert(1 <= k <= 4);
                assert(s[e - 4] == 13u8 && s[e - 3] == 10u8 && s[e - 2] == 13u8);
                assert(forall|x: int| 0 <= x < m ==> s.take(m)[x] == s[x]);
                assert(matches_prefix(s.take(m), k));
                lemma_overlap_max(s.take(m), k);
            }
        }
    }
}

/// One byte of the terminator automaton: the next overlap after reading `b`
/// in state `o`.
pub open spec fn step(o: int, b: u8) -> int {
    if o == 0 {
        if b == 13u8 {
            1
        } else {
            0
        }
    } else if o == 1 {
        if b == 10u8 {
            2
        } else if b == 13u8 {
            1
        } else {
            0
        }
    } else if o == 2 {
        if b == 13u8 {
            3
        } else {
            0
        }
    } else if o == 3 {
        if b == 10u8 {
            4
        } else if b == 13u8 {
            1
        } else {
            0
        }
    } else {
        0
    }
}

/// The automaton step is exactly the overlap of the extended sequence, and it
/// completes exactly when the terminator has just appeared.
pub proof fn lemma_step(s: Seq<u8>, b: u8)
    requires
        !has_terminator(s),
    ensures
        overlap_of(s.push(b)) == step(overlap_of(s), b),
        step(overlap_of(s), b) == 4 ==> is_head_len(s.push(b), s.len() as int + 1),
        step(overlap_of(s), b) < 4 ==> !has_terminator(s.push(b)),
{
    let n = s.len() as int;
    let t = s.push(b);
    let o = overlap_of(s);
    assert(t.len() == n + 1);
    assert(t[n] == b);
    assert(forall|x: int| 0 <= x < n ==> t[x] == s[x]);
    if matches_prefix(s, 4) {
        assert(terminator_at(s, n - 4));
        assert(false);
    }
    assert(overlap_of(t) == step(o, b));
    if step(o, b) == 4 {
        assert(matches_prefix(t, 4));
        assert(terminator_at(t, n - 3));
        assert forall|j: int| j < n - 3 implies !terminator_at(t, j) by {
            if terminator_at(t, j) {
                assert(terminator_at(s, j));
            }
        }
        assert(is_head_len(t, n + 1));
    } else {
        assert forall|j: int| !terminator_at(t, j) by {
            if terminator_at(t, j) {
                if j + 4 <= n {
                    assert(terminator_at(s, j));
                } else {
                    assert(j == n - 3);
                    assert(matches_prefix(s, 3));
                    lemma_overlap_max(s, 3);
                    assert(o == 3 && b == 10u8);
                }
            }
        }
    }
}

/// Stateful matcher for the head terminator: remembers how many trailing
/// bytes of everything processed so far match a terminator prefix.
pub struct TerminatorOverlap {
    overlap: usize,
    seen: Ghost<Seq<u8>>,
}

impl TerminatorOverlap {
    /// All bytes this scanner has processed so far.
    pub closed spec fn seen(&self) -> Seq<u8> {
        self.seen@
    }

    /// The current match state, 4 once the terminator has completed.
    pub closed spec fn matched(&self) -> int {
        self.overlap as int
    }

    /// The scanner's abstraction: before completion the match state is the
    /// true overlap and no terminator has been seen; at completion the bytes
    /// seen are exactly one head.
    pub open spec fn inv(&self) -> bool {
        if self.matched() == 4 {
            is_head_len(self.seen(), self.seen().len() as int)
        } else {
            &&& 0 <= self.matched() < 4
            &&& !has_terminator(self.seen())
            &&& self.matched() == overlap_of(self.seen())
        }
    }

    pub fn new() -> (r: Self)
        ensures
            r.inv(),
            r.seen() == Seq::<u8>::empty(),
            r.matched() == 0,
    {
        proof {
            assert forall|i: int| !terminator_at(Seq::<u8>::empty(), i) by {}
        }
        TerminatorOverlap { overlap: 0, seen: Ghost(Seq::empty()) }
    }

    /// Bytes still needed to complete the terminator; bounds the next read so
    /// a read can never run past the head boundary.
    pub fn remaining(&self) -> (r: usize)
        requires
            self.inv(),
        ensures
            r == 4 - self.matched(),
    {
        4 - self.overlap
    }

    /// True iff the bytes seen so far contain the full terminator.
    pub fn done(&self) -> (r: bool)
        requires
            self.inv(),
        ensures
            r <==> self.matched() == 4,
            r <==> has_terminator(self.seen()),
    {
        proof {
            if self.matched() == 4 {
                assert(terminator_at(self.seen(), self.seen().len() - 4));
            }
        }
        self.overlap == 4
    }

    /// Clamp a read-buffer length so that a read of that many bytes can never
    /// run past the terminator.
    pub fn max_read_buf(&self, len: usize) -> (r: usize)
        requires
            self.inv(),
        ensures
            r <= len && r <= 4 - self.matched(),
            r == len || r == 4 - self.matched(),
    {
        let rem = 4 - self.overlap;
        if len <= rem {
            len
        } else {
            rem
        }
    }

    /// Feed one newly read chunk, no longer than `remaining()`.
    pub fn process(&mut self, data: &[u8])
        requires
            old(self).inv(),
            old(self).matched() < 4,
            data@.len() <= 4 - old(self).matched(),
        ensures
            final(self).inv(),
            final(self).seen() == old(self).seen() + data@,
            final(self).matched() == 4 <==> has_terminator(final(self).seen()),
            final(self).matched() == 4 ==> data@.len() == 4 - old(self).matched(),
    {
        let ghost start = self.seen@;
        let ghost base = self.overlap as int;
        let mut i: usize = 0;
        while i < data.len()
            invariant
                i <= data@.len(),
                data@.len() <= 4 - base,
                0 <= base < 4,
                self.seen@ == start + data@.take(i as int),
                self.overlap <= base + i,
                if self.overlap == 4 {
                    is_head_len(self.seen@, self.seen@.len() as int)
                } else {
                    &&& !has_terminator(self.seen@)
                    &&& self.overlap == overlap_of(self.seen@)
                },
                self.overlap == 4 ==> i == data@.len(),
            decreases data@.len() - i,
        {
            let b = data[i];
            proof {
                assert(self.overlap < 4);
                lemma_step(self.seen@, b);
            }
            let o = self.overlap;
            self.overlap = if o == 0 {
                if b == 13 {
                    1
                } else {
                    0
                }
            } else if o == 1 {
                if b == 10 {
                    2
                } else if b == 13 {
                    1
                } else {
                    0
                }
            } else if o == 2 {
                if b == 13 {
                    3
                } else {
                    0
                }
            } else {
                if b == 10 {
                    4
                } else if b == 13 {
                    1
                } else {
                    0
                }
            };
            proof {
                self.seen@ = self.seen@.push(b);
            }
            i = i + 1;
            proof {
                assert(self.seen@ =~= start + data@.take(i as int));
            }
        }
        proof {
            assert(data@.take(data@.len() as int) =~= data@);
            if self.matched() == 4 {
                assert(terminator_at(self.seen(), self.seen().len() - 4));
            }
        }
    }
}

} // verus!
