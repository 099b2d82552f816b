//! The bounded accumulator: a byte buffer with a fixed capacity ceiling,
//! fused with the terminator scanner that watches everything appended.
//!
//! Filling stops exactly at the head boundary, fails with resource
//! exhaustion as soon as no head could end within the ceiling, and never
//! loses or duplicates a byte however the source chunks its data.
use vstd::prelude::*;

use crate::HeadError;
use crate::scan::{
    TerminatorOverlap, has_terminator, is_head_len, no_head_within,
    lemma_earliest_head_end, lemma_first_head_exists, lemma_head_len_extend,
};
use crate::source::{BlockingSource, NonBlockingSource, ReadFailure, ReadPoll};

verus! {

/// Accumulates one head's bytes under a fixed ceiling.
pub struct HeadAccumulator {
    buffer: Vec<u8>,
    terminator: TerminatorOverlap,
    max_buffer: usize,
}

/// One advance of the suspendable fill: either the source was not ready and
/// the fill can be resumed later, or it reached a terminal outcome.
pub enum FillStep {
    Suspended,
    Finished(Result<usize, HeadError>),
}

impl HeadAccumulator {
    /// The accumulated bytes.
    pub closed spec fn buf(&self) -> Seq<u8> {
        self.buffer@
    }

    /// The capacity ceiling fixed at construction.
    pub closed spec fn cap(&self) -> int {
        self.max_buffer as int
    }

    /// Whether the scanner has seen the full terminator.
    pub closed spec fn complete(&self) -> bool {
        self.terminator.matched() == 4
    }

    /// Internal consistency: the scanner has seen exactly the buffer, and
    /// the buffer respects the ceiling.
    pub closed spec fn wf(&self) -> bool {
        &&& self.terminator.inv()
        &&& self.terminator.seen() == self.buf()
        &&& self.buf().len() <= self.cap()
    }

    pub fn new(max_buffer: usize) -> (r: Self)
        ensures
            r.wf(),
            r.buf() == Seq::<u8>::empty(),
            r.cap() == max_buffer,
            !r.complete(),
    {
        HeadAccumulator {
            buffer: Vec::new(),
            terminator: TerminatorOverlap::new(),
            max_buffer,
        }
    }

    /// The accumulated bytes, for parsing once the fill is complete.
    pub fn bytes(&self) -> (r: &Vec<u8>)
        ensures
            r@ == self.buf(),
    {
        &self.buffer
    }

    /// Whether the full terminator has been accumulated.
    pub fn is_complete(&self) -> (r: bool)
        requires
            self.wf(),
        ensures
            r == self.complete(),
    {
        self.terminator.done()
    }

    /// How many bytes may be requested next without any risk of reading
    /// past the head boundary.
    pub closed spec fn missing(&self) -> int {
        4 - self.terminator.matched()
    }

    /// The bound for the next read.
    pub fn needed(&self) -> (r: usize)
        requires
            self.wf(),
            !self.complete(),
        ensures
            r == self.missing(),
            1 <= r <= 4,
    {
        self.terminator.remaining()
    }

    /// Append one freshly read chunk of at most `needed()` bytes: the
    /// explicit-event form of the fill, for callers that do their own
    /// reads. Returns whether the terminator is now complete, or the
    /// resource-exhaustion failure if no head can end within the ceiling.
    pub fn feed(&mut self, chunk: &[u8]) -> (r: Result<bool, HeadError>)
        requires
            old(self).wf(),
            !old(self).complete(),
            1 <= chunk@.len() <= old(self).missing(),
        ensures
            final(self).cap() == old(self).cap(),
            final(self).buf().len() <= final(self).cap(),
            match r {
                Ok(done) => {
                    &&& final(self).wf()
                    &&& final(self).buf() == old(self).buf() + chunk@
                    &&& done == final(self).complete()
                    &&& (done ==> is_head_len(final(self).buf(), final(self).buf().len() as int)
                        && final(self).buf().len() <= final(self).cap())
                },
                Err(e) => {
                    &&& e == HeadError::HeadTooLong
                    &&& *final(self) == *old(self)
                    &&& old(self).buf().len() + old(self).missing() > old(self).cap()
                },
            },
    {
        let need = self.terminator.remaining();
        if self.max_buffer - self.buffer.len() < need {
            return Err(HeadError::HeadTooLong);
        }
        self.terminator.process(chunk);
        self.buffer.extend_from_slice(chunk);
        proof {
            assert(self.buffer@ =~= old(self).buf() + chunk@);
        }
        Ok(self.terminator.done())
    }

    /// Read from a blocking source until the terminator completes, the
    /// ceiling is hit, or the source fails.
    pub fn fill_blocking<T: BlockingSource>(&mut self, rd: &mut T) -> (r: Result<
        usize,
        HeadError,
    >)
        requires
            old(self).wf(),
        ensures
            final(self).wf(),
            final(self).cap() == old(self).cap(),
            final(self).buf().len() <= final(self).cap(),
            final(rd).reliable() == old(rd).reliable(),
            old(self).buf().is_prefix_of(final(self).buf()),
            final(self).buf() + final(rd).stream() == old(self).buf() + old(rd).stream(),
            ({
                let inp = old(self).buf() + old(rd).stream();
                match r {
                    Ok(n) => {
                        &&& n == final(self).buf().len()
                        &&& final(self).complete()
                        &&& is_head_len(inp, n as int)
                        &&& n <= final(self).cap()
                        &&& final(self).buf() == inp.take(n as int)
                        &&& final(rd).stream() == inp.skip(n as int)
                    },
                    Err(e) => {
                        &&& (e == HeadError::HeadTooLong ==> no_head_within(inp, old(self).cap()))
                        &&& (e == HeadError::UnexpectedEnd ==> (old(rd).reliable()
                            ==> !has_terminator(inp) && inp.len() < old(self).cap()))
                        &&& (e == HeadError::Transport ==> !old(rd).reliable())
                        &&& (e == HeadError::HeadTooLong || e == HeadError::UnexpectedEnd || e
                            == HeadError::Transport)
                    },
                }
            }),
    {
        let ghost inp = self.buffer@ + rd.stream();
        let ghost b0 = self.buffer@;
        let ghost rel0 = rd.reliable();
        while !self.terminator.done()
            invariant
                self.wf(),
                self.max_buffer == old(self).max_buffer,
                rd.reliable() == old(rd).reliable(),
                rel0 == old(rd).reliable(),
                b0 == old(self).buf(),
                inp == old(self).buf() + old(rd).stream(),
                b0.is_prefix_of(self.buffer@),
                self.buffer@ + rd.stream() == inp,
            decreases self.max_buffer - self.buffer.len(),
        {
            let need = self.terminator.remaining();
            if self.max_buffer - self.buffer.len() < need {
                proof {
                    let m = self.buffer@.len() as int;
                    assert(inp.take(m) =~= self.buffer@);
                    lemma_earliest_head_end(inp, m);
                }
                return Err(HeadError::HeadTooLong);
            }
            match rd.read_exact(need) {
                Ok(mut chunk) => {
                    self.terminator.process(chunk.as_slice());
                    self.buffer.append(&mut chunk);
                    proof {
                        assert(self.buffer@ + rd.stream() =~= inp);
                        assert(b0.is_prefix_of(self.buffer@)) by {
                            assert(self.buffer@.take(b0.len() as int) =~= b0);
                        }
                    }
                },
                Err(ReadFailure::EndOfInput) => {
                    proof {
                        if rel0 {
                            let m = self.buffer@.len() as int;
                            assert(inp.take(m) =~= self.buffer@);
                            lemma_earliest_head_end(inp, m);
                            assert(inp.len() == m + rd.stream().len() < m + need);
                            if has_terminator(inp) {
                                lemma_first_head_exists(inp);
                                let n0 = choose|n0: int| is_head_len(inp, n0);
                                assert(is_head_len(inp, n0));
                                assert(false);
                            }
                        }
                    }
                    return Err(HeadError::UnexpectedEnd);
                },
                Err(ReadFailure::Broken) => {
                    return Err(HeadError::Transport);
                },
            }
        }
        proof {
            let n = self.buffer@.len() as int;
            assert(inp.take(n) =~= self.buffer@);
            lemma_head_len_extend(inp, n);
            assert(rd.stream() =~= inp.skip(n));
        }
        Ok(self.buffer.len())
    }

    /// Advance the fill against a non-blocking source: read until the source
    /// is not ready, or the fill reaches a terminal outcome. Suspending
    /// loses no byte; resuming duplicates none.
    pub fn fill_step<T: NonBlockingSource>(&mut self, rd: &mut T) -> (r: FillStep)
        requires
            old(self).wf(),
        ensures
            final(self).wf(),
            final(self).cap() == old(self).cap(),
            final(self).buf().len() <= final(self).cap(),
            old(self).buf().is_prefix_of(final(self).buf()),
            final(self).buf() + final(rd).stream() == old(self).buf() + old(rd).stream(),
            ({
                let inp = old(self).buf() + old(rd).stream();
                match r {
                    FillStep::Suspended => !final(self).complete(),
                    FillStep::Finished(res) => match res {
                        Ok(n) => {
                            &&& n == final(self).buf().len()
                            &&& final(self).complete()
                            &&& is_head_len(inp, n as int)
                            &&& n <= final(self).cap()
                            &&& final(self).buf() == inp.take(n as int)
                            &&& final(rd).stream() == inp.skip(n as int)
                        },
                        Err(e) => {
                            &&& (e == HeadError::HeadTooLong ==> no_head_within(
                                inp,
                                old(self).cap(),
                            ))
                            &&& (e == HeadError::UnexpectedEnd ==> !has_terminator(inp)
                                && inp.len() < old(self).cap())
                            &&& (e == HeadError::HeadTooLong || e == HeadError::UnexpectedEnd || e
                                == HeadError::Transport)
                        },
                    },
                }
            }),
    {
        let ghost inp = self.buffer@ + rd.stream();
        let ghost b0 = self.buffer@;
        while !self.terminator.done()
            invariant
                self.wf(),
                self.max_buffer == old(self).max_buffer,
                b0 == old(self).buf(),
                inp == old(self).buf() + old(rd).stream(),
                b0.is_prefix_of(self.buffer@),
                self.buffer@ + rd.stream() == inp,
            decreases self.max_buffer - self.buffer.len(),
        {
            let need = self.terminator.remaining();
            if self.max_buffer - self.buffer.len() < need {
                proof {
                    let m = self.buffer@.len() as int;
                    assert(inp.take(m) =~= self.buffer@);
                    lemma_earliest_head_end(inp, m);
                }
                return FillStep::Finished(Err(HeadError::HeadTooLong));
            }
            match rd.poll_read(need) {
                ReadPoll::Data(mut chunk) => {
                    self.terminator.process(chunk.as_slice());
                    self.buffer.append(&mut chunk);
                    proof {
                        assert(self.buffer@ + rd.stream() =~= inp);
                        assert(b0.is_prefix_of(self.buffer@)) by {
                            assert(self.buffer@.take(b0.len() as int) =~= b0);
                        }
                    }
                },
                ReadPoll::NotReady => {
                    return FillStep::Suspended;
                },
                ReadPoll::AtEnd => {
                    proof {
                        assert(inp =~= self.buffer@);
                        assert(inp.len() + need <= self.max_buffer);
                    }
                    return FillStep::Finished(Err(HeadError::UnexpectedEnd));
                },
                ReadPoll::Failed => {
                    return FillStep::Finished(Err(HeadError::Transport));
                },
            }
        }
        proof {
            let n = self.buffer@.len() as int;
            assert(inp.take(n) =~= self.buffer@);
            lemma_head_len_extend(inp, n);
            assert(rd.stream() =~= inp.skip(n));
        }
        FillStep::Finished(Ok(self.buffer.len()))
    }
}

} // verus!
