//! Suspendable request-head decoding over a non-blocking byte source.
//!
//! The decoder is an explicit state object with one advance operation:
//! each poll attempts bounded reads; if the source is not ready the decoder
//! suspends with no byte lost or duplicated, and it can be resumed later.
//! On a terminal outcome the decoder must not be polled again — its
//! contract excludes re-polling a finished decode. One entry point owns the
//! transport and returns it beside the head; the other works through a
//! reference handed to each poll, and both drive the same engine.
use vstd::prelude::*;

use vstd::pervasive::unreached;

use crate::HeadError;
use crate::accum::{FillStep, HeadAccumulator};
use crate::request::{RequestHead, RequestModel, decoded_request, request_head_parse, request_wf};
use crate::scan::{has_terminator, is_head_len, no_head_within};
use crate::source::NonBlockingSource;

verus! {

/// Configuration for one request-head decode: the byte ceiling and the
/// header-count maximum.
#[derive(Clone, Copy, Debug)]
pub struct RequestHeadDecoder {
    /// Total byte ceiling for one head.
    pub max_head_size: usize,
    /// Maximum number of header fields.
    pub max_headers: usize,
}

impl Default for RequestHeadDecoder {
    fn default() -> (r: Self)
        ensures
            r.max_head_size == 8192,
            r.max_headers == 128,
    {
        RequestHeadDecoder { max_head_size: 8192, max_headers: 128 }
    }
}

/// The outcome of one poll of the borrowing decoder.
pub enum HeadPoll {
    /// The source was not ready; resume later.
    Pending,
    /// The decode reached its terminal outcome.
    Complete(Result<RequestHead, HeadError>),
}

/// The outcome of one poll of the owning decoder: on success the transport
/// comes back beside the head.
pub enum HeadPollOwned<R> {
    Pending,
    Complete(Result<(R, RequestHead), HeadError>),
}

/// A suspended request-head decode that borrows its transport afresh on
/// every poll; the caller keeps the transport throughout.
pub struct RequestHeadDecodeRef {
    acc: HeadAccumulator,
    max_headers: usize,
    terminal: bool,
}

impl RequestHeadDecodeRef {
    /// The bytes accumulated so far.
    pub closed spec fn buf(&self) -> Seq<u8> {
        self.acc.buf()
    }

    /// The byte ceiling for one head.
    pub closed spec fn cap(&self) -> int {
        self.acc.cap()
    }

    /// The maximum number of header fields.
    pub closed spec fn max_fields(&self) -> int {
        self.max_headers as int
    }

    /// Whether the decode has reached a terminal outcome. A terminal decode
    /// must not be polled again.
    pub closed spec fn terminal_state(&self) -> bool {
        self.terminal
    }

    pub closed spec fn wf(&self) -> bool {
        self.acc.wf() && (!self.terminal ==> !self.acc.complete())
    }

    /// How many bytes to request from the transport next: reads bounded by
    /// this count can never run past the head boundary.
    pub closed spec fn needed_bytes(&self) -> int {
        self.acc.missing()
    }

    pub fn needed(&self) -> (r: usize)
        requires
            self.wf(),
            !self.terminal_state(),
        ensures
            r == self.needed_bytes(),
            1 <= r <= 4,
    {
        self.acc.needed()
    }

    /// Hand the decoder one freshly read chunk of at most `needed()` bytes:
    /// the explicit-event form of the decode, for callers that perform
    /// their own reads. The outcome is a function of the bytes alone, not
    /// of how they were chunked.
    pub fn feed_data(&mut self, chunk: &[u8]) -> (r: HeadPoll)
        requires
            old(self).wf(),
            !old(self).terminal_state(),
            1 <= chunk@.len() <= old(self).needed_bytes(),
        ensures
            final(self).cap() == old(self).cap(),
            final(self).max_fields() == old(self).max_fields(),
            final(self).buf().len() <= final(self).cap(),
            ({
                let inp = old(self).buf() + chunk@;
                match r {
                    HeadPoll::Pending => {
                        &&& !final(self).terminal_state()
                        &&& final(self).wf()
                        &&& final(self).buf() == inp
                    },
                    HeadPoll::Complete(res) => {
                        &&& final(self).terminal_state()
                        &&& match res {
                            Ok(h) => {
                                &&& is_head_len(inp, inp.len() as int)
                                &&& inp.len() <= old(self).cap()
                                &&& final(self).buf() == inp
                                &&& decoded_request(inp, old(self).max_fields()) == Ok::<
                                    RequestModel,
                                    HeadError,
                                >(h@)
                                &&& request_wf(h@)
                            },
                            Err(e) => {
                                &&& (e == HeadError::HeadTooLong ==> old(self).buf().len() + old(
                                    self,
                                ).needed_bytes() > old(self).cap())
                                &&& (e != HeadError::HeadTooLong ==> is_head_len(
                                    inp,
                                    inp.len() as int,
                                ) && decoded_request(inp, old(self).max_fields()) == Err::<
                                    RequestModel,
                                    HeadError,
                                >(e))
                            },
                        }
                    },
                }
            }),
    {
        match self.acc.feed(chunk) {
            Err(e) => {
                self.terminal = true;
                HeadPoll::Complete(Err(e))
            },
            Ok(false) => HeadPoll::Pending,
            Ok(true) => {
                self.terminal = true;
                HeadPoll::Complete(request_head_parse(self.acc.bytes(), self.max_headers))
            },
        }
    }

    /// Tell the decoder that the byte source ended before the terminator:
    /// the decode becomes terminal with the end-of-input failure.
    pub fn feed_end(&mut self) -> (r: HeadPoll)
        requires
            old(self).wf(),
            !old(self).terminal_state(),
        ensures
            final(self).terminal_state(),
            final(self).cap() == old(self).cap(),
            final(self).max_fields() == old(self).max_fields(),
            final(self).buf() == old(self).buf(),
            r == HeadPoll::Complete(Err::<RequestHead, HeadError>(HeadError::UnexpectedEnd)),
    {
        self.terminal = true;
        HeadPoll::Complete(Err(HeadError::UnexpectedEnd))
    }

    /// Attempt progress: bounded reads until the source is not ready or the
    /// decode finishes. The outcome is a function of the bytes the source
    /// delivers alone — chunk sizes and suspensions leave no trace.
    pub fn poll<T: NonBlockingSource>(&mut self, rd: &mut T) -> (r: HeadPoll)
        requires
            old(self).wf(),
            !old(self).terminal_state(),
        ensures
            final(self).cap() == old(self).cap(),
            final(self).max_fields() == old(self).max_fields(),
            final(self).buf().len() <= final(self).cap(),
            ({
                let inp = old(self).buf() + old(rd).stream();
                match r {
                    HeadPoll::Pending => {
                        &&& !final(self).terminal_state()
                        &&& final(self).wf()
                        &&& old(self).buf().is_prefix_of(final(self).buf())
                        &&& final(self).buf() + final(rd).stream() == inp
                    },
                    HeadPoll::Complete(res) => {
                        &&& final(self).terminal_state()
                        &&& match res {
                            Ok(h) => (exists|n: int|
                                {
                                    &&& #[trigger] is_head_len(inp, n)
                                    &&& 4 <= n <= old(self).cap()
                                    &&& decoded_request(inp.take(n), old(self).max_fields())
                                        == Ok::<RequestModel, HeadError>(h@)
                                    &&& request_wf(h@)
                                    &&& final(rd).stream() == inp.skip(n)
                                }),
                            Err(e) => {
                                &&& (e == HeadError::HeadTooLong ==> no_head_within(
                                    inp,
                                    old(self).cap(),
                                ))
                                &&& (e == HeadError::UnexpectedEnd ==> !has_terminator(inp)
                                    && inp.len() < old(self).cap())
                                &&& ((e != HeadError::HeadTooLong && e != HeadError::UnexpectedEnd
                                    && e != HeadError::Transport) ==> (exists|n: int|
                                    {
                                        &&& #[trigger] is_head_len(inp, n)
                                        &&& 4 <= n <= old(self).cap()
                                        &&& decoded_request(inp.take(n), old(self).max_fields())
                                            == Err::<RequestModel, HeadError>(e)
                                    }))
                            },
                        }
                    },
                }
            }),
    {
        match self.acc.fill_step(rd) {
            FillStep::Suspended => HeadPoll::Pending,
            FillStep::Finished(Err(e)) => {
                self.terminal = true;
                HeadPoll::Complete(Err(e))
            },
            FillStep::Finished(Ok(_n)) => {
                self.terminal = true;
                HeadPoll::Complete(request_head_parse(self.acc.bytes(), self.max_headers))
            },
        }
    }
}

/// A suspended request-head decode that owns its transport and returns it
/// beside the parsed head on success.
pub struct RequestHeadDecode<R: NonBlockingSource> {
    transport: Option<R>,
    core: RequestHeadDecodeRef,
}

impl<R: NonBlockingSource> RequestHeadDecode<R> {
    /// The bytes accumulated so far.
    pub closed spec fn buf(&self) -> Seq<u8> {
        self.core.buf()
    }

    /// The byte ceiling for one head.
    pub closed spec fn cap(&self) -> int {
        self.core.cap()
    }

    /// The maximum number of header fields.
    pub closed spec fn max_fields(&self) -> int {
        self.core.max_fields()
    }

    /// Whether the decode has reached a terminal outcome.
    pub closed spec fn terminal_state(&self) -> bool {
        self.core.terminal_state()
    }

    /// Everything this decode will ever see: the bytes already accumulated
    /// followed by whatever the owned transport still delivers.
    pub closed spec fn input(&self) -> Seq<u8> {
        match self.transport {
            Some(t) => self.core.buf() + t.stream(),
            None => self.core.buf(),
        }
    }

    pub closed spec fn wf(&self) -> bool {
        self.core.wf() && self.transport is Some
    }

    /// Attempt progress, as the borrowing decoder does; on the terminal
    /// success the owned transport comes back beside the head, positioned
    /// exactly after the head's last byte.
    pub fn poll(&mut self) -> (r: HeadPollOwned<R>)
        requires
            old(self).wf(),
            !old(self).terminal_state(),
        ensures
            final(self).cap() == old(self).cap(),
            final(self).max_fields() == old(self).max_fields(),
            final(self).buf().len() <= final(self).cap(),
            ({
                let inp = old(self).input();
                match r {
                    HeadPollOwned::Pending => {
                        &&& !final(self).terminal_state()
                        &&& final(self).wf()
                        &&& old(self).buf().is_prefix_of(final(self).buf())
                        &&& final(self).input() == inp
                    },
                    HeadPollOwned::Complete(res) => {
                        &&& final(self).terminal_state()
                        &&& match res {
                            Ok((t, h)) => (exists|n: int|
                                {
                                    &&& #[trigger] is_head_len(inp, n)
                                    &&& 4 <= n <= old(self).cap()
                                    &&& decoded_request(inp.take(n), old(self).max_fields())
                                        == Ok::<RequestModel, HeadError>(h@)
                                    &&& request_wf(h@)
                                    &&& t.stream() == inp.skip(n)
                                }),
                            Err(e) => {
                                &&& (e == HeadError::HeadTooLong ==> no_head_within(
                                    inp,
                                    old(self).cap(),
                                ))
                                &&& (e == HeadError::UnexpectedEnd ==> !has_terminator(inp)
                                    && inp.len() < old(self).cap())
                                &&& ((e != HeadError::HeadTooLong && e != HeadError::UnexpectedEnd
                                    && e != HeadError::Transport) ==> (exists|n: int|
                                    {
                                        &&& #[trigger] is_head_len(inp, n)
                                        &&& 4 <= n <= old(self).cap()
                                        &&& decoded_request(inp.take(n), old(self).max_fields())
                                            == Err::<RequestModel, HeadError>(e)
                                    }))
                            },
                        }
                    },
                }
            }),
    {
        let ghost inp0 = self.input();
        match self.transport.take() {
            Some(mut t) => {
                proof {
                    assert(inp0 == old(self).buf() + t.stream());
                }
                let step = self.core.poll(&mut t);
                match step {
                    HeadPoll::Pending => {
                        self.transport = Some(t);
                        proof {
                            assert(self.input() == inp0);
                        }
                        HeadPollOwned::Pending
                    },
                    HeadPoll::Complete(Ok(h)) => {
                        proof {
                            let n = choose|n: int|
                                {
                                    &&& #[trigger] is_head_len(inp0, n)
                                    &&& 4 <= n <= old(self).cap()
                                    &&& decoded_request(inp0.take(n), old(self).max_fields())
                                        == Ok::<RequestModel, HeadError>(h@)
                                    &&& request_wf(h@)
                                    &&& t.stream() == inp0.skip(n)
                                };
                            assert(is_head_len(inp0, n));
                        }
                        HeadPollOwned::Complete(Ok((t, h)))
                    },
                    HeadPoll::Complete(Err(e)) => HeadPollOwned::Complete(Err(e)),
                }
            },
            None => unreached(),
        }
    }
}

impl RequestHeadDecoder {
    /// Begin a decode that takes ownership of the transport for its
    /// duration and hands it back on completion.
    pub fn decode<R: NonBlockingSource>(self, transport: R) -> (d: RequestHeadDecode<R>)
        ensures
            d.wf(),
            !d.terminal_state(),
            d.buf() == Seq::<u8>::empty(),
            d.input() == transport.stream(),
            d.cap() == self.max_head_size,
            d.max_fields() == self.max_headers,
    {
        let d = RequestHeadDecode {
            transport: Some(transport),
            core: self.decode_ref(),
        };
        proof {
            assert(d.input() =~= transport.stream());
        }
        d
    }

    /// Begin a decode over a transport that the caller keeps: each poll
    /// borrows the transport only for that call.
    pub fn decode_ref(self) -> (d: RequestHeadDecodeRef)
        ensures
            d.wf(),
            !d.terminal_state(),
            d.buf() == Seq::<u8>::empty(),
            d.cap() == self.max_head_size,
            d.max_fields() == self.max_headers,
    {
        RequestHeadDecodeRef {
            acc: HeadAccumulator::new(self.max_head_size),
            max_headers: self.max_headers,
            terminal: false,
        }
    }
}

} // verus!
