//! The blocking request-head engine: accumulate one head from a blocking
//! byte source under the configured ceiling, then parse it.
use vstd::prelude::*;

use crate::HeadError;
use crate::accum::HeadAccumulator;
use crate::request::{RequestHead, RequestModel, decoded_request, request_wf};
use crate::request::request_head_parse;
use crate::scan::{has_terminator, is_head_len, no_head_within};
use crate::source::BlockingSource;

verus! {

/// Incremental reader of one request head from a blocking byte source:
/// a bounded accumulator plus the header-count configuration.
pub struct RequestHeadParse {
    acc: HeadAccumulator,
    max_headers: usize,
}

impl RequestHeadParse {
    /// The bytes accumulated so far.
    pub closed spec fn buf(&self) -> Seq<u8> {
        self.acc.buf()
    }

    /// The byte ceiling for one head.
    pub closed spec fn cap(&self) -> int {
        self.acc.cap()
    }

    /// The maximum number of header fields.
    pub closed spec fn max_fields(&self) -> int {
        self.max_headers as int
    }

    /// Whether the full terminator has been accumulated.
    pub closed spec fn complete(&self) -> bool {
        self.acc.complete()
    }

    pub closed spec fn wf(&self) -> bool {
        self.acc.wf()
    }

    pub fn new(max_buffer: usize, max_headers: usize) -> (r: Self)
        ensures
            r.wf(),
            !r.complete(),
            r.buf() == Seq::<u8>::empty(),
            r.cap() == max_buffer,
            r.max_fields() == max_headers,
    {
        RequestHeadParse { acc: HeadAccumulator::new(max_buffer), max_headers }
    }

    /// Read bounded chunks from `rd` until the terminator completes, the
    /// ceiling is hit, or the source fails; return the head length. The
    /// outcome depends only on the bytes the source delivers, never on how
    /// they are chunked.
    pub fn read_data<T: BlockingSource>(&mut self, rd: &mut T) -> (r: Result<usize, HeadError>)
        requires
            old(self).wf(),
        ensures
            final(self).wf(),
            final(self).cap() == old(self).cap(),
            final(self).max_fields() == old(self).max_fields(),
            final(self).buf().len() <= final(self).cap(),
            final(rd).reliable() == old(rd).reliable(),
            old(self).buf().is_prefix_of(final(self).buf()),
            final(self).buf() + final(rd).stream() == old(self).buf() + old(rd).stream(),
            ({
                let inp = old(self).buf() + old(rd).stream();
                match r {
                    Ok(n) => {
                        &&& n == final(self).buf().len()
                        &&& final(self).complete()
                        &&& is_head_len(inp, n as int)
                        &&& n <= final(self).cap()
                        &&& final(self).buf() == inp.take(n as int)
                        &&& final(rd).stream() == inp.skip(n as int)
                    },
                    Err(e) => {
                        &&& (e == HeadError::HeadTooLong ==> no_head_within(inp, old(self).cap()))
                        &&& (e == HeadError::UnexpectedEnd ==> (old(rd).reliable()
                            ==> !has_terminator(inp) && inp.len() < old(self).cap()))
                        &&& (e == HeadError::Transport ==> !old(rd).reliable())
                        &&& (e == HeadError::HeadTooLong || e == HeadError::UnexpectedEnd || e
                            == HeadError::Transport)
                    },
                }
            }),
    {
        self.acc.fill_blocking(rd)
    }

    /// Parse the accumulated buffer into a typed request head, or fail with
    /// exactly the error that `decoded_request` assigns to these bytes.
    pub fn try_take_head(&self) -> (r: Result<RequestHead, HeadError>)
        ensures
            match r {
                Ok(h) => decoded_request(self.buf(), self.max_fields()) == Ok::<
                    RequestModel,
                    HeadError,
                >(h@) && request_wf(h@),
                Err(e) => decoded_request(self.buf(), self.max_fields()) == Err::<
                    RequestModel,
                    HeadError,
                >(e),
            },
    {
        request_head_parse(self.acc.bytes(), self.max_headers)
    }
}

} // verus!
