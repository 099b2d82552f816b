//! Byte sources feeding the decoders.
//!
//! The decoders are generic over a blocking source (read exactly N bytes or
//! fail) and a non-blocking source (try to read up to N bytes now). Each
//! source is modelled by the sequence of bytes it will deliver from now on.
//! In-memory sources are provided here; adapters around real transports live
//! outside the verified library.
use vstd::prelude::*;

verus! {

/// Why a blocking read could not deliver the requested bytes.
#[derive(Clone, Copy, Debug, PartialEq, Eq, Structural)]
pub enum ReadFailure {
    /// The source has fewer bytes left than were requested.
    EndOfInput,
    /// The source failed for a reason of its own.
    Broken,
}

/// A blocking byte source: delivers exactly the requested bytes or fails
/// without consuming any.
pub trait BlockingSource: Sized {
    /// The bytes this source will deliver, in order, from now on.
    spec fn stream(&self) -> Seq<u8>;

    /// True of sources that fail only when fewer bytes than requested
    /// remain; an in-memory source is reliable, a network source is not.
    spec fn reliable(&self) -> bool;

    /// Read exactly `n` bytes, or fail without consuming any.
    fn read_exact(&mut self, n: usize) -> (r: Result<Vec<u8>, ReadFailure>)
        ensures
            final(self).reliable() == old(self).reliable(),
            match r {
                Ok(chunk) => {
                    &&& chunk@.len() == n
                    &&& n <= old(self).stream().len()
                    &&& chunk@ == old(self).stream().take(n as int)
                    &&& final(self).stream() == old(self).stream().skip(n as int)
                },
                Err(f) => {
                    &&& final(self).stream() == old(self).stream()
                    &&& old(self).reliable() ==> n > old(self).stream().len() && f
                        == ReadFailure::EndOfInput
                },
            },
    ;
}

/// The outcome of one attempt to read from a non-blocking source.
pub enum ReadPoll {
    /// Some bytes arrived: at least one, at most the requested count.
    Data(Vec<u8>),
    /// Nothing available right now; try again later.
    NotReady,
    /// The source has ended: no byte will ever arrive again.
    AtEnd,
    /// The source failed for a reason of its own.
    Failed,
}

/// A non-blocking byte source: may deliver fewer bytes than requested, or
/// none at all for now.
pub trait NonBlockingSource: Sized {
    /// The bytes this source will deliver, in order, from now on.
    spec fn stream(&self) -> Seq<u8>;

    /// Try to read up to `n` bytes without blocking.
    fn poll_read(&mut self, n: usize) -> (r: ReadPoll)
        requires
            n >= 1,
        ensures
            match r {
                ReadPoll::Data(chunk) => {
                    &&& 1 <= chunk@.len() <= n
                    &&& chunk@.len() <= old(self).stream().len()
                    &&& chunk@ == old(self).stream().take(chunk@.len() as int)
                    &&& final(self).stream() == old(self).stream().skip(chunk@.len() as int)
                },
                ReadPoll::AtEnd => final(self).stream() == old(self).stream() && old(
                    self,
                ).stream().len() == 0,
                _ => final(self).stream() == old(self).stream(),
            },
    ;
}

/// Copy `data[pos .. pos + k]` into a fresh vector.
fn copy_range(data: &Vec<u8>, pos: usize, k: usize) -> (chunk: Vec<u8>)
    requires
        pos + k <= data@.len(),
    ensures
        chunk@ == data@.subrange(pos as int, pos + k),
{
    let dlen = data.len();
    let mut chunk: Vec<u8> = Vec::new();
    let mut i: usize = 0;
    while i < k
        invariant
            i <= k,
            pos + k <= dlen,
            pos + k <= data@.len(),
            chunk@ == data@.subrange(pos as int, pos + i),
        decreases k - i,
    {
        chunk.push(data[pos + i]);
        i = i + 1;
        proof {
            assert(chunk@ =~= data@.subrange(pos as int, pos + i));
        }
    }
    chunk
}

/// An in-memory byte source: a buffer and a cursor. It is both a blocking
/// and a non-blocking source, and it is reliable.
#[derive(Debug)]
pub struct SliceSource {
    data: Vec<u8>,
    pos: usize,
}

impl SliceSource {
    #[verifier::type_invariant]
    spec fn type_wf(self) -> bool {
        self.pos <= self.data@.len()
    }

    /// The bytes not yet read.
    pub closed spec fn left(&self) -> Seq<u8> {
        self.data@.skip(self.pos as int)
    }

    pub fn new(data: Vec<u8>) -> (r: Self)
        ensures
            r.left() == data@,
    {
        let r = SliceSource { data, pos: 0 };
        proof {
            assert(r.left() =~= r.data@);
        }
        r
    }

    /// How many bytes are still unread.
    pub fn unread(&self) -> (r: usize)
        ensures
            r == self.left().len(),
    {
        proof {
            use_type_invariant(self);
        }
        self.data.len() - self.pos
    }
}

impl BlockingSource for SliceSource {
    open spec fn stream(&self) -> Seq<u8> {
        self.left()
    }

    open spec fn reliable(&self) -> bool {
        true
    }

    fn read_exact(&mut self, n: usize) -> (r: Result<Vec<u8>, ReadFailure>) {
        proof {
            use_type_invariant(&*self);
        }
        if n > self.data.len() - self.pos {
            return Err(ReadFailure::EndOfInput);
        }
        let chunk = copy_range(&self.data, self.pos, n);
        self.pos = self.pos + n;
        proof {
            assert(chunk@ =~= old(self).left().take(n as int));
            assert(self.left() =~= old(self).left().skip(n as int));
        }
        Ok(chunk)
    }
}

impl NonBlockingSource for SliceSource {
    open spec fn stream(&self) -> Seq<u8> {
        self.left()
    }

    fn poll_read(&mut self, n: usize) -> (r: ReadPoll) {
        proof {
            use_type_invariant(&*self);
        }
        let avail = self.data.len() - self.pos;
        if avail == 0 {
            return ReadPoll::AtEnd;
        }
        let k = if n <= avail {
            n
        } else {
            avail
        };
        let chunk = copy_range(&self.data, self.pos, k);
        self.pos = self.pos + k;
        proof {
            assert(chunk@ =~= old(self).left().take(k as int));
            assert(self.left() =~= old(self).left().skip(k as int));
        }
        ReadPoll::Data(chunk)
    }
}

/// An in-memory non-blocking source that reports "not ready" before every
/// delivery and hands out at most `burst` bytes at a time: the worst
/// chunking a peer could choose, for exercising the suspendable decoder.
#[derive(Debug)]
pub struct TrickleSource {
    data: Vec<u8>,
    pos: usize,
    burst: usize,
    ready: bool,
}

impl TrickleSource {
    #[verifier::type_invariant]
    spec fn type_wf(self) -> bool {
        self.pos <= self.data@.len() && self.burst >= 1
    }

    /// The bytes not yet read.
    pub closed spec fn left(&self) -> Seq<u8> {
        self.data@.skip(self.pos as int)
    }

    pub fn new(data: Vec<u8>, burst: usize) -> (r: Self)
        requires
            burst >= 1,
        ensures
            r.left() == data@,
    {
        let r = TrickleSource { data, pos: 0, burst, ready: false };
        proof {
            assert(r.left() =~= r.data@);
        }
        r
    }

    /// How many bytes are still unread.
    pub fn unread(&self) -> (r: usize)
        ensures
            r == self.left().len(),
    {
        proof {
            use_type_invariant(self);
        }
        self.data.len() - self.pos
    }
}

impl NonBlockingSource for TrickleSource {
    open spec fn stream(&self) -> Seq<u8> {
        self.left()
    }

    fn poll_read(&mut self, n: usize) -> (r: ReadPoll) {
        proof {
            use_type_invariant(&*self);
        }
        if !self.ready {
            self.ready = true;
            return ReadPoll::NotReady;
        }
        self.ready = false;
        let avail = self.data.len() - self.pos;
        if avail == 0 {
            return ReadPoll::AtEnd;
        }
        let mut k = if n <= avail {
            n
        } else {
            avail
        };
        if k > self.burst {
            k = self.burst;
        }
        let chunk = copy_range(&self.data, self.pos, k);
        self.pos = self.pos + k;
        proof {
            assert(chunk@ =~= old(self).left().take(k as int));
            assert(self.left() =~= old(self).left().skip(k as int));
        }
        ReadPoll::Data(chunk)
    }
}

} // verus!
