//! Wire-level codec for HTTP/1.x message heads.
//!
//! The codec finds the head terminator `\r\n\r\n` incrementally across
//! arbitrarily chunked reads, accumulates bytes under a fixed ceiling, and
//! decodes the accumulated bytes into a typed request or response head — or
//! serializes such a head back into exact wire bytes.
#![verifier::loop_isolation(false)]
use vstd::prelude::*;

pub mod scan;
pub mod source;
pub mod accum;
pub mod fields;
pub mod wire;
pub mod request;
pub mod response;
pub mod parse;
pub mod decode;

verus! {

/// Terminal failures of one head decode or encode attempt.
#[derive(Clone, Copy, Debug, PartialEq, Eq, Structural)]
pub enum HeadError {
    /// The accumulated bytes would exceed the configured head-size ceiling
    /// before the terminator could complete.
    HeadTooLong,
    /// The byte source ended before the head terminator appeared.
    UnexpectedEnd,
    /// The byte source reported a failure of its own.
    Transport,
    /// The bytes up to the terminator do not form a valid head.
    BadSyntax,
    /// The head holds more header fields than the configured maximum.
    TooManyFields,
    /// The head names an HTTP version other than 1.0 or 1.1.
    UnsupportedVersion,
    /// Method, target, reason, header name or header value holds a byte that
    /// the field grammar disallows.
    InvalidToken,
}

} // verus!
