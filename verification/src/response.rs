//! Typed response heads: splitting, validation, blocking decode and
//! serialization.
use vstd::prelude::*;

use crate::HeadError;
use crate::accum::HeadAccumulator;
use crate::fields::{
    FieldModel, HeaderField, check_fields, check_value, fields_ok, fields_view, is_value_byte,
    value_ok,
};
use crate::scan::{has_terminator, is_head_len, no_head_within};
use crate::source::BlockingSource;
use crate::wire::{
    crlf, fields_wire, lemma_fields_tail_inj, lemma_head_wire, lemma_sep_split,
    lemma_status_wire_clean, lemma_version_wire_clean, push_bytes, push_crlf, push_fields,
    push_status, push_version, status_wire, version_wire,
};

verus! {

/// A typed response head. Field order and name casing are exactly as they
/// stood on the wire; duplicate names are separate entries.
#[derive(Debug)]
pub struct ResponseHead {
    /// The minor version of `HTTP/1.<minor>`.
    pub minor: u8,
    /// The three-digit status code.
    pub status: u16,
    /// The reason phrase, possibly empty.
    pub reason: Vec<u8>,
    pub fields: Vec<HeaderField>,
}

/// The mathematical view of a response head.
pub struct ResponseModel {
    pub minor: u8,
    pub status: u16,
    pub reason: Seq<u8>,
    pub fields: Seq<FieldModel>,
}

impl View for ResponseHead {
    type V = ResponseModel;

    open spec fn view(&self) -> ResponseModel {
        ResponseModel {
            minor: self.minor,
            status: self.status,
            reason: self.reason@,
            fields: fields_view(self.fields@),
        }
    }
}

/// A well-formed decoded response head: an HTTP/1.x version, a three-digit
/// status and valid bytes throughout.
pub open spec fn response_wf(m: ResponseModel) -> bool {
    &&& m.minor <= 1
    &&& m.status <= 999
    &&& value_ok(m.reason)
    &&& fields_ok(m.fields)
}

/// What the splitter can return on a buffer.
pub enum ResponseSplit {
    Head(ResponseModel),
    TooMany,
    Bad,
}

/// The raw outcome of the response splitter on the given bytes with the
/// given number of field slots. Its value is fixed by the bytes alone; the
/// contracts below say only how the library reacts to each outcome.
pub uninterp spec fn response_split(buf: Seq<u8>, max_fields: int) -> ResponseSplit;

pub(crate) enum RespSplitFault {
    TooMany,
    Bad,
}

/// Relies on httparse::Response::parse: it splits a complete head buffer
/// into minor version, three-digit status code, reason phrase and header
/// fields — field order and name casing preserved, the parts being slices
/// of the input — reports TooManyHeaders when the head holds more fields
/// than the given slots, and fails on a buffer that is not one complete
/// syntactically valid head.
#[verifier::external_body]
fn split_response(buf: &[u8], max_fields: usize) -> (r: Result<ResponseHead, RespSplitFault>)
    ensures
        match response_split(buf@, max_fields as int) {
            ResponseSplit::Head(m) => r matches Ok(raw) && raw@ == m,
            ResponseSplit::TooMany => r matches Err(RespSplitFault::TooMany),
            ResponseSplit::Bad => r matches Err(RespSplitFault::Bad),
        },
{
    let mut slots = vec![httparse::EMPTY_HEADER; max_fields];
    let mut resp = httparse::Response::new(&mut slots);
    match resp.parse(buf) {
        Ok(httparse::Status::Complete(_)) => Ok(ResponseHead {
            minor: resp.version.unwrap_or(0),
            status: resp.code.unwrap_or(0),
            reason: resp.reason.unwrap_or("").as_bytes().to_vec(),
            fields: resp.headers.iter().map(
                |h| HeaderField { name: h.name.as_bytes().to_vec(), value: h.value.to_vec() },
            ).collect(),
        }),
        Ok(httparse::Status::Partial) => Err(RespSplitFault::Bad),
        Err(httparse::Error::TooManyHeaders) => Err(RespSplitFault::TooMany),
        Err(_) => Err(RespSplitFault::Bad),
    }
}

/// The validation applied to a freshly split response head.
pub open spec fn refined_response(m: ResponseModel) -> Result<ResponseModel, HeadError> {
    if m.minor > 1 {
        Err(HeadError::UnsupportedVersion)
    } else if m.status > 999 {
        Err(HeadError::BadSyntax)
    } else if !value_ok(m.reason) {
        Err(HeadError::InvalidToken)
    } else if !fields_ok(m.fields) {
        Err(HeadError::InvalidToken)
    } else {
        Ok(m)
    }
}

/// The decode outcome on a complete head buffer.
pub open spec fn decoded_response(buf: Seq<u8>, max_fields: int) -> Result<
    ResponseModel,
    HeadError,
> {
    match response_split(buf, max_fields) {
        ResponseSplit::Head(m) => refined_response(m),
        ResponseSplit::TooMany => Err(HeadError::TooManyFields),
        ResponseSplit::Bad => Err(HeadError::BadSyntax),
    }
}

/// Validate a raw split response head, exactly as `refined_response` says.
pub fn refine_response_head(raw: ResponseHead) -> (r: Result<ResponseHead, HeadError>)
    ensures
        match r {
            Ok(h) => refined_response(raw@) == Ok::<ResponseModel, HeadError>(h@) && response_wf(
                h@,
            ),
            Err(e) => refined_response(raw@) == Err::<ResponseModel, HeadError>(e),
        },
{
    if raw.minor > 1 {
        return Err(HeadError::UnsupportedVersion);
    }
    if raw.status > 999 {
        return Err(HeadError::BadSyntax);
    }
    if !check_value(&raw.reason) {
        return Err(HeadError::InvalidToken);
    }
    if !check_fields(&raw.fields) {
        return Err(HeadError::InvalidToken);
    }
    Ok(raw)
}

/// Parse one complete head buffer into a typed response head, or fail with
/// exactly the error that `decoded_response` assigns to these bytes.
pub fn response_head_parse(buffer: &Vec<u8>, max_headers: usize) -> (r: Result<
    ResponseHead,
    HeadError,
>)
    ensures
        match r {
            Ok(h) => decoded_response(buffer@, max_headers as int) == Ok::<
                ResponseModel,
                HeadError,
            >(h@) && response_wf(h@),
            Err(e) => decoded_response(buffer@, max_headers as int) == Err::<
                ResponseModel,
                HeadError,
            >(e),
        },
{
    match split_response(buffer.as_slice(), max_headers) {
        Ok(raw) => refine_response_head(raw),
        Err(RespSplitFault::TooMany) => Err(HeadError::TooManyFields),
        Err(RespSplitFault::Bad) => Err(HeadError::BadSyntax),
    }
}

/// Decoder for response heads over a blocking byte source.
#[derive(Clone, Copy, Debug)]
pub struct ResponseHeadDecoder {
    /// Total byte ceiling for one head.
    pub max_head_size: usize,
    /// Maximum number of header fields.
    pub max_headers: usize,
}

impl Default for ResponseHeadDecoder {
    fn default() -> (r: Self)
        ensures
            r.max_head_size == 8192,
            r.max_headers == 128,
    {
        ResponseHeadDecoder { max_head_size: 8192, max_headers: 128 }
    }
}

impl ResponseHeadDecoder {
    /// Read one response head from the transport and hand the transport
    /// back together with the typed head. Exactly the head bytes are
    /// consumed; everything after the terminator stays in the transport.
    pub fn decode<T: BlockingSource>(self, transport: T) -> (r: Result<
        (T, ResponseHead),
        HeadError,
    >)
        ensures
            ({
                let inp = transport.stream();
                match r {
                    Ok((t2, h)) => (exists|n: int|
                        {
                            &&& #[trigger] is_head_len(inp, n)
                            &&& 4 <= n <= self.max_head_size
                            &&& decoded_response(inp.take(n), self.max_headers as int) == Ok::<
                                ResponseModel,
                                HeadError,
                            >(h@)
                            &&& response_wf(h@)
                            &&& t2.stream() == inp.skip(n)
                            &&& t2.reliable() == transport.reliable()
                        }),
                    Err(e) => {
                        &&& (e == HeadError::HeadTooLong ==> no_head_within(
                            inp,
                            self.max_head_size as int,
                        ))
                        &&& (e == HeadError::UnexpectedEnd ==> (transport.reliable()
                            ==> !has_terminator(inp) && inp.len() < self.max_head_size))
                        &&& (e == HeadError::Transport ==> !transport.reliable())
                        &&& ((e != HeadError::HeadTooLong && e != HeadError::UnexpectedEnd && e
                            != HeadError::Transport) ==> (exists|n: int|
                            {
                                &&& #[trigger] is_head_len(inp, n)
                                &&& 4 <= n <= self.max_head_size
                                &&& decoded_response(inp.take(n), self.max_headers as int)
                                    == Err::<ResponseModel, HeadError>(e)
                            }))
                    },
                }
            }),
    {
        let mut t = transport;
        let mut acc = HeadAccumulator::new(self.max_head_size);
        match acc.fill_blocking(&mut t) {
            Ok(_n) => {
                let parsed = response_head_parse(acc.bytes(), self.max_headers);
                proof {
                    assert(is_head_len(transport.stream(), acc.buf().len() as int));
                }
                match parsed {
                    Ok(h) => Ok((t, h)),
                    Err(e) => Err(e),
                }
            },
            Err(e) => Err(e),
        }
    }
}

/// The exact wire bytes of a response head: status line, each field in
/// stored order, final blank line.
pub open spec fn response_wire(m: ResponseModel) -> Seq<u8> {
    version_wire(m.minor) + seq![32u8] + status_wire(m.status) + seq![32u8] + m.reason + crlf()
        + fields_wire(m.fields, 0) + crlf()
}

/// What encoding returns: the exact wire bytes of a well-formed head, the
/// validation error otherwise.
pub open spec fn encoded_response(m: ResponseModel) -> Result<Seq<u8>, HeadError> {
    match refined_response(m) {
        Ok(_) => Ok(response_wire(m)),
        Err(e) => Err(e),
    }
}

/// The boundary half of round-trip fidelity for responses: the
/// serializer's output is exactly one head — its only terminator
/// occurrence ends at its last byte — so decoding the serialized bytes
/// consumes precisely all of them.
pub proof fn lemma_response_wire_single_head(m: ResponseModel)
    requires
        response_wf(m),
    ensures
        is_head_len(response_wire(m), response_wire(m).len() as int),
{
    let b = version_wire(m.minor) + seq![32u8] + status_wire(m.status) + seq![32u8] + m.reason;
    let rl = m.reason.len() as int;
    lemma_version_wire_clean(m.minor);
    lemma_status_wire_clean(m.status);
    assert forall|p: int| 0 <= p < b.len() implies (#[trigger] b[p]) != 13u8 && b[p] != 10u8 by {
        if p < 8 {
            assert(b[p] == version_wire(m.minor)[p]);
        } else if p == 8 {
            assert(b[p] == 32u8);
        } else if p < 12 {
            assert(b[p] == status_wire(m.status)[p - 9]);
        } else if p == 12 {
            assert(b[p] == 32u8);
        } else {
            assert(is_value_byte(m.reason[p - 13]));
        }
    }
    assert(response_wire(m) =~= b + crlf() + fields_wire(m.fields, 0) + crlf());
    lemma_head_wire(b, m.fields);
}

/// The value half of round-trip fidelity: serialization is injective on
/// well-formed response heads. Equal wire bytes come only from equal heads
/// — version, status, reason, field order, name casing and duplicate
/// fields included.
#[verifier::rlimit(80)]
pub proof fn lemma_response_wire_injective(m1: ResponseModel, m2: ResponseModel)
    requires
        response_wf(m1),
        response_wf(m2),
        response_wire(m1) == response_wire(m2),
    ensures
        m1 == m2,
{
    let tail1 = fields_wire(m1.fields, 0) + crlf();
    let tail2 = fields_wire(m2.fields, 0) + crlf();
    let pre1 = version_wire(m1.minor) + seq![32u8] + status_wire(m1.status) + seq![32u8];
    let pre2 = version_wire(m2.minor) + seq![32u8] + status_wire(m2.status) + seq![32u8];
    let q1 = m1.reason + seq![13u8] + (seq![10u8] + tail1);
    let q2 = m2.reason + seq![13u8] + (seq![10u8] + tail2);
    let s1 = response_wire(m1);
    let s2 = response_wire(m2);
    assert(s1 =~= pre1 + q1);
    assert(s2 =~= pre2 + q2);
    assert(pre1.len() == 13 && pre2.len() == 13);
    assert(s1[7] == (48 + m1.minor) as u8 && s2[7] == (48 + m2.minor) as u8);
    assert(m1.minor == m2.minor);
    assert(s1[9] == status_wire(m1.status)[0] && s1[10] == status_wire(m1.status)[1] && s1[11]
        == status_wire(m1.status)[2]);
    assert(s2[9] == status_wire(m2.status)[0] && s2[10] == status_wire(m2.status)[1] && s2[11]
        == status_wire(m2.status)[2]);
    assert(m1.status / 100 == m2.status / 100);
    assert((m1.status / 10) % 10 == (m2.status / 10) % 10);
    assert(m1.status % 10 == m2.status % 10);
    assert(m1.status == m2.status);
    assert(q1.len() == q2.len());
    assert forall|i: int| 0 <= i < q1.len() implies q1[i] == q2[i] by {
        assert(s1[13 + i] == q1[i]);
        assert(s2[13 + i] == q2[i]);
    }
    assert(q1 =~= q2);
    assert forall|i: int| 0 <= i < m1.reason.len() implies (#[trigger] m1.reason[i]) != 13u8 by {
        assert(is_value_byte(m1.reason[i]));
    }
    assert forall|i: int| 0 <= i < m2.reason.len() implies (#[trigger] m2.reason[i]) != 13u8 by {
        assert(is_value_byte(m2.reason[i]));
    }
    lemma_sep_split(m1.reason, seq![10u8] + tail1, m2.reason, seq![10u8] + tail2, 13u8);
    assert forall|i: int| 0 <= i < tail1.len() implies tail1[i] == tail2[i] by {
        assert((seq![10u8] + tail1)[1 + i] == tail1[i]);
        assert((seq![10u8] + tail2)[1 + i] == tail2[i]);
    }
    assert(tail1 =~= tail2);
    lemma_fields_tail_inj(m1.fields, 0, m2.fields, 0);
    assert(m1.fields.skip(0) =~= m1.fields);
    assert(m2.fields.skip(0) =~= m2.fields);
    assert(m1.fields == m2.fields);
}

/// Stateless serializer for response heads.
pub struct ResponseHeadEncoder {}

impl Default for ResponseHeadEncoder {
    fn default() -> (r: Self)
        ensures
            r == (ResponseHeadEncoder {  }),
    {
        ResponseHeadEncoder {  }
    }
}

impl ResponseHeadEncoder {
    /// Serialize a response head to its exact wire bytes.
    pub fn encode(&self, head: &ResponseHead) -> (r: Result<Vec<u8>, HeadError>)
        ensures
            match r {
                Ok(bytes) => encoded_response(head@) == Ok::<Seq<u8>, HeadError>(bytes@),
                Err(e) => encoded_response(head@) == Err::<Seq<u8>, HeadError>(e),
            },
    {
        if head.minor > 1 {
            return Err(HeadError::UnsupportedVersion);
        }
        if head.status > 999 {
            return Err(HeadError::BadSyntax);
        }
        if !check_value(&head.reason) {
            return Err(HeadError::InvalidToken);
        }
        if !check_fields(&head.fields) {
            return Err(HeadError::InvalidToken);
        }
        let mut out: Vec<u8> = Vec::new();
        push_version(&mut out, head.minor);
        out.push(32);
        push_status(&mut out, head.status);
        out.push(32);
        push_bytes(&mut out, &head.reason);
        push_crlf(&mut out);
        push_fields(&mut out, &head.fields);
        push_crlf(&mut out);
        proof {
            assert(out@ =~= response_wire(head@));
        }
        Ok(out)
    }
}

} // verus!
