//! Typed request heads: splitting, validation and serialization.
//!
//! The splitter — carving method, target, version and header fields out of a
//! complete head buffer — is an outside library primitive; everything around
//! it (validation of the split parts, typing, serialization) is verified.
use vstd::prelude::*;

use crate::HeadError;
use crate::fields::{
    FieldModel, HeaderField, check_fields, check_target, check_token, fields_ok, fields_view,
    is_tchar, is_target_byte, target_ok, token_ok,
};
use crate::scan::is_head_len;
use crate::wire::{
    crlf, fields_wire, lemma_fields_tail_inj, lemma_head_wire, lemma_sep_split,
    lemma_version_wire_clean, push_bytes, push_crlf, push_fields, push_version, version_wire,
};

verus! {

/// A typed request head. Field order and name casing are exactly as they
/// stood on the wire; duplicate names are separate entries.
#[derive(Debug)]
pub struct RequestHead {
    pub method: Vec<u8>,
    pub target: Vec<u8>,
    /// The minor version of `HTTP/1.<minor>`.
    pub minor: u8,
    pub fields: Vec<HeaderField>,
}

/// The mathematical view of a request head.
pub struct RequestModel {
    pub method: Seq<u8>,
    pub target: Seq<u8>,
    pub minor: u8,
    pub fields: Seq<FieldModel>,
}

impl View for RequestHead {
    type V = RequestModel;

    open spec fn view(&self) -> RequestModel {
        RequestModel {
            method: self.method@,
            target: self.target@,
            minor: self.minor,
            fields: fields_view(self.fields@),
        }
    }
}

/// A well-formed decoded request head: an HTTP/1.x version and valid
/// tokens throughout.
pub open spec fn request_wf(m: RequestModel) -> bool {
    &&& m.minor <= 1
    &&& token_ok(m.method)
    &&& target_ok(m.target)
    &&& fields_ok(m.fields)
}

/// What the splitter can return on a buffer: a raw head, a rejection for
/// more fields than slots, or a syntax rejection.
pub enum RequestSplit {
    Head(RequestModel),
    TooMany,
    Bad,
}

/// The raw outcome of the request splitter on the given bytes with the
/// given number of field slots. Its value is fixed by the bytes alone; the
/// contracts below say only how the library reacts to each outcome.
pub uninterp spec fn request_split(buf: Seq<u8>, max_fields: int) -> RequestSplit;

pub(crate) enum SplitFault {
    TooMany,
    Bad,
}

/// Relies on httparse::Request::parse: it splits a complete head buffer
/// into method, target, minor version and header fields — field order and
/// name casing preserved, the parts being slices of the input — reports
/// TooManyHeaders when the head holds more fields than the given slots, and
/// fails on a buffer that is not one complete syntactically valid head.
#[verifier::external_body]
fn split_request(buf: &[u8], max_fields: usize) -> (r: Result<RequestHead, SplitFault>)
    ensures
        match request_split(buf@, max_fields as int) {
            RequestSplit::Head(m) => r matches Ok(raw) && raw@ == m,
            RequestSplit::TooMany => r matches Err(SplitFault::TooMany),
            RequestSplit::Bad => r matches Err(SplitFault::Bad),
        },
{
    let mut slots = vec![httparse::EMPTY_HEADER; max_fields];
    let mut req = httparse::Request::new(&mut slots);
    match req.parse(buf) {
        Ok(httparse::Status::Complete(_)) => Ok(RequestHead {
            method: req.method.unwrap_or("").as_bytes().to_vec(),
            target: req.path.unwrap_or("").as_bytes().to_vec(),
            minor: req.version.unwrap_or(0),
            fields: req.headers.iter().map(
                |h| HeaderField { name: h.name.as_bytes().to_vec(), value: h.value.to_vec() },
            ).collect(),
        }),
        Ok(httparse::Status::Partial) => Err(SplitFault::Bad),
        Err(httparse::Error::TooManyHeaders) => Err(SplitFault::TooMany),
        Err(_) => Err(SplitFault::Bad),
    }
}

/// The validation applied to a freshly split head: version, method token,
/// target bytes, field names and values.
pub open spec fn refined_request(m: RequestModel) -> Result<RequestModel, HeadError> {
    if m.minor > 1 {
        Err(HeadError::UnsupportedVersion)
    } else if !token_ok(m.method) {
        Err(HeadError::InvalidToken)
    } else if !target_ok(m.target) {
        Err(HeadError::InvalidToken)
    } else if !fields_ok(m.fields) {
        Err(HeadError::InvalidToken)
    } else {
        Ok(m)
    }
}

/// The decode outcome on a complete head buffer: the splitter's outcome,
/// refined by the validators.
pub open spec fn decoded_request(buf: Seq<u8>, max_fields: int) -> Result<
    RequestModel,
    HeadError,
> {
    match request_split(buf, max_fields) {
        RequestSplit::Head(m) => refined_request(m),
        RequestSplit::TooMany => Err(HeadError::TooManyFields),
        RequestSplit::Bad => Err(HeadError::BadSyntax),
    }
}

/// Validate a raw split head, exactly as `refined_request` says.
pub fn refine_request_head(raw: RequestHead) -> (r: Result<RequestHead, HeadError>)
    ensures
        match r {
            Ok(h) => refined_request(raw@) == Ok::<RequestModel, HeadError>(h@) && request_wf(h@),
            Err(e) => refined_request(raw@) == Err::<RequestModel, HeadError>(e),
        },
{
    if raw.minor > 1 {
        return Err(HeadError::UnsupportedVersion);
    }
    if !check_token(&raw.method) {
        return Err(HeadError::InvalidToken);
    }
    if !check_target(&raw.target) {
        return Err(HeadError::InvalidToken);
    }
    if !check_fields(&raw.fields) {
        return Err(HeadError::InvalidToken);
    }
    Ok(raw)
}

/// Parse one complete head buffer into a typed request head, or fail with
/// exactly the error that `decoded_request` assigns to these bytes.
pub fn request_head_parse(buffer: &Vec<u8>, max_headers: usize) -> (r: Result<
    RequestHead,
    HeadError,
>)
    ensures
        match r {
            Ok(h) => decoded_request(buffer@, max_headers as int) == Ok::<
                RequestModel,
                HeadError,
            >(h@) && request_wf(h@),
            Err(e) => decoded_request(buffer@, max_headers as int) == Err::<
                RequestModel,
                HeadError,
            >(e),
        },
{
    match split_request(buffer.as_slice(), max_headers) {
        Ok(raw) => refine_request_head(raw),
        Err(SplitFault::TooMany) => Err(HeadError::TooManyFields),
        Err(SplitFault::Bad) => Err(HeadError::BadSyntax),
    }
}

/// The exact wire bytes of a request head: start line, each field in stored
/// order, final blank line.
pub open spec fn request_wire(m: RequestModel) -> Seq<u8> {
    m.method + seq![32u8] + m.target + seq![32u8] + version_wire(m.minor) + crlf() + fields_wire(
        m.fields,
        0,
    ) + crlf()
}

/// What encoding returns: the exact wire bytes of a well-formed head, the
/// validation error otherwise.
pub open spec fn encoded_request(m: RequestModel) -> Result<Seq<u8>, HeadError> {
    match refined_request(m) {
        Ok(_) => Ok(request_wire(m)),
        Err(e) => Err(e),
    }
}

/// The boundary half of round-trip fidelity: the serializer's output is
/// exactly one head — its only terminator occurrence ends at its last byte
/// — so decoding the serialized bytes consumes precisely all of them, and
/// the parser is handed exactly what was serialized.
pub proof fn lemma_request_wire_single_head(m: RequestModel)
    requires
        request_wf(m),
    ensures
        is_head_len(request_wire(m), request_wire(m).len() as int),
{
    let a = m.method + seq![32u8] + m.target + seq![32u8] + version_wire(m.minor);
    let ml = m.method.len() as int;
    let tl = m.target.len() as int;
    lemma_version_wire_clean(m.minor);
    assert forall|p: int| 0 <= p < a.len() implies (#[trigger] a[p]) != 13u8 && a[p] != 10u8 by {
        if p < ml {
            assert(is_tchar(m.method[p]));
        } else if p == ml {
            assert(a[p] == 32u8);
        } else if p < ml + 1 + tl {
            assert(is_target_byte(m.target[p - ml - 1]));
        } else if p == ml + 1 + tl {
            assert(a[p] == 32u8);
        } else {
            assert(a[p] == version_wire(m.minor)[p - ml - tl - 2]);
        }
    }
    assert(request_wire(m) =~= a + crlf() + fields_wire(m.fields, 0) + crlf());
    lemma_head_wire(a, m.fields);
}

/// The value half of round-trip fidelity: serialization is injective on
/// well-formed request heads. Equal wire bytes come only from equal heads —
/// method, target, version, field order, name casing and duplicate fields
/// included — so nothing a head holds is lost on the wire.
#[verifier::rlimit(80)]
pub proof fn lemma_request_wire_injective(m1: RequestModel, m2: RequestModel)
    requires
        request_wf(m1),
        request_wf(m2),
        request_wire(m1) == request_wire(m2),
    ensures
        m1 == m2,
{
    let tail1 = fields_wire(m1.fields, 0) + crlf();
    let tail2 = fields_wire(m2.fields, 0) + crlf();
    let w1 = version_wire(m1.minor) + crlf() + fields_wire(m1.fields, 0) + crlf();
    let w2 = version_wire(m2.minor) + crlf() + fields_wire(m2.fields, 0) + crlf();
    let u1 = m1.target + seq![32u8] + w1;
    let u2 = m2.target + seq![32u8] + w2;
    assert(request_wire(m1) =~= m1.method + seq![32u8] + u1);
    assert(request_wire(m2) =~= m2.method + seq![32u8] + u2);
    assert forall|i: int| 0 <= i < m1.method.len() implies (#[trigger] m1.method[i]) != 32u8 by {
        assert(is_tchar(m1.method[i]));
    }
    assert forall|i: int| 0 <= i < m2.method.len() implies (#[trigger] m2.method[i]) != 32u8 by {
        assert(is_tchar(m2.method[i]));
    }
    lemma_sep_split(m1.method, u1, m2.method, u2, 32u8);
    assert forall|i: int| 0 <= i < m1.target.len() implies (#[trigger] m1.target[i]) != 32u8 by {
        assert(is_target_byte(m1.target[i]));
    }
    assert forall|i: int| 0 <= i < m2.target.len() implies (#[trigger] m2.target[i]) != 32u8 by {
        assert(is_target_byte(m2.target[i]));
    }
    lemma_sep_split(m1.target, w1, m2.target, w2, 32u8);
    assert(w1 =~= (version_wire(m1.minor) + crlf()) + tail1);
    assert(w2 =~= (version_wire(m2.minor) + crlf()) + tail2);
    assert(w1[7] == (48 + m1.minor) as u8);
    assert(w2[7] == (48 + m2.minor) as u8);
    assert(m1.minor == m2.minor);
    assert(tail1.len() == tail2.len());
    assert forall|i: int| 0 <= i < tail1.len() implies tail1[i] == tail2[i] by {
        assert(w1[10 + i] == tail1[i]);
        assert(w2[10 + i] == tail2[i]);
    }
    assert(tail1 =~= tail2);
    lemma_fields_tail_inj(m1.fields, 0, m2.fields, 0);
    assert(m1.fields.skip(0) =~= m1.fields);
    assert(m2.fields.skip(0) =~= m2.fields);
    assert(m1.fields == m2.fields);
}

/// Stateless serializer for request heads.
pub struct RequestHeadEncoder {}

impl Default for RequestHeadEncoder {
    fn default() -> (r: Self)
        ensures
            r == (RequestHeadEncoder {  }),
    {
        RequestHeadEncoder {  }
    }
}

impl RequestHeadEncoder {
    /// Serialize a request head to its exact wire bytes.
    pub fn encode(&self, head: &RequestHead) -> (r: Result<Vec<u8>, HeadError>)
        ensures
            match r {
                Ok(bytes) => encoded_request(head@) == Ok::<Seq<u8>, HeadError>(bytes@),
                Err(e) => encoded_request(head@) == Err::<Seq<u8>, HeadError>(e),
            },
    {
        if head.minor > 1 {
            return Err(HeadError::UnsupportedVersion);
        }
        if !check_token(&head.method) {
            return Err(HeadError::InvalidToken);
        }
        if !check_target(&head.target) {
            return Err(HeadError::InvalidToken);
        }
        if !check_fields(&head.fields) {
            return Err(HeadError::InvalidToken);
        }
        let mut out: Vec<u8> = Vec::new();
        push_bytes(&mut out, &head.method);
        out.push(32);
        push_bytes(&mut out, &head.target);
        out.push(32);
        push_version(&mut out, head.minor);
        push_crlf(&mut out);
        push_fields(&mut out, &head.fields);
        push_crlf(&mut out);
        proof {
            assert(out@ =~= request_wire(head@));
        }
        Ok(out)
    }
}

} // verus!
