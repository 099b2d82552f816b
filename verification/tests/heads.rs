use head_codec::HeadError;
use head_codec::decode::{HeadPoll, HeadPollOwned, RequestHeadDecoder};
use head_codec::fields::field_value;
use head_codec::parse::RequestHeadParse;
use head_codec::request::{RequestHead, RequestHeadEncoder};
use head_codec::response::{ResponseHeadDecoder, ResponseHeadEncoder};
use head_codec::source::{SliceSource, TrickleSource};

const INPUT: &[u8] = b"GET / HTTP/1.1\r\nHost: www.example.com\r\nConnection: close\r\n\r\n ";

fn drive_owned(
    decoder: RequestHeadDecoder,
    transport: SliceSource,
) -> Result<(SliceSource, RequestHead), HeadError> {
    let mut decode = decoder.decode(transport);
    loop {
        match decode.poll() {
            HeadPollOwned::Pending => continue,
            HeadPollOwned::Complete(result) => return result,
        }
    }
}

fn check(output: &RequestHead, transport: &SliceSource) {
    assert_eq!(output.minor, 1);
    assert_eq!(output.method, b"GET".to_vec());
    assert_eq!(
        field_value(&output.fields, &b"Host".to_vec()).unwrap(),
        &b"www.example.com".to_vec()
    );
    assert_eq!(
        field_value(&output.fields, &b"Connection".to_vec()).unwrap(),
        &b"close".to_vec()
    );
    assert_eq!(transport.unread(), 1);
}

#[test]
fn owned_transport() {
    let transport = SliceSource::new(INPUT.to_vec());
    let (transport, output) = drive_owned(RequestHeadDecoder::default(), transport).unwrap();
    check(&output, &transport);
}

#[test]
fn referenced_transport() {
    let mut transport = SliceSource::new(INPUT.to_vec());
    let mut decode = RequestHeadDecoder::default().decode_ref();
    let output = loop {
        match decode.poll(&mut transport) {
            HeadPoll::Pending => continue,
            HeadPoll::Complete(result) => break result.unwrap(),
        }
    };
    check(&output, &transport);
}

const RESPONSE_INPUT: &[u8] = b"HTTP/1.1 201 Created\r\nconnection: close\r\n\r\n";

#[test]
fn test() {
    let (_, head) = ResponseHeadDecoder::default()
        .decode(SliceSource::new(RESPONSE_INPUT.to_vec()))
        .unwrap();
    assert_eq!(head.minor, 1);
    assert_eq!(head.status, 201);
    assert_eq!(
        field_value(&head.fields, &b"Connection".to_vec()).unwrap(),
        &b"close".to_vec()
    );

    let encoded = ResponseHeadEncoder::default().encode(&head).unwrap();
    assert_eq!(encoded, RESPONSE_INPUT.to_vec());
}

#[test]
fn one_byte_chunks_match_single_chunk() {
    // The suspendable decoder sees the worst chunking — one byte per
    // delivery, a "not ready" before each — and must agree with the decode
    // of the same bytes as a single chunk.
    let trickle = TrickleSource::new(INPUT.to_vec(), 1);
    let mut decode = RequestHeadDecoder::default().decode(trickle);
    let trickled = loop {
        match decode.poll() {
            HeadPollOwned::Pending => continue,
            HeadPollOwned::Complete(result) => break result.unwrap().1,
        }
    };
    let (_, whole) = drive_owned(RequestHeadDecoder::default(), SliceSource::new(INPUT.to_vec()))
        .unwrap();
    assert_eq!(trickled.method, whole.method);
    assert_eq!(trickled.target, whole.target);
    assert_eq!(trickled.minor, whole.minor);
    assert_eq!(trickled.fields.len(), whole.fields.len());
    for i in 0..trickled.fields.len() {
        assert_eq!(trickled.fields[i].name, whole.fields[i].name);
        assert_eq!(trickled.fields[i].value, whole.fields[i].value);
    }
}

#[test]
fn terminator_split_across_chunks() {
    // A partial terminator (`\r\n`) followed by ordinary bytes must not
    // count as completion; the true terminator arrives later and is split
    // across one-byte reads.
    let bytes = b"GET /x HTTP/1.1\r\nA: 1\r\nB: 2\r\n\r\nrest".to_vec();
    let trickle = TrickleSource::new(bytes, 1);
    let mut decode = RequestHeadDecoder::default().decode(trickle);
    let (transport, head) = loop {
        match decode.poll() {
            HeadPollOwned::Pending => continue,
            HeadPollOwned::Complete(result) => break result.unwrap(),
        }
    };
    assert_eq!(head.target, b"/x".to_vec());
    assert_eq!(head.fields.len(), 2);
    // Exactly the four bytes after the terminator are still unread.
    assert_eq!(transport.unread(), 4);
}

#[test]
fn failed_partial_match_restarts_inside_itself() {
    // After `\r\n\r` a second `\r` fails the 4-byte match, but that `\r`
    // starts a new attempt: the terminator here spans bytes that a
    // match-or-reset-to-zero scanner would have discarded.
    let bytes = b"X\r\n\r\r\n\r\n junk".to_vec();
    let mut transport = TrickleSource::new(bytes, 1);
    let mut decode = RequestHeadDecoder::default().decode_ref();
    let result = loop {
        match decode.poll(&mut transport) {
            HeadPoll::Pending => continue,
            HeadPoll::Complete(result) => break result,
        }
    };
    // The boundary is found (the head is then rejected as malformed), and
    // exactly the five bytes after the terminator are still unread.
    assert_eq!(result.unwrap_err(), HeadError::BadSyntax);
    assert_eq!(transport.unread(), 5);
}

#[test]
fn head_exceeding_ceiling_is_resource_exhaustion() {
    // More bytes than the ceiling before any terminator: resource
    // exhaustion, never a parse attempt on truncated data.
    let decoder = RequestHeadDecoder { max_head_size: 16, max_headers: 8 };
    let bytes = b"GET /aaaaaaaaaaaaaaaaaaaaaaaaaaaaaa HTTP/1.1\r\n\r\n".to_vec();
    let err = drive_owned(decoder, SliceSource::new(bytes)).unwrap_err();
    assert_eq!(err, HeadError::HeadTooLong);
}

#[test]
fn eof_before_terminator_is_not_exhaustion() {
    // A short stream that never holds the terminator ends with an
    // end-of-input failure, not with resource exhaustion.
    let mut engine = RequestHeadParse::new(8192, 128);
    let mut transport = SliceSource::new(b"GET / HTTP/1.1\r\nHost: a".to_vec());
    let err = engine.read_data(&mut transport).unwrap_err();
    assert_eq!(err, HeadError::UnexpectedEnd);
}

#[test]
fn blocking_read_then_parse() {
    let mut engine = RequestHeadParse::new(8192, 128);
    let mut transport = SliceSource::new(INPUT.to_vec());
    let n = engine.read_data(&mut transport).unwrap();
    assert_eq!(n, INPUT.len() - 1);
    assert_eq!(transport.unread(), 1);
    let head = engine.try_take_head().unwrap();
    assert_eq!(head.method, b"GET".to_vec());
    assert_eq!(head.target, b"/".to_vec());
}

#[test]
fn more_fields_than_allowed_fail() {
    let decoder = RequestHeadDecoder { max_head_size: 8192, max_headers: 1 };
    let bytes = b"GET / HTTP/1.1\r\nA: 1\r\nB: 2\r\n\r\n".to_vec();
    let err = drive_owned(decoder, SliceSource::new(bytes)).unwrap_err();
    assert_eq!(err, HeadError::TooManyFields);
}

#[test]
fn http_1_0_round_trips() {
    // Both HTTP/1.x versions are in scope: a 1.0 head decodes with minor
    // version 0 and re-encodes to the exact original bytes.
    let bytes = b"GET / HTTP/1.0\r\nHost: h\r\n\r\n".to_vec();
    let (_, head) = drive_owned(RequestHeadDecoder::default(), SliceSource::new(bytes.clone()))
        .unwrap();
    assert_eq!(head.minor, 0);
    assert_eq!(head.method, b"GET".to_vec());
    let encoded = RequestHeadEncoder::default().encode(&head).unwrap();
    assert_eq!(encoded, bytes);
}

#[test]
fn version_beyond_1_x_is_unsupported() {
    // The splitter itself only ever yields the two HTTP/1.x versions; a
    // head value naming any other version is rejected by the validators.
    let head = RequestHead {
        method: b"GET".to_vec(),
        target: b"/".to_vec(),
        minor: 2,
        fields: Vec::new(),
    };
    let err = RequestHeadEncoder::default().encode(&head).unwrap_err();
    assert_eq!(err, HeadError::UnsupportedVersion);
    let err = head_codec::request::refine_request_head(head).unwrap_err();
    assert_eq!(err, HeadError::UnsupportedVersion);
}

#[test]
fn non_ascii_target_is_rejected() {
    let bytes = "GET /café HTTP/1.1\r\n\r\n".as_bytes().to_vec();
    let err = drive_owned(RequestHeadDecoder::default(), SliceSource::new(bytes)).unwrap_err();
    assert_eq!(err, HeadError::InvalidToken);
}

#[test]
fn garbage_head_is_bad_syntax() {
    let bytes = b"NOT A HEAD\r\n\r\n".to_vec();
    let err = drive_owned(RequestHeadDecoder::default(), SliceSource::new(bytes)).unwrap_err();
    assert_eq!(err, HeadError::BadSyntax);
}

#[test]
fn transport_failure_surfaces() {
    // An empty stream ends immediately: the suspendable decoder reports the
    // end of input, not a decoded head.
    let err = drive_owned(RequestHeadDecoder::default(), SliceSource::new(Vec::new()))
        .unwrap_err();
    assert_eq!(err, HeadError::UnexpectedEnd);
}

#[test]
fn request_round_trip_preserves_bytes() {
    // Order, casing and duplicate names survive decode and re-encode.
    let bytes = b"POST /it HTTP/1.1\r\nX-One: a\r\nx-one: b\r\nHost: h\r\n\r\n".to_vec();
    let (_, head) = drive_owned(RequestHeadDecoder::default(), SliceSource::new(bytes.clone()))
        .unwrap();
    assert_eq!(head.fields[0].name, b"X-One".to_vec());
    assert_eq!(head.fields[1].name, b"x-one".to_vec());
    // Case-insensitive lookup returns the first occurrence.
    assert_eq!(
        field_value(&head.fields, &b"X-ONE".to_vec()).unwrap(),
        &b"a".to_vec()
    );
    let encoded = RequestHeadEncoder::default().encode(&head).unwrap();
    assert_eq!(encoded, bytes);
}

#[test]
fn explicit_feed_one_byte_at_a_time() {
    // The explicit-event form: the caller reads and hands over one byte at
    // a time, and the decode completes exactly on the head's last byte.
    let mut decode = RequestHeadDecoder::default().decode_ref();
    let mut i = 0usize;
    let result = loop {
        assert!(decode.needed() >= 1);
        match decode.feed_data(&INPUT[i..i + 1]) {
            HeadPoll::Pending => i += 1,
            HeadPoll::Complete(result) => break result,
        }
    };
    let head = result.unwrap();
    assert_eq!(head.method, b"GET".to_vec());
    assert_eq!(i, INPUT.len() - 2);
}

#[test]
fn feeding_end_of_input_fails() {
    let mut decode = RequestHeadDecoder::default().decode_ref();
    match decode.feed_data(b"GET") {
        HeadPoll::Pending => {}
        HeadPoll::Complete(_) => panic!("incomplete head must not complete"),
    }
    match decode.feed_end() {
        HeadPoll::Complete(Err(e)) => assert_eq!(e, HeadError::UnexpectedEnd),
        _ => panic!("ending the input must finish the decode"),
    }
}

#[test]
fn encoder_rejects_ill_formed_heads() {
    let head = RequestHead {
        method: b"GE T".to_vec(),
        target: b"/".to_vec(),
        minor: 1,
        fields: Vec::new(),
    };
    let err = RequestHeadEncoder::default().encode(&head).unwrap_err();
    assert_eq!(err, HeadError::InvalidToken);
}
