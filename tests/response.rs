use http::header::{HeaderMap, HeaderValue, CONTENT_LENGTH, CONTENT_TYPE};
use wasi_http_facade::error::Kind;
use wasi_http_facade::response::{parse_decimal_u64, stream_step, Frame, Response, StreamStep};

fn response(status: u16, headers: HeaderMap, frames: Vec<Frame>) -> Response {
    Response::new(status, headers, "https://example.com/r".to_string(), frames)
}

fn with_content_type(value: &'static str) -> HeaderMap {
    let mut h = HeaderMap::new();
    h.insert(CONTENT_TYPE, HeaderValue::from_static(value));
    h
}

#[test]
fn error_for_status_passes_success_and_redirect() {
    for code in [200u16, 204, 301, 399] {
        let r = response(code, HeaderMap::new(), vec![]).error_for_status().unwrap();
        assert_eq!(r.status(), code);
        assert_eq!(r.url(), "https://example.com/r");
    }
}

#[test]
fn error_for_status_turns_errors_into_status_errors() {
    for code in [400u16, 404, 500, 599] {
        let r = response(code, HeaderMap::new(), vec![]);
        let by_ref = r.error_for_status_ref().err().unwrap();
        assert_eq!(by_ref.status(), Some(code));
        let err = r.error_for_status().err().unwrap();
        assert!(err.is_status());
        assert_eq!(err.status(), Some(code));
        assert_eq!(err.url.as_deref(), Some("https://example.com/r"));
    }
}

#[test]
fn text_round_trips_utf8() {
    let sent = "héllo wörld ✓";
    let r = response(200, HeaderMap::new(), vec![Frame::Data(sent.as_bytes().to_vec())]);
    assert_eq!(r.text().unwrap(), sent);
}

#[test]
fn text_strips_bom_and_replaces_malformed() {
    let mut body = vec![0xEF, 0xBB, 0xBF];
    body.extend_from_slice(b"ab");
    body.push(0xFF);
    body.extend_from_slice(b"c");
    let r = response(200, HeaderMap::new(), vec![Frame::Data(body)]);
    assert_eq!(r.text().unwrap(), "ab\u{FFFD}c");
}

#[test]
fn charset_parameter_beats_default() {
    let r = response(
        200,
        with_content_type("text/plain; charset=iso-8859-1"),
        vec![Frame::Data(vec![0x63, 0x61, 0x66, 0xE9])],
    );
    assert_eq!(r.text_with_charset("utf-8").unwrap(), "café");
}

#[test]
fn default_charset_used_without_header() {
    let r = response(200, HeaderMap::new(), vec![Frame::Data(vec![0xE9])]);
    assert_eq!(r.text_with_charset("windows-1252").unwrap(), "é");
}

#[test]
fn default_charset_used_for_unparsable_header() {
    let r = response(200, with_content_type("???"), vec![Frame::Data(vec![0xE9])]);
    assert_eq!(r.text_with_charset("windows-1252").unwrap(), "é");
}

#[test]
fn unknown_label_falls_back_to_utf8() {
    let r = response(
        200,
        with_content_type("text/plain; charset=no-such-thing"),
        vec![Frame::Data("ü".as_bytes().to_vec())],
    );
    assert_eq!(r.text_with_charset("latin1").unwrap(), "ü");
}

#[test]
fn bytes_joins_data_and_skips_other_frames() {
    let frames = vec![
        Frame::Data(b"ab".to_vec()),
        Frame::Other,
        Frame::Data(b"cd".to_vec()),
    ];
    assert_eq!(response(200, HeaderMap::new(), frames).bytes().unwrap(), b"abcd".to_vec());
}

#[test]
fn bytes_failure_is_body_error() {
    let frames = vec![Frame::Data(b"ab".to_vec()), Frame::Failed];
    let err = response(200, HeaderMap::new(), frames).text().unwrap_err();
    assert!(err.is_body());
    assert_eq!(err.kind, Kind::Body);
}

#[test]
fn stream_yields_two_data_items_around_trailers() {
    let frames = vec![
        Frame::Data(b"one".to_vec()),
        Frame::Other,
        Frame::Data(b"two".to_vec()),
    ];
    let items = response(200, HeaderMap::new(), frames).bytes_stream();
    assert_eq!(items.len(), 2);
    assert_eq!(items[0].as_ref().unwrap(), &b"one".to_vec());
    assert_eq!(items[1].as_ref().unwrap(), &b"two".to_vec());
}

#[test]
fn stream_ends_at_failure() {
    let frames = vec![
        Frame::Data(b"one".to_vec()),
        Frame::Failed,
        Frame::Data(b"two".to_vec()),
    ];
    let items = response(200, HeaderMap::new(), frames).bytes_stream();
    assert_eq!(items.len(), 2);
    assert!(items[0].is_ok());
    assert!(items[1].as_ref().unwrap_err().is_body());
}

#[test]
fn content_length_reads_decimal_header() {
    let mut h = HeaderMap::new();
    h.insert(CONTENT_LENGTH, HeaderValue::from_static("42"));
    assert_eq!(response(200, h, vec![]).content_length(), Some(42));
    let mut h = HeaderMap::new();
    h.insert(CONTENT_LENGTH, HeaderValue::from_static("4x2"));
    assert_eq!(response(200, h, vec![]).content_length(), None);
    assert_eq!(response(200, HeaderMap::new(), vec![]).content_length(), None);
}

#[test]
fn decimal_parse_edges() {
    assert_eq!(parse_decimal_u64(b"0"), Some(0));
    assert_eq!(parse_decimal_u64(b"+7"), Some(7));
    assert_eq!(parse_decimal_u64(b"+"), None);
    assert_eq!(parse_decimal_u64(b""), None);
    assert_eq!(parse_decimal_u64(b"-1"), None);
    assert_eq!(parse_decimal_u64(b"18446744073709551615"), Some(u64::MAX));
    assert_eq!(parse_decimal_u64(b"18446744073709551616"), None);
    assert_eq!(parse_decimal_u64(b"99999999999999999999"), None);
}

#[test]
fn headers_are_readable_repeatedly() {
    let r = response(201, with_content_type("text/plain"), vec![]);
    assert_eq!(r.headers().get(CONTENT_TYPE).unwrap(), "text/plain");
    assert_eq!(r.headers().len(), 1);
    assert_eq!(r.status(), 201);
}

#[test]
fn headers_mut_changes_the_response_headers() {
    let mut r = response(200, HeaderMap::new(), vec![]);
    r.headers_mut().insert(CONTENT_LENGTH, HeaderValue::from_static("5"));
    assert_eq!(r.content_length(), Some(5));
}

#[test]
fn stream_step_decisions() {
    assert!(matches!(stream_step(None), StreamStep::End));
    assert!(matches!(stream_step(Some(Frame::Other)), StreamStep::Skip));
    match stream_step(Some(Frame::Data(b"x".to_vec()))) {
        StreamStep::Yield(Ok(b)) => assert_eq!(b, b"x".to_vec()),
        _ => panic!("expected a data item"),
    }
    match stream_step(Some(Frame::Failed)) {
        StreamStep::Yield(Err(e)) => assert!(e.is_body()),
        _ => panic!("expected an error item"),
    }
}
