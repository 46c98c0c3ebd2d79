//! Tests for the scanner, the request-line parser and the header-block
//! parser.

use http_wire::errors::HttpError;
use http_wire::request::{parse_headers, HttpRequest, HttpRequestMethod};
use http_wire::source::ByteSource;
use http_wire::version::HttpVersion;

fn source(bytes: &[u8]) -> ByteSource {
    ByteSource::new(bytes.to_vec())
}

#[test]
fn scan_until_splits_on_first_delimiter() {
    let mut s = source(b"hello\r\nworld\r\n");
    let line = s.scan_until(b"\r\n").unwrap();
    assert_eq!(line, b"hello".to_vec());
    assert_eq!(s.remaining(), 7);
    let line = s.scan_until(b"\r\n").unwrap();
    assert_eq!(line, b"world".to_vec());
    assert_eq!(s.remaining(), 0);
}

#[test]
fn scan_until_delimiter_at_start_gives_empty_line() {
    let mut s = source(b"\r\nrest");
    let line = s.scan_until(b"\r\n").unwrap();
    assert_eq!(line, b"".to_vec());
    assert_eq!(s.remaining(), 4);
}

#[test]
fn scan_until_overlapping_delimiter() {
    let mut s = source(b"aaab");
    let line = s.scan_until(b"aab").unwrap();
    assert_eq!(line, b"a".to_vec());
    assert_eq!(s.remaining(), 0);
}

#[test]
fn scan_until_unterminated_fails_and_consumes_all() {
    let mut s = source(b"GET / HTTP/1.1");
    let err = s.scan_until(b"\r\n").unwrap_err();
    assert!(matches!(err, HttpError::UnterminatedStream));
    assert_eq!(s.remaining(), 0);
}

#[test]
fn scan_until_lone_cr_is_no_delimiter() {
    let mut s = source(b"a\rb");
    let err = s.scan_until(b"\r\n").unwrap_err();
    assert!(matches!(err, HttpError::UnterminatedStream));
}

#[test]
fn parse_request_line_all_methods() {
    let cases: Vec<(&[u8], HttpRequestMethod)> = vec![
        (b"GET / HTTP/1.1\r\n\r\n", HttpRequestMethod::Get),
        (b"POST / HTTP/1.1\r\n\r\n", HttpRequestMethod::Post),
        (b"DELETE / HTTP/1.1\r\n\r\n", HttpRequestMethod::Delete),
        (b"PATCH / HTTP/1.1\r\n\r\n", HttpRequestMethod::Patch),
        (b"PUT / HTTP/1.1\r\n\r\n", HttpRequestMethod::Put),
    ];
    for (bytes, method) in cases {
        let mut s = source(bytes);
        let req = HttpRequest::from_stream(&mut s).unwrap();
        assert_eq!(*req.get_method(), method);
        assert_eq!(req.get_path(), "/");
        assert_eq!(*req.get_http_version(), HttpVersion::Http1_1);
    }
}

#[test]
fn parse_request_line_all_versions() {
    let cases: Vec<(&[u8], HttpVersion)> = vec![
        (b"GET /p HTTP/1.0\r\n\r\n", HttpVersion::Http1_0),
        (b"GET /p HTTP/1.1\r\n\r\n", HttpVersion::Http1_1),
        (b"GET /p HTTP/2.0\r\n\r\n", HttpVersion::Http2_0),
    ];
    for (bytes, version) in cases {
        let mut s = source(bytes);
        let req = HttpRequest::from_stream(&mut s).unwrap();
        assert_eq!(*req.get_http_version(), version);
        assert_eq!(req.get_path(), "/p");
    }
}

#[test]
fn parse_request_line_keeps_target_opaque() {
    let mut s = source(b"GET /a%20b/..//x?q=1 HTTP/1.1\r\n\r\n");
    let req = HttpRequest::from_stream(&mut s).unwrap();
    assert_eq!(req.get_path(), "/a%20b/..//x?q=1");
}

#[test]
fn unknown_method_carries_the_token() {
    let mut s = source(b"BREW / HTTP/1.1\r\n\r\n");
    let err = HttpRequest::from_stream(&mut s).unwrap_err();
    assert!(matches!(err, HttpError::UnknownMethod(t) if t == "BREW"));
}

#[test]
fn lowercase_method_is_unknown() {
    let mut s = source(b"get / HTTP/1.1\r\n\r\n");
    let err = HttpRequest::from_stream(&mut s).unwrap_err();
    assert!(matches!(err, HttpError::UnknownMethod(t) if t == "get"));
}

#[test]
fn unknown_version_carries_the_token() {
    let mut s = source(b"GET / HTTP/9.9\r\n\r\n");
    let err = HttpRequest::from_stream(&mut s).unwrap_err();
    assert!(matches!(err, HttpError::UnknownHttpVersion(t) if t == "HTTP/9.9"));
}

#[test]
fn version_is_checked_after_method() {
    let mut s = source(b"BREW / HTTP/9.9\r\n\r\n");
    let err = HttpRequest::from_stream(&mut s).unwrap_err();
    assert!(matches!(err, HttpError::UnknownMethod(t) if t == "BREW"));
}

#[test]
fn missing_token_is_a_malformed_line() {
    let mut s = source(b"GET /\r\n\r\n");
    let err = HttpRequest::from_stream(&mut s).unwrap_err();
    assert!(matches!(err, HttpError::MalformedLine));
}

#[test]
fn empty_request_line_is_malformed() {
    let mut s = source(b"\r\n\r\n");
    let err = HttpRequest::from_stream(&mut s).unwrap_err();
    assert!(matches!(err, HttpError::MalformedLine));
}

#[test]
fn extra_tokens_after_version_are_ignored() {
    let mut s = source(b"GET / HTTP/1.1 junk\r\n\r\n");
    let req = HttpRequest::from_stream(&mut s).unwrap();
    assert_eq!(*req.get_http_version(), HttpVersion::Http1_1);
}

#[test]
fn invalid_utf8_method_fails_to_decode() {
    let mut bytes = vec![0xff, 0xfe];
    bytes.extend_from_slice(b" / HTTP/1.1\r\n\r\n");
    let mut s = ByteSource::new(bytes);
    let err = HttpRequest::from_stream(&mut s).unwrap_err();
    assert!(matches!(err, HttpError::Utf8DecodeFailure));
}

#[test]
fn invalid_utf8_header_fails_to_decode() {
    let mut bytes = b"GET / HTTP/1.1\r\nX: ".to_vec();
    bytes.push(0xff);
    bytes.extend_from_slice(b"\r\n\r\n");
    let mut s = ByteSource::new(bytes);
    let err = HttpRequest::from_stream(&mut s).unwrap_err();
    assert!(matches!(err, HttpError::Utf8DecodeFailure));
}

#[test]
fn header_block_round_trip() {
    let mut s = source(b"A: 1\r\nB: 2\r\n\r\n");
    let headers = parse_headers(&mut s).unwrap();
    assert_eq!(
        headers,
        vec![("A".to_string(), "1".to_string()), ("B".to_string(), "2".to_string())]
    );
}

#[test]
fn empty_first_line_gives_empty_header_list() {
    let mut s = source(b"\r\n");
    let headers = parse_headers(&mut s).unwrap();
    assert!(headers.is_empty());
}

#[test]
fn header_lines_are_trimmed() {
    let mut s = source(b"  Host: example  \r\n\r\n");
    let headers = parse_headers(&mut s).unwrap();
    assert_eq!(headers, vec![("Host".to_string(), "example".to_string())]);
}

#[test]
fn header_value_keeps_later_separators() {
    let mut s = source(b"A: b: c\r\n\r\n");
    let headers = parse_headers(&mut s).unwrap();
    assert_eq!(headers, vec![("A".to_string(), "b: c".to_string())]);
}

#[test]
fn header_without_separator_is_malformed() {
    let mut s = source(b"GET / HTTP/1.1\r\nBadHeader\r\n\r\n");
    let err = HttpRequest::from_stream(&mut s).unwrap_err();
    assert!(matches!(err, HttpError::MalformedLine));
}

#[test]
fn missing_end_of_header_block_is_unterminated() {
    let mut s = source(b"GET / HTTP/1.1\r\nHost: x\r\n");
    let err = HttpRequest::from_stream(&mut s).unwrap_err();
    assert!(matches!(err, HttpError::UnterminatedStream));
}

#[test]
fn get_header_is_exact_and_first_match() {
    let mut s = source(b"GET / HTTP/1.1\r\nX: 1\r\nX: 2\r\nhost: lower\r\n\r\n");
    let req = HttpRequest::from_stream(&mut s).unwrap();
    assert_eq!(req.get_header("X").unwrap(), "1");
    assert_eq!(req.get_header("host").unwrap(), "lower");
    assert!(req.get_header("Host").is_none());
    assert!(req.get_header("Y").is_none());
}

#[test]
fn non_ascii_header_value_decodes() {
    let mut s = source("GET / HTTP/1.1\r\nX: caf\u{e9}\r\n\r\n".as_bytes());
    let req = HttpRequest::from_stream(&mut s).unwrap();
    assert_eq!(req.get_header("X").unwrap(), "caf\u{e9}");
}

#[test]
fn from_stream_leaves_the_rest_unread() {
    let mut s = source(b"GET / HTTP/1.1\r\nHost: x\r\n\r\nleftover-body");
    let req = HttpRequest::from_stream(&mut s).unwrap();
    assert_eq!(req.get_path(), "/");
    assert_eq!(s.remaining(), 13);
}
