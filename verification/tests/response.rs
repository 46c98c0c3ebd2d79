//! Tests for the response model, its builder operations and its
//! serializer.

use http_wire::errors::HttpError;
use http_wire::response::{HttpResponse, HttpStatus};
use http_wire::text::dec_string;
use http_wire::version::HttpVersion;

#[test]
fn empty_ok_response_serializes_exactly() {
    let response = HttpResponse::new(HttpVersion::Http1_1);
    assert_eq!(response.to_string(), "HTTP/1.1 200 OK\r\n\r\n");
}

#[test]
fn not_found_response_serializes_exactly() {
    let mut response = HttpResponse::new(HttpVersion::Http1_1);
    response.set_status(HttpStatus::NotFound);
    assert_eq!(response.to_string(), "HTTP/1.1 404 Not Found\r\n\r\n");
}

#[test]
fn version_is_echoed_in_the_status_line() {
    let response = HttpResponse::new(HttpVersion::Http1_0);
    assert_eq!(response.to_string(), "HTTP/1.0 200 OK\r\n\r\n");
    let response = HttpResponse::new(HttpVersion::Http2_0);
    assert_eq!(response.to_string(), "HTTP/2.0 200 OK\r\n\r\n");
}

#[test]
fn write_text_sets_matching_headers_and_body() {
    let mut response = HttpResponse::new(HttpVersion::Http1_1);
    response.write_text("hello");
    assert_eq!(
        response.to_string(),
        "HTTP/1.1 200 OK\r\nContent-Type: text/plain\r\nContent-Length: 5\r\n\r\nhello"
    );
}

#[test]
fn write_text_counts_bytes_not_characters() {
    let mut response = HttpResponse::new(HttpVersion::Http1_1);
    response.write_text("caf\u{e9}");
    assert_eq!(
        response.to_string(),
        "HTTP/1.1 200 OK\r\nContent-Type: text/plain\r\nContent-Length: 5\r\n\r\ncaf\u{e9}"
    );
}

#[test]
fn write_text_of_empty_body() {
    let mut response = HttpResponse::new(HttpVersion::Http1_1);
    response.write_text("");
    assert_eq!(
        response.to_string(),
        "HTTP/1.1 200 OK\r\nContent-Type: text/plain\r\nContent-Length: 0\r\n\r\n"
    );
}

#[test]
fn headers_keep_insertion_order_and_duplicates() {
    let mut response = HttpResponse::new(HttpVersion::Http1_1);
    response.add_header("A", "1");
    response.add_header("B", "2");
    response.add_header("A", "3");
    assert_eq!(response.to_string(), "HTTP/1.1 200 OK\r\nA: 1\r\nB: 2\r\nA: 3\r\n\r\n");
}

#[test]
fn add_content_replaces_the_body_only() {
    let mut response = HttpResponse::new(HttpVersion::Http1_1);
    response.add_content("first");
    response.add_content("second");
    assert_eq!(response.to_string(), "HTTP/1.1 200 OK\r\n\r\nsecond");
}

#[test]
fn dec_string_renders_exact_decimals() {
    assert_eq!(dec_string(0), "0");
    assert_eq!(dec_string(7), "7");
    assert_eq!(dec_string(10), "10");
    assert_eq!(dec_string(105), "105");
    assert_eq!(dec_string(123456789), "123456789");
    assert_eq!(dec_string(usize::MAX), usize::MAX.to_string());
}

#[test]
fn error_messages_name_the_failure() {
    assert_eq!(HttpError::MalformedLine.message(), "malformed line");
    assert_eq!(
        HttpError::UnterminatedStream.message(),
        "no delimiter found before end of stream"
    );
    assert_eq!(HttpError::Utf8DecodeFailure.message(), "invalid UTF-8");
    assert_eq!(HttpError::UnknownMethod("BREW".to_string()).message(), "unknown HTTP method");
    assert_eq!(
        HttpError::UnknownHttpVersion("X".to_string()).message(),
        "unknown HTTP version"
    );
    assert_eq!(HttpError::IoFailure.message(), "I/O failure");
}
