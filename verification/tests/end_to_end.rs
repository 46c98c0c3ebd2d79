//! End-to-end tests: request bytes in, routed response bytes out.

use http_wire::request::HttpRequest;
use http_wire::response::HttpResponse;
use http_wire::router::handle_request;
use http_wire::source::ByteSource;
use http_wire::text::{str_eq, str_starts_with, trim_str};

fn respond(input: &[u8]) -> String {
    let mut stream = ByteSource::new(input.to_vec());
    let request = HttpRequest::from_stream(&mut stream).unwrap();
    let response = HttpResponse::new(*request.get_http_version());
    let response = handle_request(request, response);
    response.to_string()
}

#[test]
fn echo_route_returns_the_suffix() {
    assert_eq!(
        respond(b"GET /echo/abc HTTP/1.1\r\nHost: x\r\n\r\n"),
        "HTTP/1.1 200 OK\r\nContent-Type: text/plain\r\nContent-Length: 3\r\n\r\nabc"
    );
}

#[test]
fn unregistered_path_is_not_found() {
    assert_eq!(respond(b"GET /nope HTTP/1.1\r\n\r\n"), "HTTP/1.1 404 Not Found\r\n\r\n");
}

#[test]
fn root_route_answers_plain_ok() {
    assert_eq!(respond(b"GET / HTTP/1.1\r\n\r\n"), "HTTP/1.1 200 OK\r\n\r\n");
}

#[test]
fn user_agent_route_echoes_the_header() {
    assert_eq!(
        respond(b"GET /user-agent HTTP/1.1\r\nUser-Agent: curl/8\r\n\r\n"),
        "HTTP/1.1 200 OK\r\nContent-Type: text/plain\r\nContent-Length: 6\r\n\r\ncurl/8"
    );
}

#[test]
fn user_agent_route_without_header_is_not_found() {
    assert_eq!(
        respond(b"GET /user-agent HTTP/1.1\r\nHost: x\r\n\r\n"),
        "HTTP/1.1 404 Not Found\r\n\r\n"
    );
}

#[test]
fn empty_echo_suffix_gives_empty_body() {
    assert_eq!(
        respond(b"GET /echo/ HTTP/1.1\r\n\r\n"),
        "HTTP/1.1 200 OK\r\nContent-Type: text/plain\r\nContent-Length: 0\r\n\r\n"
    );
}

#[test]
fn echo_counts_bytes_of_non_ascii_suffix() {
    assert_eq!(
        respond("GET /echo/caf\u{e9} HTTP/1.1\r\n\r\n".as_bytes()),
        "HTTP/1.1 200 OK\r\nContent-Type: text/plain\r\nContent-Length: 5\r\n\r\ncaf\u{e9}"
    );
}

#[test]
fn routed_response_keeps_the_request_version() {
    assert_eq!(respond(b"GET /missing HTTP/1.0\r\n\r\n"), "HTTP/1.0 404 Not Found\r\n\r\n");
}

#[test]
fn text_helpers_match_std_behaviour() {
    assert!(str_eq("abc", "abc"));
    assert!(!str_eq("abc", "abd"));
    assert!(!str_eq("abc", "ab"));
    assert!(str_eq("", ""));
    assert!(str_starts_with("/echo/xyz", "/echo/"));
    assert!(!str_starts_with("/echo", "/echo/"));
    assert!(str_starts_with("anything", ""));
    assert_eq!(trim_str("  a b\t\r\n"), "a b");
    assert_eq!(trim_str("   "), "");
    assert_eq!(trim_str("x"), "x");
}
