//! The request side: method vocabulary, request-line parsing, and the
//! header-block parser.
//!
//! A request line is one CRLF-delimited line split on spaces into a
//! method token, a target, and a version token; the header block is a
//! run of `name: value` lines ended by an empty line.  Parsing either
//! yields a complete request or fails before any request is returned.

use vstd::prelude::*;
use vstd::string::{StrSliceExecFns, StringExecFns};
use vstd::utf8::{valid_utf8, decode_utf8};
use crate::errors::{HttpError, HttpErrorView};
use crate::source::{
    ByteSource, find_byte, find_sub, lemma_find_sub_bounds, lemma_find_sub_first,
    lemma_find_sub_none, match_at, spec_scan, subvec,
};
use crate::text::{spec_trim, string_from_utf8, str_eq, trim_str};
use crate::version::{HttpVersion, lemma_version_text_of, spec_version_of, spec_version_text};

verus! {

/// The line terminator of the wire format, as bytes.
pub open spec fn crlf() -> Seq<u8> {
    seq![13u8, 10u8]
}

/// The byte the request line is split on.
pub open spec fn space_byte() -> Seq<u8> {
    seq![32u8]
}

/// The header name/value separator, as characters.
pub open spec fn colon_space() -> Seq<char> {
    seq![':', ' ']
}

/// The line terminator as a byte vector, for the scanner.
pub fn crlf_bytes() -> (r: Vec<u8>)
    ensures
        r@ == crlf(),
{
    let mut d: Vec<u8> = Vec::new();
    d.push(13);
    d.push(10);
    proof {
        assert(d@ =~= crlf());
    }
    d
}

/// The closed set of recognized request methods.
///
/// These are recognized tokens only: the core gives no method-specific
/// body semantics.
#[derive(Clone, Copy, PartialEq, Eq, Structural, Debug)]
pub enum HttpRequestMethod {
    Get,
    Post,
    Delete,
    Patch,
    Put,
}

/// The exact wire token of each method.
pub open spec fn spec_method_text(m: HttpRequestMethod) -> Seq<char> {
    match m {
        HttpRequestMethod::Get => "GET"@,
        HttpRequestMethod::Post => "POST"@,
        HttpRequestMethod::Delete => "DELETE"@,
        HttpRequestMethod::Patch => "PATCH"@,
        HttpRequestMethod::Put => "PUT"@,
    }
}

/// The method a token denotes, or `None` when the token is outside the
/// vocabulary.
pub open spec fn spec_method_of(s: Seq<char>) -> Option<HttpRequestMethod> {
    if s == "GET"@ {
        Some(HttpRequestMethod::Get)
    } else if s == "POST"@ {
        Some(HttpRequestMethod::Post)
    } else if s == "DELETE"@ {
        Some(HttpRequestMethod::Delete)
    } else if s == "PATCH"@ {
        Some(HttpRequestMethod::Patch)
    } else if s == "PUT"@ {
        Some(HttpRequestMethod::Put)
    } else {
        None
    }
}

/// Each method's wire token parses back to that method.
pub proof fn lemma_method_text_of(m: HttpRequestMethod)
    ensures
        spec_method_of(spec_method_text(m)) == Some(m),
{
    reveal_strlit("GET");
    reveal_strlit("POST");
    reveal_strlit("DELETE");
    reveal_strlit("PATCH");
    reveal_strlit("PUT");
    assert("GET"@.len() == 3 && "POST"@.len() == 4 && "DELETE"@.len() == 6 && "PATCH"@.len() == 5
        && "PUT"@.len() == 3);
    assert("GET"@[0] == 'G' && "PUT"@[0] == 'P');
    assert("POST"@[1] == 'O' && "PATCH"@[1] == 'A');
}

impl HttpRequestMethod {
    /// Parses a method token by exact match against the vocabulary;
    /// any other token fails with the offending string.
    pub fn from_str(s: &str) -> (r: Result<HttpRequestMethod, HttpError>)
        ensures
            match spec_method_of(s@) {
                Some(m) => r matches Ok(rm) && rm == m,
                None => r matches Err(e) && e@ == HttpErrorView::UnknownMethod(s@),
            },
    {
        if str_eq(s, "GET") {
            Ok(HttpRequestMethod::Get)
        } else if str_eq(s, "POST") {
            Ok(HttpRequestMethod::Post)
        } else if str_eq(s, "DELETE") {
            Ok(HttpRequestMethod::Delete)
        } else if str_eq(s, "PATCH") {
            Ok(HttpRequestMethod::Patch)
        } else if str_eq(s, "PUT") {
            Ok(HttpRequestMethod::Put)
        } else {
            Err(HttpError::UnknownMethod(s.to_owned()))
        }
    }
}

/// The parsed first line of a request.
#[derive(Debug)]
pub struct HttpRequestLine {
    version: HttpVersion,
    target: String,
    method: HttpRequestMethod,
}

/// Ghost model of a request line.
#[verifier::ext_equal]
pub struct RequestLineView {
    pub version: HttpVersion,
    pub target: Seq<char>,
    pub method: HttpRequestMethod,
}

impl View for HttpRequestLine {
    type V = RequestLineView;

    closed spec fn view(&self) -> RequestLineView {
        RequestLineView { version: self.version, target: self.target@, method: self.method }
    }
}

/// The three tokens of a request line: the bytes before the first
/// space, between the first and second, and from there to the third
/// space or the end.  Bytes after a third space are ignored.  `None`
/// when the line has fewer than two spaces.
pub open spec fn spec_split3(line: Seq<u8>) -> Option<(Seq<u8>, Seq<u8>, Seq<u8>)> {
    match find_sub(line, space_byte(), 0) {
        None => None,
        Some(i1) => match find_sub(line, space_byte(), i1 + 1) {
            None => None,
            Some(i2) => {
                let end = match find_sub(line, space_byte(), i2 + 1) {
                    Some(i3) => i3,
                    None => line.len() as int,
                };
                Some(
                    (
                        line.subrange(0, i1),
                        line.subrange(i1 + 1, i2),
                        line.subrange(i2 + 1, end),
                    ),
                )
            },
        },
    }
}

/// What parsing the bytes of one request line yields: three tokens,
/// each valid UTF-8, the method and version tokens in their
/// vocabularies — or the exact failure the line causes.
pub open spec fn spec_parse_request_line_bytes(line: Seq<u8>) -> Result<
    RequestLineView,
    HttpErrorView,
> {
    match spec_split3(line) {
        None => Err(HttpErrorView::MalformedLine),
        Some((mb, tb, vb)) => {
            if !valid_utf8(mb) || !valid_utf8(tb) || !valid_utf8(vb) {
                Err(HttpErrorView::Utf8DecodeFailure)
            } else {
                match spec_method_of(decode_utf8(mb)) {
                    None => Err(HttpErrorView::UnknownMethod(decode_utf8(mb))),
                    Some(m) => match spec_version_of(decode_utf8(vb)) {
                        None => Err(HttpErrorView::UnknownHttpVersion(decode_utf8(vb))),
                        Some(v) => Ok(
                            RequestLineView { version: v, target: decode_utf8(tb), method: m },
                        ),
                    },
                }
            }
        },
    }
}

/// What parsing a request line from the head of a stream yields, with
/// the unconsumed rest of the stream.
pub open spec fn spec_parse_request_line(s: Seq<u8>) -> Result<
    (RequestLineView, Seq<u8>),
    HttpErrorView,
> {
    match spec_scan(s, crlf()) {
        Err(e) => Err(e),
        Ok((line, rest)) => match spec_parse_request_line_bytes(line) {
            Err(e) => Err(e),
            Ok(rl) => Ok((rl, rest)),
        },
    }
}

/// Splits one delimiter-free line into its three tokens and validates
/// them, as [`spec_parse_request_line_bytes`] says.
fn parse_request_line_bytes(line: Vec<u8>) -> (r: Result<HttpRequestLine, HttpError>)
    ensures
        match spec_parse_request_line_bytes(line@) {
            Ok(rl) => r matches Ok(x) && x@ == rl,
            Err(e) => r matches Err(err) && err@ == e,
        },
{
    let line_len = line.len();
    let i1 = match find_byte(&line, 32, 0) {
        Some(i) => i,
        None => {
            return Err(HttpError::MalformedLine);
        },
    };
    proof {
        lemma_find_sub_bounds(line@, space_byte(), 0);
    }
    let i2 = match find_byte(&line, 32, i1 + 1) {
        Some(i) => i,
        None => {
            return Err(HttpError::MalformedLine);
        },
    };
    proof {
        lemma_find_sub_bounds(line@, space_byte(), i1 + 1);
    }
    let end = match find_byte(&line, 32, i2 + 1) {
        Some(i) => i,
        None => line_len,
    };
    proof {
        if find_sub(line@, space_byte(), i2 + 1) is Some {
            lemma_find_sub_bounds(line@, space_byte(), i2 + 1);
        }
    }
    let mb = subvec(&line, 0, i1);
    let tb = subvec(&line, i1 + 1, i2);
    let vb = subvec(&line, i2 + 1, end);
    let method_s = match string_from_utf8(mb) {
        Some(s) => s,
        None => {
            return Err(HttpError::Utf8DecodeFailure);
        },
    };
    let target_s = match string_from_utf8(tb) {
        Some(s) => s,
        None => {
            return Err(HttpError::Utf8DecodeFailure);
        },
    };
    let version_s = match string_from_utf8(vb) {
        Some(s) => s,
        None => {
            return Err(HttpError::Utf8DecodeFailure);
        },
    };
    let method = match HttpRequestMethod::from_str(method_s.as_str()) {
        Ok(m) => m,
        Err(e) => {
            return Err(e);
        },
    };
    let version = match HttpVersion::from_str(version_s.as_str()) {
        Ok(v) => v,
        Err(e) => {
            return Err(e);
        },
    };
    Ok(HttpRequestLine::new(version, target_s, method))
}

impl HttpRequestLine {
    /// Assembles a request line from its parts.
    pub fn new(version: HttpVersion, target: String, method: HttpRequestMethod) -> (r: Self)
        ensures
            r@ == (RequestLineView { version, target: target@, method }),
    {
        Self { version, target, method }
    }

    /// Reads one CRLF-delimited line from the stream and parses it as
    /// the request line.
    pub fn from_stream(stream: &mut ByteSource) -> (r: Result<Self, HttpError>)
        ensures
            match spec_parse_request_line(old(stream)@) {
                Ok((rl, rest)) => {
                    &&& r matches Ok(x) && x@ == rl
                    &&& final(stream)@ == rest
                },
                Err(e) => {
                    &&& r matches Err(err) && err@ == e
                    &&& final(stream)@.len() <= old(stream)@.len()
                },
            },
    {
        let delim = crlf_bytes();
        let line = match stream.scan_until(delim.as_slice()) {
            Ok(l) => l,
            Err(e) => {
                return Err(e);
            },
        };
        proof {
            // The scan consumed the line and its delimiter, so the rest
            // of the stream is no longer than the input was.
            if find_sub(old(stream)@, crlf(), 0) is Some {
                lemma_find_sub_bounds(old(stream)@, crlf(), 0);
            }
        }
        parse_request_line_bytes(line)
    }
}

/// The name and value of one non-empty header line: the characters
/// before the first `": "` and everything after it.  `None` when the
/// separator is missing.
pub open spec fn spec_split_header(t: Seq<char>) -> Option<(Seq<char>, Seq<char>)> {
    match find_sub(t, colon_space(), 0) {
        None => None,
        Some(i) => Some((t.subrange(0, i), t.subrange(i + 2, t.len() as int))),
    }
}

/// What parsing a header block from the head of a stream yields: one
/// (name, value) pair per non-empty line, in order, ended without error
/// by the first line that trims to nothing — or the exact failure the
/// block causes.
pub open spec fn spec_parse_headers(s: Seq<u8>) -> Result<
    (Seq<(Seq<char>, Seq<char>)>, Seq<u8>),
    HttpErrorView,
>
    decreases s.len(),
    via spec_parse_headers_decreases
{
    match spec_scan(s, crlf()) {
        Err(e) => Err(e),
        Ok((line, rest)) => {
            if !valid_utf8(line) {
                Err(HttpErrorView::Utf8DecodeFailure)
            } else {
                let t = spec_trim(decode_utf8(line));
                if t.len() == 0 {
                    Ok((Seq::empty(), rest))
                } else {
                    match spec_split_header(t) {
                        None => Err(HttpErrorView::MalformedLine),
                        Some(nv) => match spec_parse_headers(rest) {
                            Err(e) => Err(e),
                            Ok((hs, rest2)) => Ok((seq![nv] + hs, rest2)),
                        },
                    }
                }
            }
        },
    }
}

#[via_fn]
proof fn spec_parse_headers_decreases(s: Seq<u8>) {
    if find_sub(s, crlf(), 0) is Some {
        lemma_find_sub_bounds(s, crlf(), 0);
    }
}

/// The views of an exec header list.
pub open spec fn spec_header_views(hs: Seq<(String, String)>) -> Seq<(Seq<char>, Seq<char>)> {
    hs.map_values(|p: (String, String)| (p.0@, p.1@))
}

/// Finds the first occurrence of `": "` in `t`.
fn find_colon_space(t: &str) -> (r: Option<usize>)
    ensures
        match find_sub(t@, colon_space(), 0) {
            Some(i) => r matches Some(j) && j == i,
            None => r is None,
        },
{
    let n = t.unicode_len();
    if n < 2 {
        proof {
            assert forall|k: int| 0 <= k implies !match_at(t@, colon_space(), k) by {}
            lemma_find_sub_none(t@, colon_space(), 0);
        }
        return None;
    }
    let mut j: usize = 0;
    while j < n - 1
        invariant
            n == t@.len(),
            2 <= n,
            0 <= j <= n - 1,
            forall|k: int| 0 <= k < j ==> !match_at(t@, colon_space(), k),
        decreases n - j,
    {
        if t.get_char(j) == ':' && t.get_char(j + 1) == ' ' {
            proof {
                assert(t@.subrange(j as int, j + 2) =~= colon_space());
                lemma_find_sub_first(t@, colon_space(), 0, j as int);
            }
            return Some(j);
        }
        proof {
            if match_at(t@, colon_space(), j as int) {
                assert(t@.subrange(j as int, j + 2) =~= seq![t@[j as int], t@[j + 1]]);
                assert(t@.subrange(j as int, j + 2)[0] == colon_space()[0]);
                assert(t@.subrange(j as int, j + 2)[1] == colon_space()[1]);
                assert(false);
            }
        }
        j += 1;
    }
    proof {
        assert forall|k: int| 0 <= k implies !match_at(t@, colon_space(), k) by {}
        lemma_find_sub_none(t@, colon_space(), 0);
    }
    None
}

/// Reads header lines from the stream until the empty line that ends
/// the block, as [`spec_parse_headers`] says.
pub fn parse_headers(stream: &mut ByteSource) -> (r: Result<Vec<(String, String)>, HttpError>)
    ensures
        match spec_parse_headers(old(stream)@) {
            Ok((hs, rest)) => {
                &&& r matches Ok(v) && spec_header_views(v@) == hs
                &&& final(stream)@ == rest
            },
            Err(e) => {
                &&& r matches Err(err) && err@ == e
                &&& final(stream)@.len() <= old(stream)@.len()
            },
        },
{
    let ghost s0 = stream@;
    let delim = crlf_bytes();
    let mut headers: Vec<(String, String)> = Vec::new();
    proof {
        assert(spec_header_views(headers@) =~= Seq::<(Seq<char>, Seq<char>)>::empty());
    }
    loop
        invariant
            s0 == old(stream)@,
            stream@.len() <= s0.len(),
            delim@ == crlf(),
            match spec_parse_headers(stream@) {
                Ok((hs, rest)) => spec_parse_headers(s0) == Ok::<
                    (Seq<(Seq<char>, Seq<char>)>, Seq<u8>),
                    HttpErrorView,
                >((spec_header_views(headers@) + hs, rest)),
                Err(e) => spec_parse_headers(s0) == Err::<
                    (Seq<(Seq<char>, Seq<char>)>, Seq<u8>),
                    HttpErrorView,
                >(e),
            },
        decreases stream@.len(),
    {
        let ghost pre = stream@;
        let line = match stream.scan_until(delim.as_slice()) {
            Ok(l) => l,
            Err(e) => {
                return Err(e);
            },
        };
        proof {
            // The scan succeeded, so the rest of the stream is strictly
            // shorter: the delimiter itself was consumed.
            lemma_find_sub_bounds(pre, crlf(), 0);
        }
        let s = match string_from_utf8(line) {
            Some(s) => s,
            None => {
                return Err(HttpError::Utf8DecodeFailure);
            },
        };
        let t = trim_str(s.as_str());
        if t.unicode_len() == 0 {
            proof {
                assert(spec_header_views(headers@) + Seq::<(Seq<char>, Seq<char>)>::empty()
                    =~= spec_header_views(headers@));
            }
            return Ok(headers);
        }
        let idx = match find_colon_space(t) {
            Some(i) => i,
            None => {
                return Err(HttpError::MalformedLine);
            },
        };
        proof {
            lemma_find_sub_bounds(t@, colon_space(), 0);
        }
        let name = t.substring_char(0, idx);
        let value = t.substring_char(idx + 2, t.unicode_len());
        let ghost old_headers = headers@;
        headers.push((name.to_owned(), value.to_owned()));
        proof {
            let nv = spec_split_header(t@).unwrap();
            assert(spec_header_views(headers@) =~= spec_header_views(old_headers) + seq![nv]);
            if spec_parse_headers(stream@) is Ok {
                let hs = spec_parse_headers(stream@)->Ok_0.0;
                assert(spec_header_views(old_headers) + (seq![nv] + hs)
                    =~= spec_header_views(headers@) + hs);
            }
        }
    }
}

/// A fully parsed request: request line, header list, and an optional
/// body, which this core never reads.
#[derive(Debug)]
pub struct HttpRequest {
    request_line: HttpRequestLine,
    headers: Vec<(String, String)>,
    body: Option<String>,
}

/// Ghost model of a request.
#[verifier::ext_equal]
pub struct RequestView {
    pub request_line: RequestLineView,
    pub headers: Seq<(Seq<char>, Seq<char>)>,
    pub body: Option<Seq<char>>,
}

impl View for HttpRequest {
    type V = RequestView;

    closed spec fn view(&self) -> RequestView {
        RequestView {
            request_line: self.request_line@,
            headers: spec_header_views(self.headers@),
            body: match self.body {
                Some(ref b) => Some(b@),
                None => None,
            },
        }
    }
}

/// What parsing one whole request from the head of a stream yields,
/// with the unconsumed rest of the stream.  The body is never read.
pub open spec fn spec_parse_request(s: Seq<u8>) -> Result<(RequestView, Seq<u8>), HttpErrorView> {
    match spec_parse_request_line(s) {
        Err(e) => Err(e),
        Ok((rl, rest)) => match spec_parse_headers(rest) {
            Err(e) => Err(e),
            Ok((hs, rest2)) => Ok(
                (RequestView { request_line: rl, headers: hs, body: None }, rest2),
            ),
        },
    }
}

/// The value of the first header with the given name, or `None` when
/// no header has it.  Names compare as exact strings.
pub open spec fn spec_first_header(hs: Seq<(Seq<char>, Seq<char>)>, name: Seq<char>) -> Option<
    Seq<char>,
>
    decreases hs.len(),
{
    if hs.len() == 0 {
        None
    } else if hs[0].0 == name {
        Some(hs[0].1)
    } else {
        spec_first_header(hs.drop_first(), name)
    }
}

/// A match at position `i` with no earlier match is the first match.
proof fn lemma_first_header_found(hs: Seq<(Seq<char>, Seq<char>)>, name: Seq<char>, i: int)
    requires
        0 <= i < hs.len(),
        hs[i].0 == name,
        forall|j: int| 0 <= j < i ==> hs[j].0 != name,
    ensures
        spec_first_header(hs, name) == Some(hs[i].1),
    decreases i,
{
    if i > 0 {
        lemma_first_header_found(hs.drop_first(), name, i - 1);
    }
}

/// With no matching name anywhere, the lookup yields nothing.
proof fn lemma_first_header_none(hs: Seq<(Seq<char>, Seq<char>)>, name: Seq<char>)
    requires
        forall|j: int| 0 <= j < hs.len() ==> hs[j].0 != name,
    ensures
        spec_first_header(hs, name) is None,
    decreases hs.len(),
{
    if hs.len() > 0 {
        lemma_first_header_none(hs.drop_first(), name);
    }
}

impl HttpRequest {
    /// Parses one whole request from the stream: request line, then
    /// header block.  Any failure aborts the request atomically: no
    /// partially constructed request is ever returned.
    pub fn from_stream(stream: &mut ByteSource) -> (r: Result<Self, HttpError>)
        ensures
            match spec_parse_request(old(stream)@) {
                Ok((rv, rest)) => {
                    &&& r matches Ok(req) && req@ == rv
                    &&& final(stream)@ == rest
                },
                Err(e) => {
                    &&& r matches Err(err) && err@ == e
                    &&& final(stream)@.len() <= old(stream)@.len()
                },
            },
    {
        let request_line = match HttpRequestLine::from_stream(stream) {
            Ok(rl) => rl,
            Err(e) => {
                return Err(e);
            },
        };
        proof {
            if find_sub(old(stream)@, crlf(), 0) is Some {
                lemma_find_sub_bounds(old(stream)@, crlf(), 0);
            }
        }
        let headers = match parse_headers(stream) {
            Ok(hs) => hs,
            Err(e) => {
                return Err(e);
            },
        };
        let req = HttpRequest { request_line, headers, body: None };
        proof {
            assert(req@ =~= spec_parse_request(old(stream)@)->Ok_0.0);
        }
        Ok(req)
    }

    /// The value of the first header whose name equals `header_name`
    /// exactly, or `None` when no header has that name.
    pub fn get_header(&self, header_name: &str) -> (r: Option<&String>)
        ensures
            match spec_first_header(self@.headers, header_name@) {
                Some(v) => r matches Some(rv) && rv@ == v,
                None => r is None,
            },
    {
        let n = self.headers.len();
        let mut i: usize = 0;
        while i < n
            invariant
                n == self.headers@.len(),
                0 <= i <= n,
                forall|j: int| 0 <= j < i ==> spec_header_views(self.headers@)[j].0
                    != header_name@,
            decreases n - i,
        {
            let pair = &self.headers[i];
            if str_eq(pair.0.as_str(), header_name) {
                proof {
                    lemma_first_header_found(
                        spec_header_views(self.headers@),
                        header_name@,
                        i as int,
                    );
                }
                return Some(&pair.1);
            }
            i += 1;
        }
        proof {
            lemma_first_header_none(spec_header_views(self.headers@), header_name@);
        }
        None
    }

    /// The raw target path of the request line.
    pub fn get_path(&self) -> (r: &str)
        ensures
            r@ == self@.request_line.target,
    {
        self.request_line.target.as_str()
    }

    /// The parsed method of the request line.
    pub fn get_method(&self) -> (r: &HttpRequestMethod)
        ensures
            *r == self@.request_line.method,
    {
        &self.request_line.method
    }

    /// The parsed protocol version of the request line.
    pub fn get_http_version(&self) -> (r: &HttpVersion)
        ensures
            *r == self@.request_line.version,
    {
        &self.request_line.version
    }
}

/// An ASCII character whose byte equals a byte below 128 is that byte's
/// character.
proof fn lemma_ascii_char_byte(c: char, b: u8)
    requires
        (c as nat) < 128,
        b < 128,
        (c as u8) == b,
    ensures
        c == (b as char),
{
    vstd::utf8::char_u32_cast(c, c as u32);
}

/// Building the line `M T V` from any supported method token `M`, any
/// supported version token `V`, and any ASCII target `T` free of
/// spaces, carriage returns and line feeds, then terminating it with
/// CRLF, parses back to exactly that request line and consumes the
/// whole input.
pub proof fn lemma_request_line_roundtrip(m: HttpRequestMethod, v: HttpVersion, t: Seq<char>)
    requires
        vstd::utf8::is_ascii_chars(t),
        forall|i: int| 0 <= i < t.len() ==> t[i] != ' ' && t[i] != '\r' && t[i] != '\n',
    ensures
        ({
            let line_chars = spec_method_text(m) + seq![' '] + t + seq![' ']
                + spec_version_text(v);
            let input = vstd::utf8::encode_utf8(line_chars) + crlf();
            &&& spec_parse_request_line(input) matches Ok(p)
            &&& p.0 == (RequestLineView { version: v, target: t, method: m })
            &&& p.1 == Seq::<u8>::empty()
        }),
{
    reveal_strlit("GET");
    reveal_strlit("POST");
    reveal_strlit("DELETE");
    reveal_strlit("PATCH");
    reveal_strlit("PUT");
    reveal_strlit("HTTP/1.0");
    reveal_strlit("HTTP/1.1");
    reveal_strlit("HTTP/2.0");
    let mt = spec_method_text(m);
    let vt = spec_version_text(v);
    let sp = seq![' '];
    let line_chars = mt + sp + t + sp + vt;
    let lineb = vstd::utf8::encode_utf8(line_chars);
    let input = lineb + crlf();
    let ml = mt.len() as int;
    let tl = t.len() as int;
    let ll = line_chars.len() as int;
    // The token texts are ASCII and hold no space, CR or LF.
    assert(vstd::utf8::is_ascii_chars(mt));
    assert(vstd::utf8::is_ascii_chars(vt));
    assert(vstd::utf8::is_ascii_chars(sp));
    assert(vstd::utf8::is_ascii_chars(line_chars));
    vstd::utf8::is_ascii_chars_encode_utf8(line_chars);
    assert(lineb.len() == ll);
    // Where each character of the line comes from.
    assert forall|k: int| 0 <= k < ll implies line_chars[k] != '\r' && line_chars[k] != '\n'
        && (line_chars[k] == ' ' <==> (k == ml || k == ml + 1 + tl)) by {
        if k < ml {
            assert(line_chars[k] == mt[k]);
        } else if k == ml {
            assert(line_chars[k] == ' ');
        } else if k < ml + 1 + tl {
            assert(line_chars[k] == t[k - ml - 1]);
        } else if k == ml + 1 + tl {
            assert(line_chars[k] == ' ');
        } else {
            assert(line_chars[k] == vt[k - ml - 2 - tl]);
        }
    }
    // A byte of the line is CR or a space exactly where its character is.
    assert forall|k: int| 0 <= k < ll implies (lineb[k] == 13u8 ==> line_chars[k] == '\r') && (
    lineb[k] == 32u8 ==> line_chars[k] == ' ') by {
        vstd::utf8::is_ascii_chars_nat_bound(line_chars);
        if lineb[k] == 13u8 {
            lemma_ascii_char_byte(line_chars[k], 13);
            assert(('\r') as u32 == 13);
            vstd::utf8::char_u32_cast('\r', 13);
        }
        if lineb[k] == 32u8 {
            lemma_ascii_char_byte(line_chars[k], 32);
            assert((' ') as u32 == 32);
            vstd::utf8::char_u32_cast(' ', 32);
        }
    }
    // The one CRLF of the input stands right after the line.
    assert(input.subrange(ll, ll + 2) =~= crlf());
    assert(match_at(input, crlf(), ll));
    assert forall|k: int| 0 <= k < ll implies !match_at(input, crlf(), k) by {
        if match_at(input, crlf(), k) {
            assert(input.subrange(k, k + 2)[0] == input[k]);
            assert(input[k] == 13u8);
            assert(lineb[k] == 13u8);
        }
    }
    lemma_find_sub_first(input, crlf(), 0, ll);
    assert(input.subrange(0, ll) =~= lineb);
    assert(input.subrange(ll + 2, ll + 2) =~= Seq::<u8>::empty());
    // The two spaces split the line into exactly the three tokens.
    assert(lineb.subrange(ml, ml + 1) =~= seq![32u8]) by {
        assert(lineb[ml] == line_chars[ml] as u8);
    }
    assert forall|k: int| 0 <= k < ml implies !match_at(lineb, space_byte(), k) by {
        if match_at(lineb, space_byte(), k) {
            assert(lineb.subrange(k, k + 1)[0] == lineb[k]);
        }
    }
    lemma_find_sub_first(lineb, space_byte(), 0, ml);
    assert(lineb.subrange(ml + 1 + tl, ml + 2 + tl) =~= seq![32u8]) by {
        assert(lineb[ml + 1 + tl] == line_chars[ml + 1 + tl] as u8);
    }
    assert forall|k: int| ml + 1 <= k < ml + 1 + tl implies !match_at(lineb, space_byte(), k) by {
        if match_at(lineb, space_byte(), k) {
            assert(lineb.subrange(k, k + 1)[0] == lineb[k]);
        }
    }
    lemma_find_sub_first(lineb, space_byte(), ml + 1, ml + 1 + tl);
    assert forall|k: int| ml + 2 + tl <= k implies !match_at(lineb, space_byte(), k) by {
        if match_at(lineb, space_byte(), k) {
            assert(lineb.subrange(k, k + 1)[0] == lineb[k]);
        }
    }
    lemma_find_sub_none(lineb, space_byte(), ml + 2 + tl);
    // Each token's bytes are the encoding of its characters.
    let mb = lineb.subrange(0, ml);
    let tb = lineb.subrange(ml + 1, ml + 1 + tl);
    let vb = lineb.subrange(ml + 2 + tl, ll);
    vstd::utf8::is_ascii_chars_encode_utf8(mt);
    vstd::utf8::is_ascii_chars_encode_utf8(t);
    vstd::utf8::is_ascii_chars_encode_utf8(vt);
    assert(mb =~= vstd::utf8::encode_utf8(mt));
    assert(tb =~= vstd::utf8::encode_utf8(t));
    assert(vb =~= vstd::utf8::encode_utf8(vt));
    vstd::utf8::encode_utf8_valid_utf8(mt);
    vstd::utf8::encode_utf8_valid_utf8(t);
    vstd::utf8::encode_utf8_valid_utf8(vt);
    vstd::utf8::encode_utf8_decode_utf8(mt);
    vstd::utf8::encode_utf8_decode_utf8(t);
    vstd::utf8::encode_utf8_decode_utf8(vt);
    lemma_method_text_of(m);
    lemma_version_text_of(v);
    assert(spec_split3(lineb) == Some((mb, tb, vb)));
    assert(spec_parse_request_line_bytes(lineb) == Ok::<RequestLineView, HttpErrorView>(
        RequestLineView { version: v, target: t, method: m },
    ));
}

} // verus!
