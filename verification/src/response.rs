//! The response side: status vocabulary, the response model with its
//! builder operations, and the serializer that produces wire bytes.

use vstd::prelude::*;
use vstd::string::{StrSliceExecFns, StringExecFns};
use vstd::utf8::encode_utf8;
use crate::request::spec_header_views;
use crate::text::{dec_string, spec_dec};
use crate::version::{HttpVersion, spec_version_text};

verus! {

/// The closed set of response statuses.
#[derive(Clone, Copy, PartialEq, Eq, Structural, Debug)]
pub enum HttpStatus {
    Okay,
    NotFound,
}

/// The fixed status-line text of each status: code and reason phrase.
pub open spec fn spec_status_text(s: HttpStatus) -> Seq<char> {
    match s {
        HttpStatus::Okay => "200 OK"@,
        HttpStatus::NotFound => "404 Not Found"@,
    }
}

/// The first line of a response: `<version> <status>`.
pub open spec fn spec_status_line_text(v: HttpVersion, s: HttpStatus) -> Seq<char> {
    spec_version_text(v) + " "@ + spec_status_text(s)
}

/// The version and status of a response's first line.
struct HttpResponseStatusLine {
    version: HttpVersion,
    status: HttpStatus,
}

impl HttpResponseStatusLine {
    fn new(version: HttpVersion, status: HttpStatus) -> (r: Self)
        ensures
            r.version == version,
            r.status == status,
    {
        Self { version, status }
    }

    fn to_string(&self) -> (r: String)
        ensures
            r@ == spec_status_line_text(self.version, self.status),
    {
        let mut line = String::from_str(self.version.text());
        line.append(" ");
        match self.status {
            HttpStatus::Okay => line.append("200 OK"),
            HttpStatus::NotFound => line.append("404 Not Found"),
        }
        proof {
            assert(line@ =~= spec_status_line_text(self.version, self.status));
        }
        line
    }
}

/// A response under construction: status line, header list, body text.
pub struct HttpResponse {
    status_line: HttpResponseStatusLine,
    headers: Vec<(String, String)>,
    content: String,
}

/// Ghost model of a response.
#[verifier::ext_equal]
pub struct ResponseView {
    pub version: HttpVersion,
    pub status: HttpStatus,
    pub headers: Seq<(Seq<char>, Seq<char>)>,
    pub content: Seq<char>,
}

impl View for HttpResponse {
    type V = ResponseView;

    closed spec fn view(&self) -> ResponseView {
        ResponseView {
            version: self.status_line.version,
            status: self.status_line.status,
            headers: spec_header_views(self.headers@),
            content: self.content@,
        }
    }
}

/// The byte length of a text: the length of its UTF-8 encoding, as it
/// fits a machine word.
pub open spec fn spec_byte_len(text: Seq<char>) -> nat {
    (encode_utf8(text).len() as usize) as nat
}

/// What [`HttpResponse::write_text`] does: append the two headers that
/// describe a plain-text body of that exact byte length, and set the
/// body, in one step, so the headers and the body never disagree.
pub open spec fn spec_write_text(r: ResponseView, text: Seq<char>) -> ResponseView {
    ResponseView {
        headers: r.headers + seq![
            ("Content-Type"@, "text/plain"@),
            ("Content-Length"@, spec_dec(spec_byte_len(text))),
        ],
        content: text,
        ..r
    }
}

/// The header block of the wire form: one `name: value` line per
/// header, in insertion order, each ended by CRLF.
pub open spec fn spec_headers_text(hs: Seq<(Seq<char>, Seq<char>)>) -> Seq<char>
    decreases hs.len(),
{
    if hs.len() == 0 {
        Seq::empty()
    } else {
        spec_headers_text(hs.drop_last()) + hs.last().0 + ": "@ + hs.last().1 + "\r\n"@
    }
}

/// The full wire form of a response: status line, CRLF, the header
/// block, one empty line, then the raw body with no trailing
/// terminator.
pub open spec fn spec_serialize(r: ResponseView) -> Seq<char> {
    spec_status_line_text(r.version, r.status) + "\r\n"@ + spec_headers_text(r.headers) + "\r\n"@
        + r.content
}

impl HttpResponse {
    /// A fresh response for one connection: the given version, status
    /// `Ok`, no headers, empty body.
    pub fn new(version: HttpVersion) -> (r: Self)
        ensures
            r@ == (ResponseView {
                version,
                status: HttpStatus::Okay,
                headers: Seq::empty(),
                content: Seq::empty(),
            }),
    {
        let r = Self {
            status_line: HttpResponseStatusLine::new(version, HttpStatus::Okay),
            content: String::new(),
            headers: Vec::new(),
        };
        proof {
            assert(r@ =~= (ResponseView {
                version,
                status: HttpStatus::Okay,
                headers: Seq::empty(),
                content: Seq::empty(),
            }));
        }
        r
    }

    /// Appends one header pair; nothing is deduplicated or overwritten.
    pub fn add_header(&mut self, header_name: &str, header_value: &str)
        ensures
            final(self)@ == (ResponseView {
                headers: old(self)@.headers.push((header_name@, header_value@)),
                ..old(self)@
            }),
    {
        self.headers.push((header_name.to_owned(), header_value.to_owned()));
        proof {
            assert(self@ =~= (ResponseView {
                headers: old(self)@.headers.push((header_name@, header_value@)),
                ..old(self)@
            }));
        }
    }

    /// Overwrites the status of the status line.
    pub fn set_status(&mut self, status: HttpStatus)
        ensures
            final(self)@ == (ResponseView { status, ..old(self)@ }),
    {
        self.status_line.status = status;
        proof {
            assert(self@ =~= (ResponseView { status, ..old(self)@ }));
        }
    }

    /// Replaces the body text, independent of any header: a caller on
    /// this path manages `Content-Length` itself.
    pub fn add_content(&mut self, content: &str)
        ensures
            final(self)@ == (ResponseView { content: content@, ..old(self)@ }),
    {
        self.content = content.to_owned();
        proof {
            assert(self@ =~= (ResponseView { content: content@, ..old(self)@ }));
        }
    }

    /// Sets a plain-text body together with the `Content-Type` and
    /// `Content-Length` headers that describe it, atomically.
    pub fn write_text(&mut self, text: &str)
        ensures
            final(self)@ == spec_write_text(old(self)@, text@),
    {
        self.add_header("Content-Type", "text/plain");
        let length = dec_string(text.len());
        self.add_header("Content-Length", length.as_str());
        self.add_content(text);
        proof {
            assert(self@ =~= spec_write_text(old(self)@, text@));
        }
    }

    /// Serializes the response to its wire form, as
    /// [`spec_serialize`] describes it.
    pub fn to_string(&self) -> (r: String)
        ensures
            r@ == spec_serialize(self@),
    {
        let mut out = self.status_line.to_string();
        out.append("\r\n");
        let ghost head = spec_status_line_text(self@.version, self@.status) + "\r\n"@;
        let n = self.headers.len();
        let mut i: usize = 0;
        proof {
            assert(spec_headers_text(self@.headers.take(0)) =~= Seq::<char>::empty());
            assert(out@ =~= head + spec_headers_text(self@.headers.take(0)));
        }
        while i < n
            invariant
                n == self.headers@.len(),
                0 <= i <= n,
                head == spec_status_line_text(self@.version, self@.status) + "\r\n"@,
                out@ == head + spec_headers_text(self@.headers.take(i as int)),
            decreases n - i,
        {
            let pair = &self.headers[i];
            out.append(pair.0.as_str());
            out.append(": ");
            out.append(pair.1.as_str());
            out.append("\r\n");
            proof {
                let hs = self@.headers;
                assert(hs.take(i + 1).drop_last() =~= hs.take(i as int));
                assert(hs.take(i + 1).last() == hs[i as int]);
                assert(out@ =~= head + spec_headers_text(hs.take(i + 1)));
            }
            i += 1;
        }
        out.append("\r\n");
        out.append(self.content.as_str());
        proof {
            assert(self@.headers.take(n as int) =~= self@.headers);
            assert(out@ =~= spec_serialize(self@));
        }
        out
    }
}

} // verus!
