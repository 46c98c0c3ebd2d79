//! The protocol version vocabulary.

use vstd::prelude::*;
use crate::errors::{HttpError, HttpErrorView};
use crate::text::str_eq;

verus! {

/// The closed set of recognized protocol versions.
///
/// A version token outside this set fails to parse; the version of a
/// parsed request is echoed back unchanged in the response.
#[derive(Clone, Copy, PartialEq, Eq, Structural, Debug)]
pub enum HttpVersion {
    Http1_0,
    Http1_1,
    Http2_0,
}

/// The exact wire token of each version.
pub open spec fn spec_version_text(v: HttpVersion) -> Seq<char> {
    match v {
        HttpVersion::Http1_0 => "HTTP/1.0"@,
        HttpVersion::Http1_1 => "HTTP/1.1"@,
        HttpVersion::Http2_0 => "HTTP/2.0"@,
    }
}

/// The version a token denotes, or `None` when the token is outside the
/// vocabulary.
pub open spec fn spec_version_of(s: Seq<char>) -> Option<HttpVersion> {
    if s == "HTTP/1.0"@ {
        Some(HttpVersion::Http1_0)
    } else if s == "HTTP/1.1"@ {
        Some(HttpVersion::Http1_1)
    } else if s == "HTTP/2.0"@ {
        Some(HttpVersion::Http2_0)
    } else {
        None
    }
}

/// Each version's wire token parses back to that version.
pub proof fn lemma_version_text_of(v: HttpVersion)
    ensures
        spec_version_of(spec_version_text(v)) == Some(v),
{
    reveal_strlit("HTTP/1.0");
    reveal_strlit("HTTP/1.1");
    reveal_strlit("HTTP/2.0");
    assert("HTTP/1.0"@[7] == '0' && "HTTP/1.1"@[7] == '1');
    assert("HTTP/2.0"@[5] == '2' && "HTTP/1.0"@[5] == '1' && "HTTP/1.1"@[5] == '1');
}

impl HttpVersion {
    /// Parses a version token by exact match against the vocabulary;
    /// any other token fails with the offending string.
    pub fn from_str(s: &str) -> (r: Result<HttpVersion, HttpError>)
        ensures
            match spec_version_of(s@) {
                Some(v) => r matches Ok(rv) && rv == v,
                None => r matches Err(e) && e@ == HttpErrorView::UnknownHttpVersion(s@),
            },
    {
        if str_eq(s, "HTTP/1.0") {
            Ok(HttpVersion::Http1_0)
        } else if str_eq(s, "HTTP/1.1") {
            Ok(HttpVersion::Http1_1)
        } else if str_eq(s, "HTTP/2.0") {
            Ok(HttpVersion::Http2_0)
        } else {
            Err(HttpError::UnknownHttpVersion(s.to_owned()))
        }
    }

    /// The wire token of this version.
    pub fn text(&self) -> (r: &'static str)
        ensures
            r@ == spec_version_text(*self),
    {
        match self {
            HttpVersion::Http1_0 => "HTTP/1.0",
            HttpVersion::Http1_1 => "HTTP/1.1",
            HttpVersion::Http2_0 => "HTTP/2.0",
        }
    }
}

} // verus!
