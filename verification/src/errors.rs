//! The error taxonomy of the message layer.

use vstd::prelude::*;

verus! {

/// Ghost-level mirror of [`HttpError`]: token payloads are character
/// sequences, so spec functions can name the exact failure an input causes.
pub enum HttpErrorView {
    UnknownMethod(Seq<char>),
    UnknownHttpVersion(Seq<char>),
    MalformedLine,
    UnterminatedStream,
    Utf8DecodeFailure,
    IoFailure,
}

/// A failure while parsing one request.
///
/// Every parse-level failure propagates up through the parsing chain
/// unchanged: there is no partial request.  The token-carrying variants
/// hold the exact offending substring.
#[derive(Debug)]
pub enum HttpError {
    /// The request line's method token is outside the method vocabulary.
    UnknownMethod(String),
    /// The request line's version token is outside the version vocabulary.
    UnknownHttpVersion(String),
    /// A line is missing a required token or separator.
    MalformedLine,
    /// The input ended before the delimiter was ever matched.
    UnterminatedStream,
    /// A line or token is not valid UTF-8.
    Utf8DecodeFailure,
    /// The byte source itself failed.  The parsers never produce this
    /// variant; it is for callers that feed the parsers from a fallible
    /// transport.
    IoFailure,
}

impl View for HttpError {
    type V = HttpErrorView;

    open spec fn view(&self) -> HttpErrorView {
        match self {
            HttpError::UnknownMethod(t) => HttpErrorView::UnknownMethod(t@),
            HttpError::UnknownHttpVersion(t) => HttpErrorView::UnknownHttpVersion(t@),
            HttpError::MalformedLine => HttpErrorView::MalformedLine,
            HttpError::UnterminatedStream => HttpErrorView::UnterminatedStream,
            HttpError::Utf8DecodeFailure => HttpErrorView::Utf8DecodeFailure,
            HttpError::IoFailure => HttpErrorView::IoFailure,
        }
    }
}

impl HttpError {
    /// A short description of the failure, for diagnostics.
    pub fn message(&self) -> (r: &'static str)
        ensures
            r@ == self.spec_message(),
    {
        match self {
            HttpError::UnknownMethod(_) => "unknown HTTP method",
            HttpError::UnknownHttpVersion(_) => "unknown HTTP version",
            HttpError::MalformedLine => "malformed line",
            HttpError::UnterminatedStream => "no delimiter found before end of stream",
            HttpError::Utf8DecodeFailure => "invalid UTF-8",
            HttpError::IoFailure => "I/O failure",
        }
    }

    /// What [`Self::message`] returns for each variant.
    pub open spec fn spec_message(&self) -> Seq<char> {
        match self {
            HttpError::UnknownMethod(_) => "unknown HTTP method"@,
            HttpError::UnknownHttpVersion(_) => "unknown HTTP version"@,
            HttpError::MalformedLine => "malformed line"@,
            HttpError::UnterminatedStream => "no delimiter found before end of stream"@,
            HttpError::Utf8DecodeFailure => "invalid UTF-8"@,
            HttpError::IoFailure => "I/O failure"@,
        }
    }
}

} // verus!
