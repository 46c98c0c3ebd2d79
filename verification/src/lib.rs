//! A minimal verified HTTP/1.x message layer.
//!
//! The crate turns a raw byte stream into a structured request (method,
//! target, version, headers) and a structured response back into wire
//! bytes.  Parsing is delimiter driven: a scanner reads bytes up to a
//! fixed byte sequence, and the request-line and header-block parsers
//! consume one such line at a time.  Every parse and serialization step
//! carries a contract that pins its result down exactly, over `Seq<u8>`
//! and `Seq<char>` models of the wire data.

pub mod errors;
pub mod source;
pub mod text;
pub mod version;
pub mod request;
pub mod response;
pub mod router;
