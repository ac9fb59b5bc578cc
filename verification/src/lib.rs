//! A verified decoder for the MessagePack binary serialization format.
//!
//! Given a byte source positioned at the start of an encoded value, the
//! functions in [`decode`] recognize the one-byte format marker and extract
//! the typed payload that follows, validating it against the format
//! specification. Two kinds of byte source exist: streaming sources, which
//! yield owned copies of payload bytes, and the in-memory [`bytes::Bytes`]
//! slice source, which yields zero-copy views of string payloads.

pub mod bytes;
pub mod decode;
pub mod errors;
pub mod marker;
pub mod num;
pub mod source;

pub use marker::Marker;
