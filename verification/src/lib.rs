//! The raw HTTP(S) request/response engine of a small command-line web
//! client: URL normalization and target derivation, wire-format request
//! serialization, response decoding (status line, bounded header list, body
//! boundary), content classification, and redirect chasing with loop
//! protection. Every decision the engine makes is specified and verified;
//! the sockets, the TLS handshake, HTML text extraction and the on-disk
//! cache live outside, in the surrounding application.

pub mod builder;
pub mod classify;
pub mod decode;
pub mod errors;
pub mod redirect;
pub mod request;
pub mod response;
pub mod strutil;
pub mod target;
