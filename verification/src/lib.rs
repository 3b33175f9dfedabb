//! A bridge between the two wire encodings of gRPC: native gRPC
//! (binary framing, status in HTTP/2 trailers) and gRPC-Web (status
//! carried as an in-body trailer frame, optional base64 text
//! transport, CORS pre-flight negotiation for browsers).
//!
//! The crate verifies the pure core of that bridge: the length-prefixed
//! frame codec with its streaming decoder, the base64 text envelope
//! with cross-chunk carry buffers, the header and trailer mapping, the
//! CORS pre-flight policy, and the per-call state machines of the
//! server and client adapters. Transport plumbing stays outside and
//! hands the library plain bytes and header lists.

use vstd::prelude::*;

pub mod bytes;
pub mod client;
pub mod cors;
pub mod frame;
pub mod headers;
pub mod server;
pub mod text;

verus! {

/// The ways a call can fail inside the bridge itself, as opposed to
/// failing in the inner handler or on the wire.
#[derive(Clone, Copy, Debug, PartialEq, Eq, Structural)]
pub enum AdapterError {
    /// A frame flag byte with reserved bits set, or a malformed
    /// trailer block or base64 group.
    Framing,
    /// A frame declared a payload length above the configured maximum.
    MessageTooLarge,
    /// The response stream ended before any trailer frame arrived.
    MissingTrailer,
    /// A request carried a content type the bridge does not speak.
    UnsupportedContentType,
}

} // verus!
