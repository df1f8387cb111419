//! A synchronous request/reply dispatcher exposing a fixed catalogue of
//! cryptographic primitives to a caller that can only exchange opaque binary
//! messages.
//!
//! Requests arrive as bytes in a tag-length-value wire format, are routed by a
//! numeric function code to a primitive of the `nacl` crate, and every outcome
//! (final result, interim progress, or failure) is re-encoded into one of
//! three mutually exclusive reply shapes.

pub mod wire;
pub mod schema;
pub mod roundtrip;
pub mod codec;
pub mod provider;
pub mod dispatch;
