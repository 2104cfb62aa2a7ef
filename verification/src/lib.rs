//! A typed client-side binding for the JSON-RPC request/response protocol
//! (versions 1.0 and 2.0).
//!
//! The crate defines the wire message shapes (`Request`, `Response`, `Id`,
//! `ResponsePayload`, `JsonRpcError`), a verified JSON codec for them, a
//! unified error type over transport, protocol and decode failures, and a
//! transport capability (`SendRequest`) together with the generic call
//! mechanics that drive a request through a transport and discriminate the
//! outcome.

pub mod client;
pub mod codec;
pub mod decode;
pub mod error;
pub mod laws;
pub mod message;
pub mod value;

use vstd::prelude::*;

verus! {

/// The recognized protocol version string for JSON-RPC 1.0.
pub const V1: &'static str = "1.0";

/// The recognized protocol version string for JSON-RPC 2.0.
pub const V2: &'static str = "2.0";

} // verus!
