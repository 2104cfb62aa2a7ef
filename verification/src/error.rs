//! The unified local error type: transport failure, protocol-level failure
//! reported by the peer, and decode failure, kept apart and surfaced
//! verbatim.

use vstd::prelude::*;

use crate::message::JsonRpcError;

verus! {

/// Why a wire text was rejected by the decoder.
#[derive(Debug, Clone, Copy, PartialEq, Eq, Structural)]
pub enum DecodeError {
    /// The text is not a single well-formed JSON value.
    Syntax,
    /// The top-level value is not an object.
    NotObject,
    /// The `jsonrpc` member is missing or not a string.
    BadVersion,
    /// The `id` member is missing or neither an integer nor a string.
    BadId,
    /// Neither `result` nor `error` is present.
    NoPayload,
    /// Both `result` and `error` are present.
    BothPayloads,
    /// The `error` member is not an object with an integer `code` and a
    /// string `message`.
    BadErrorObject,
    /// The `method` member is missing or not a string.
    BadMethod,
    /// The `params` member is missing or not an array.
    BadParams,
}

/// What a call can fail with: the transport's own error, a protocol-level
/// error reported by the peer, or a local decode failure. Generic over the
/// transport's error representation, which this layer never inspects.
#[derive(Debug, PartialEq)]
pub enum Error<C> {
    Client(C),
    JsonRpc(JsonRpcError),
    Serde(DecodeError),
}

impl<C> From<JsonRpcError> for Error<C> {
    /// A protocol-level failure becomes the `JsonRpc` variant, unchanged.
    fn from(e: JsonRpcError) -> (r: Self) {
        Error::JsonRpc(e)
    }
}

impl<C> vstd::std_specs::convert::FromSpecImpl<JsonRpcError> for Error<C> {
    open spec fn obeys_from_spec() -> bool {
        true
    }

    open spec fn from_spec(e: JsonRpcError) -> Self {
        Error::JsonRpc(e)
    }
}

impl<C> From<DecodeError> for Error<C> {
    /// A decode failure becomes the `Serde` variant, unchanged.
    fn from(e: DecodeError) -> (r: Self) {
        Error::Serde(e)
    }
}

impl<C> vstd::std_specs::convert::FromSpecImpl<DecodeError> for Error<C> {
    open spec fn obeys_from_spec() -> bool {
        true
    }

    open spec fn from_spec(e: DecodeError) -> Self {
        Error::Serde(e)
    }
}


/// The one-line text each decode failure renders as.
pub open spec fn decode_error_text(e: DecodeError) -> Seq<char> {
    match e {
        DecodeError::Syntax => "response text is not well-formed JSON"@,
        DecodeError::NotObject => "response is not a JSON object"@,
        DecodeError::BadVersion => "jsonrpc member is missing or not a string"@,
        DecodeError::BadId => "id member is missing or neither an integer nor a string"@,
        DecodeError::NoPayload => "response carries neither result nor error"@,
        DecodeError::BothPayloads => "response carries both result and error"@,
        DecodeError::BadErrorObject => "error member is not a code/message object"@,
        DecodeError::BadMethod => "method member is missing or not a string"@,
        DecodeError::BadParams => "params member is missing or not an array"@,
    }
}

impl DecodeError {
    /// Renders the decode failure as its one-line description.
    pub fn render(&self) -> (out: String)
        ensures
            out@ == decode_error_text(*self),
    {
        match self {
            DecodeError::Syntax => String::from_str("response text is not well-formed JSON"),
            DecodeError::NotObject => String::from_str("response is not a JSON object"),
            DecodeError::BadVersion => String::from_str(
                "jsonrpc member is missing or not a string",
            ),
            DecodeError::BadId => String::from_str(
                "id member is missing or neither an integer nor a string",
            ),
            DecodeError::NoPayload => String::from_str(
                "response carries neither result nor error",
            ),
            DecodeError::BothPayloads => String::from_str(
                "response carries both result and error",
            ),
            DecodeError::BadErrorObject => String::from_str(
                "error member is not a code/message object",
            ),
            DecodeError::BadMethod => String::from_str("method member is missing or not a string"),
            DecodeError::BadParams => String::from_str("params member is missing or not an array"),
        }
    }
}

} // verus!
