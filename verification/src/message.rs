//! The JSON-RPC message shapes: request/response correlation ids, requests,
//! responses, the result-or-error payload, and the protocol-level error.

use vstd::prelude::*;

use crate::value::{Value, ValueV, value_rep};

verus! {

/// A request/response correlator: an integer or a string, echoed unchanged by
/// the peer. Equality is structural; uniqueness is the caller's business.
#[derive(Debug, Clone, PartialEq)]
pub enum Id {
    Number(i64),
    String(String),
}

/// The mathematical model of an [`Id`].
pub enum IdV {
    Number(i64),
    String(Seq<char>),
}

impl View for Id {
    type V = IdV;

    open spec fn view(&self) -> IdV {
        match self {
            Id::Number(n) => IdV::Number(*n),
            Id::String(s) => IdV::String(s@),
        }
    }
}

/// A protocol-level failure reported by the remote peer.
#[derive(Debug, PartialEq)]
pub struct JsonRpcError {
    pub code: i64,
    pub message: String,
}

/// The mathematical model of a [`JsonRpcError`].
pub struct JsonRpcErrorV {
    pub code: i64,
    pub message: Seq<char>,
}

impl View for JsonRpcError {
    type V = JsonRpcErrorV;

    open spec fn view(&self) -> JsonRpcErrorV {
        JsonRpcErrorV { code: self.code, message: self.message@ }
    }
}

/// The model of a sequence of values, element by element.
pub open spec fn seq_rep(s: Seq<Value>) -> Seq<ValueV> {
    Seq::new(s.len(), |i: int| value_rep(s[i]))
}

/// An outbound call: correlator, protocol version, method name and positional
/// arguments. Immutable once built.
#[derive(Debug, PartialEq)]
pub struct Request {
    pub id: Id,
    pub jsonrpc: String,
    pub method: String,
    pub params: Vec<Value>,
}

/// The mathematical model of a [`Request`].
pub struct RequestV {
    pub id: IdV,
    pub jsonrpc: Seq<char>,
    pub method: Seq<char>,
    pub params: Seq<ValueV>,
}

impl View for Request {
    type V = RequestV;

    open spec fn view(&self) -> RequestV {
        RequestV {
            id: self.id@,
            jsonrpc: self.jsonrpc@,
            method: self.method@,
            params: seq_rep(self.params@),
        }
    }
}

/// The result-or-error body of a response: exactly one of the two.
#[derive(Debug, PartialEq)]
pub enum ResponsePayload {
    Result(Value),
    Error(JsonRpcError),
}

/// The mathematical model of a [`ResponsePayload`].
pub enum ResponsePayloadV {
    Result(ValueV),
    Error(JsonRpcErrorV),
}

impl View for ResponsePayload {
    type V = ResponsePayloadV;

    open spec fn view(&self) -> ResponsePayloadV {
        match self {
            ResponsePayload::Result(v) => ResponsePayloadV::Result(v@),
            ResponsePayload::Error(e) => ResponsePayloadV::Error(e@),
        }
    }
}

/// An inbound reply: the echoed correlator, the protocol version, and the
/// result-or-error payload.
#[derive(Debug, PartialEq)]
pub struct Response {
    pub id: Id,
    pub jsonrpc: String,
    pub payload: ResponsePayload,
}

/// The mathematical model of a [`Response`].
pub struct ResponseV {
    pub id: IdV,
    pub jsonrpc: Seq<char>,
    pub payload: ResponsePayloadV,
}

impl View for Response {
    type V = ResponseV;

    open spec fn view(&self) -> ResponseV {
        ResponseV { id: self.id@, jsonrpc: self.jsonrpc@, payload: self.payload@ }
    }
}

impl Request {
    /// Builds a request with a caller-supplied correlator and protocol
    /// version string, for callers that correlate concurrent calls
    /// themselves.
    pub fn new(id: Id, jsonrpc: &str, method: &str, params: Vec<Value>) -> (r: Request)
        ensures
            r.id == id,
            r.jsonrpc@ == jsonrpc@,
            r.method@ == method@,
            r.params == params,
    {
        Request { id, jsonrpc: jsonrpc.to_owned(), method: method.to_owned(), params }
    }

    /// Builds a version-2.0 request with the default correlator `0`.
    ///
    /// No validation of the method name is done; empty `params` is valid.
    pub fn new_v2(method: &str, params: Vec<Value>) -> (r: Request)
        ensures
            r.id == Id::Number(0),
            r.jsonrpc@ == crate::V2@,
            r.method@ == method@,
            r.params == params,
    {
        Request {
            id: Id::Number(0),
            jsonrpc: String::from_str(crate::V2),
            method: method.to_owned(),
            params,
        }
    }
}

impl Response {
    /// Builds a version-2.0 response carrying a successful result.
    pub fn new_v2_result(id: Id, result: Value) -> (r: Response)
        ensures
            r.id == id,
            r.jsonrpc@ == crate::V2@,
            r.payload == ResponsePayload::Result(result),
    {
        Response {
            id,
            jsonrpc: String::from_str(crate::V2),
            payload: ResponsePayload::Result(result),
        }
    }

    /// Builds a version-2.0 response carrying a protocol-level error.
    pub fn new_v2_error(id: Id, error: JsonRpcError) -> (r: Response)
        ensures
            r.id == id,
            r.jsonrpc@ == crate::V2@,
            r.payload == ResponsePayload::Error(error),
    {
        Response {
            id,
            jsonrpc: String::from_str(crate::V2),
            payload: ResponsePayload::Error(error),
        }
    }
}

impl From<ResponsePayload> for Result<Value, JsonRpcError> {
    /// The same success-or-failure split as [`ResponsePayload::into_result`].
    fn from(payload: ResponsePayload) -> (r: Self) {
        payload.into_result()
    }
}

impl vstd::std_specs::convert::FromSpecImpl<ResponsePayload> for Result<Value, JsonRpcError> {
    open spec fn obeys_from_spec() -> bool {
        true
    }

    open spec fn from_spec(payload: ResponsePayload) -> Self {
        match payload {
            ResponsePayload::Result(v) => Ok(v),
            ResponsePayload::Error(e) => Err(e),
        }
    }
}

impl ResponsePayload {
    /// Splits the payload into the standard success-or-failure shape: a
    /// `Result` payload maps to `Ok` with the carried value, an `Error`
    /// payload to `Err` with the carried protocol error. Total: every payload
    /// maps to exactly one of the two.
    pub fn into_result(self) -> (r: Result<Value, JsonRpcError>)
        ensures
            self is Result <==> r is Ok,
            self is Error <==> r is Err,
            self matches ResponsePayload::Result(v) ==> r == Ok::<Value, JsonRpcError>(v),
            self matches ResponsePayload::Error(e) ==> r == Err::<Value, JsonRpcError>(e),
    {
        match self {
            ResponsePayload::Result(v) => Ok(v),
            ResponsePayload::Error(e) => Err(e),
        }
    }
}

} // verus!
