//! The transport capability and the generic call mechanics: build a request,
//! hand it to a transport, and discriminate the outcome.

use vstd::prelude::*;

use crate::error::Error;
use crate::message::{Id, Request, Response, ResponsePayload};
use crate::value::Value;

verus! {

/// The one capability a transport must offer: deliver a request and hand
/// back the peer's response, or fail with the transport's own error type.
/// This layer never inspects, retries or suppresses that error.
pub trait SendRequest {
    type Error;

    fn send_request(&self, request: Request) -> Result<Response, Self::Error>;
}

/// Turns a transport outcome into the caller's result: a transport failure
/// becomes a `Client` error untouched and no response is looked at; a
/// response with an `Error` payload becomes a `JsonRpc` error; a response
/// with a `Result` payload becomes the carried value.
pub fn unwrap_outcome<E>(outcome: Result<Response, E>) -> (r: Result<Value, Error<E>>)
    ensures
        (match outcome {
            Err(e) => r == Err::<Value, Error<E>>(Error::Client(e)),
            Ok(resp) => match resp.payload {
                ResponsePayload::Result(v) => r == Ok::<Value, Error<E>>(v),
                ResponsePayload::Error(je) => r == Err::<Value, Error<E>>(Error::JsonRpc(je)),
            },
        }),
        r is Ok <==> (outcome matches Ok(resp) && resp.payload is Result),
{
    match outcome {
        Err(e) => Err(Error::Client(e)),
        Ok(resp) => match resp.payload {
            ResponsePayload::Result(v) => Ok(v),
            ResponsePayload::Error(je) => Err(Error::JsonRpc(je)),
        },
    }
}

/// One typed call: builds a version-2.0 request with the default correlator,
/// drives it through the transport, and discriminates the outcome as
/// [`unwrap_outcome`] says. No decoding happens here, so a `Serde` error
/// never comes out of this function.
pub fn call<T: SendRequest>(transport: &T, method: &str, params: Vec<Value>) -> (r: Result<
    Value,
    Error<T::Error>,
>)
    ensures
        !(r matches Err(Error::Serde(_))),
{
    let request = Request::new_v2(method, params);
    let outcome = transport.send_request(request);
    unwrap_outcome(outcome)
}

/// One typed call with a caller-chosen correlator and protocol version
/// string, for callers that correlate concurrent calls themselves.
pub fn call_with_id<T: SendRequest>(
    transport: &T,
    id: Id,
    jsonrpc: &str,
    method: &str,
    params: Vec<Value>,
) -> (r: Result<Value, Error<T::Error>>)
    ensures
        !(r matches Err(Error::Serde(_))),
{
    let request = Request::new(id, jsonrpc, method, params);
    let outcome = transport.send_request(request);
    unwrap_outcome(outcome)
}

} // verus!
