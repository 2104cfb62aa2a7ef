use jsonrpc_client::client::{call, unwrap_outcome, SendRequest};
use jsonrpc_client::error::Error;
use jsonrpc_client::message::{Id, JsonRpcError, Request, Response};
use jsonrpc_client::value::Value;

struct RefusingTransport;

impl SendRequest for RefusingTransport {
    type Error = String;

    fn send_request(&self, _request: Request) -> Result<Response, String> {
        Err("connection refused".to_owned())
    }
}

struct ErrorReportingTransport;

impl SendRequest for ErrorReportingTransport {
    type Error = String;

    fn send_request(&self, request: Request) -> Result<Response, String> {
        Ok(Response::new_v2_error(
            request.id,
            JsonRpcError {
                code: -32601,
                message: "Method not found".to_owned(),
            },
        ))
    }
}

struct AnsweringTransport;

impl SendRequest for AnsweringTransport {
    type Error = String;

    fn send_request(&self, request: Request) -> Result<Response, String> {
        Ok(Response::new_v2_result(request.id, Value::Int(19)))
    }
}

#[test]
fn transport_failure_yields_client_error() {
    let outcome = call(&RefusingTransport, "subtract", vec![Value::Int(1)]);

    assert_eq!(
        outcome,
        Err(Error::Client("connection refused".to_owned()))
    );
}

#[test]
fn error_payload_yields_jsonrpc_error() {
    let outcome = call(&ErrorReportingTransport, "subtract", vec![Value::Int(1)]);

    assert_eq!(
        outcome,
        Err(Error::JsonRpc(JsonRpcError {
            code: -32601,
            message: "Method not found".to_owned()
        }))
    );
}

#[test]
fn result_payload_yields_value() {
    let outcome = call(&AnsweringTransport, "subtract", vec![Value::Int(42), Value::Int(23)]);

    assert_eq!(outcome, Ok(Value::Int(19)));
}

#[test]
fn unwrap_outcome_discriminates() {
    let client: Result<Value, Error<String>> = unwrap_outcome(Err("timed out".to_owned()));
    assert_eq!(client, Err(Error::Client("timed out".to_owned())));

    let ok: Result<Value, Error<String>> = unwrap_outcome(Ok(Response::new_v2_result(
        Id::Number(7),
        Value::Str("done".to_owned()),
    )));
    assert_eq!(ok, Ok(Value::Str("done".to_owned())));

    let rpc: Result<Value, Error<String>> = unwrap_outcome(Ok(Response::new_v2_error(
        Id::Number(7),
        JsonRpcError {
            code: 3,
            message: "busy".to_owned(),
        },
    )));
    assert_eq!(
        rpc,
        Err(Error::JsonRpc(JsonRpcError {
            code: 3,
            message: "busy".to_owned()
        }))
    );
}
