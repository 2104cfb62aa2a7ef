use jsonrpc_client::decode::{decode_request, decode_response};
use jsonrpc_client::codec::encode_request;
use jsonrpc_client::error::DecodeError;
use jsonrpc_client::message::{Id, JsonRpcError, Request, Response, ResponsePayload};
use jsonrpc_client::value::Value;

#[test]
fn deserialize_error_response() {
    let json = r#"{"jsonrpc": "2.0", "error": {"code": -32601, "message": "Method not found"}, "id": "1"}"#;

    let response = decode_response(json).unwrap();

    assert_eq!(
        response,
        Response::new_v2_error(
            Id::String("1".to_owned()),
            JsonRpcError {
                code: -32601,
                message: "Method not found".to_owned()
            }
        )
    )
}

#[test]
fn deserialize_success_response() {
    let json = r#"{"jsonrpc": "2.0", "result": 19, "id": 1}"#;

    let response = decode_response(json).unwrap();

    assert_eq!(response, Response::new_v2_result(Id::Number(1), Value::Int(19)))
}

#[test]
fn serialize_request() {
    let request = Request::new_v2("subtract", vec![Value::Int(42), Value::Int(23)]);

    let json = encode_request(&request);

    assert_eq!(
        json,
        r#"{"id":0,"jsonrpc":"2.0","method":"subtract","params":[42,23]}"#
    )
}

#[test]
fn request_round_trip_nested_params() {
    let request = Request::new_v2(
        "mixed",
        vec![
            Value::Null,
            Value::Bool(true),
            Value::Bool(false),
            Value::Int(-7),
            Value::Str("a \"quoted\"\\\n\tpath".to_owned()),
            Value::Arr(vec![Value::Int(1), Value::Arr(vec![])]),
            Value::Obj(vec![
                ("k".to_owned(), Value::Int(0)),
                ("k".to_owned(), Value::Str("dup".to_owned())),
            ]),
        ],
    );

    let decoded = decode_request(&encode_request(&request)).unwrap();

    assert_eq!(decoded, request);
}

#[test]
fn request_round_trip_extreme_integers() {
    let request = Request::new_v2(
        "extremes",
        vec![Value::Int(i64::MIN), Value::Int(i64::MAX), Value::Int(0)],
    );

    let json = encode_request(&request);

    assert_eq!(
        json,
        r#"{"id":0,"jsonrpc":"2.0","method":"extremes","params":[-9223372036854775808,9223372036854775807,0]}"#
    );
    assert_eq!(decode_request(&json).unwrap(), request);
}

#[test]
fn request_round_trip_string_id() {
    let request = Request {
        id: Id::String("corr-9".to_owned()),
        jsonrpc: "2.0".to_owned(),
        method: "probe".to_owned(),
        params: vec![],
    };

    let decoded = decode_request(&encode_request(&request)).unwrap();

    assert_eq!(decoded, request);
}

#[test]
fn id_fidelity_numeric_vs_string() {
    let numeric = decode_response(r#"{"jsonrpc":"2.0","result":0,"id":1}"#).unwrap();
    let stringy = decode_response(r#"{"jsonrpc":"2.0","result":0,"id":"1"}"#).unwrap();

    assert_eq!(numeric.id, Id::Number(1));
    assert_eq!(stringy.id, Id::String("1".to_owned()));
    assert_ne!(numeric.id, stringy.id);
}

#[test]
fn payload_conversion_is_total() {
    let ok: Result<Value, JsonRpcError> = ResponsePayload::Result(Value::Int(3)).into_result();
    assert_eq!(ok.unwrap(), Value::Int(3));

    let err: Result<Value, JsonRpcError> = ResponsePayload::Error(JsonRpcError {
        code: 5,
        message: "boom".to_owned(),
    })
    .into_result();
    assert_eq!(
        err.unwrap_err(),
        JsonRpcError {
            code: 5,
            message: "boom".to_owned()
        }
    );
}

#[test]
fn both_payloads_fail_decoding() {
    let json = r#"{"jsonrpc":"2.0","result":1,"error":{"code":1,"message":"x"},"id":1}"#;
    assert_eq!(decode_response(json), Err(DecodeError::BothPayloads));
}

#[test]
fn neither_payload_fails_decoding() {
    let json = r#"{"jsonrpc":"2.0","id":1}"#;
    assert_eq!(decode_response(json), Err(DecodeError::NoPayload));
}

#[test]
fn decode_error_variants() {
    assert_eq!(decode_response("{"), Err(DecodeError::Syntax));
    assert_eq!(decode_response("17"), Err(DecodeError::NotObject));
    assert_eq!(
        decode_response(r#"{"result":1,"id":1}"#),
        Err(DecodeError::BadVersion)
    );
    assert_eq!(
        decode_response(r#"{"jsonrpc":2,"result":1,"id":1}"#),
        Err(DecodeError::BadVersion)
    );
    assert_eq!(
        decode_response(r#"{"jsonrpc":"2.0","result":1}"#),
        Err(DecodeError::BadId)
    );
    assert_eq!(
        decode_response(r#"{"jsonrpc":"2.0","result":1,"id":null}"#),
        Err(DecodeError::BadId)
    );
    assert_eq!(
        decode_response(r#"{"jsonrpc":"2.0","error":7,"id":1}"#),
        Err(DecodeError::BadErrorObject)
    );
    assert_eq!(
        decode_response(r#"{"jsonrpc":"2.0","error":{"code":"x","message":"y"},"id":1}"#),
        Err(DecodeError::BadErrorObject)
    );
    assert_eq!(
        decode_request(r#"{"jsonrpc":"2.0","id":1,"params":[]}"#),
        Err(DecodeError::BadMethod)
    );
    assert_eq!(
        decode_request(r#"{"jsonrpc":"2.0","id":1,"method":"m","params":3}"#),
        Err(DecodeError::BadParams)
    );
}

#[test]
fn fractional_and_oversized_numbers_are_rejected() {
    assert_eq!(
        decode_response(r#"{"jsonrpc":"2.0","result":1.5,"id":1}"#),
        Err(DecodeError::Syntax)
    );
    assert_eq!(
        decode_response(r#"{"jsonrpc":"2.0","result":1e3,"id":1}"#),
        Err(DecodeError::Syntax)
    );
    assert_eq!(
        decode_response(r#"{"jsonrpc":"2.0","result":99999999999999999999,"id":1}"#),
        Err(DecodeError::Syntax)
    );
}

#[test]
fn member_order_and_whitespace_are_insignificant() {
    let json = " {\n\t\"id\": 4 ,\r\n \"result\" : [ 1 , 2 ] , \"jsonrpc\" : \"2.0\" } ";
    let response = decode_response(json).unwrap();

    assert_eq!(
        response,
        Response::new_v2_result(Id::Number(4), Value::Arr(vec![Value::Int(1), Value::Int(2)]))
    );
}

#[test]
fn unknown_members_are_ignored() {
    let json = r#"{"jsonrpc":"2.0","extra":{"deep":[null]},"result":true,"id":0}"#;
    let response = decode_response(json).unwrap();

    assert_eq!(response, Response::new_v2_result(Id::Number(0), Value::Bool(true)));
}

#[test]
fn string_escapes_decode() {
    let json = r#"{"jsonrpc":"2.0","result":"a\"b\\c\/d\n\r\t\b\f","id":1}"#;
    let response = decode_response(json).unwrap();

    assert_eq!(
        response,
        Response::new_v2_result(
            Id::Number(1),
            Value::Str("a\"b\\c/d\n\r\t\u{0008}\u{000C}".to_owned())
        )
    );
}

#[test]
fn error_renders_as_one_line() {
    let error = JsonRpcError {
        code: -32601,
        message: "Method not found".to_owned(),
    };

    assert_eq!(
        error.render(),
        "JSON-RPC request failed with code -32601: Method not found"
    );
}

#[test]
fn value_accessors() {
    assert_eq!(Value::Int(5).as_int(), Some(5));
    assert_eq!(Value::Bool(true).as_int(), None);
    assert_eq!(Value::Bool(false).as_bool(), Some(false));
    assert_eq!(Value::Str("x".to_owned()).as_str(), Some(&"x".to_owned()));
    assert_eq!(Value::Int(0).as_str(), None);
    assert!(Value::Null.is_null());
    assert!(!Value::Int(0).is_null());
}

#[test]
fn decode_error_renders_as_one_line() {
    assert_eq!(
        DecodeError::BothPayloads.render(),
        "response carries both result and error"
    );
    assert_eq!(
        DecodeError::Syntax.render(),
        "response text is not well-formed JSON"
    );
}

#[test]
fn payload_conversion_through_from() {
    let converted: Result<Value, JsonRpcError> =
        ResponsePayload::Result(Value::Int(8)).into();
    assert_eq!(converted, Ok(Value::Int(8)));
}

#[test]
fn value_text_round_trip() {
    let value = Value::Obj(vec![
        ("a".to_owned(), Value::Arr(vec![Value::Null, Value::Int(-1)])),
        ("b".to_owned(), Value::Str("x\ty".to_owned())),
    ]);

    let json = jsonrpc_client::codec::encode_json_text(&value);

    assert_eq!(json, "{\"a\":[null,-1],\"b\":\"x\\ty\"}");
    assert_eq!(jsonrpc_client::decode::parse_json_text(&json), Some(value));
}
