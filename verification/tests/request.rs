use sweep::json::{JsonNumber, JsonValue};
use sweep::request::{rpc_call, RPCError, RPCRequest};
use sweep::rpc::RPCErrorKind;

fn text_value(s: &str) -> JsonValue {
    JsonValue::String(s.to_string())
}

fn object(entries: Vec<(&str, JsonValue)>) -> JsonValue {
    JsonValue::Object(entries.into_iter().map(|(k, v)| (k.to_string(), v)).collect())
}

fn request_error(value: JsonValue) -> (JsonValue, Option<JsonValue>) {
    match RPCRequest::from_value(value) {
        Ok(_) => panic!("request accepted"),
        Err(error) => {
            assert!(matches!(error.kind, RPCErrorKind::InvalidRequest));
            (error.id, error.data)
        }
    }
}

#[test]
fn request_from_value_accepts() {
    let request = RPCRequest::from_value(object(vec![
        ("jsonrpc", text_value("2.0")),
        ("method", text_value("items_extend")),
        ("params", JsonValue::Array(vec![JsonValue::Bool(true)])),
        ("id", JsonValue::Number(JsonNumber::PosInt(4))),
    ]))
    .ok()
    .unwrap();
    assert_eq!(request.method, "items_extend");
    assert_eq!(request.params, JsonValue::Array(vec![JsonValue::Bool(true)]));
    assert_eq!(request.id, Some(JsonValue::Number(JsonNumber::PosInt(4))));

    let request = RPCRequest::from_value(object(vec![
        ("method", text_value("quit")),
        ("jsonrpc", text_value("2.0")),
    ]))
    .ok()
    .unwrap();
    assert_eq!(request.params, JsonValue::Null);
    assert_eq!(request.id, None);
}

#[test]
fn request_from_value_rejects() {
    assert_eq!(
        request_error(JsonValue::Null),
        (JsonValue::Null, Some(text_value("Request can only be an Object")))
    );
    assert_eq!(
        request_error(object(vec![("id", JsonValue::Bool(true)), ("jsonrpc", text_value("2.0"))])),
        (JsonValue::Null, Some(text_value("Request id can only be String, Number of Null")))
    );
    assert_eq!(
        request_error(object(vec![("id", text_value("a")), ("jsonrpc", text_value("1.0"))])),
        (text_value("a"), Some(text_value("Unsupported protocol version: 1.0")))
    );
    assert_eq!(
        request_error(object(vec![("method", text_value("m"))])),
        (JsonValue::Null, Some(text_value("Protocol version must be provided and be a string")))
    );
    assert_eq!(
        request_error(object(vec![
            ("jsonrpc", text_value("2.0")),
            ("method", JsonValue::Number(JsonNumber::PosInt(1))),
            ("id", JsonValue::Null),
        ])),
        (JsonValue::Null, Some(text_value("Method must be provided and be a string")))
    );
}

#[test]
fn request_responses() {
    let request = |id: Option<JsonValue>| RPCRequest {
        method: "m".to_string(),
        params: JsonValue::Null,
        id,
    };
    assert_eq!(request(None).response_ok(JsonValue::Bool(true)), None);
    assert_eq!(
        request(Some(JsonValue::Number(JsonNumber::PosInt(1)))).response_ok(JsonValue::Bool(true)),
        Some(object(vec![
            ("id", JsonValue::Number(JsonNumber::PosInt(1))),
            ("jsonrpc", text_value("2.0")),
            ("result", JsonValue::Bool(true)),
        ]))
    );
    assert_eq!(
        request(Some(text_value("x"))).response_err(RPCErrorKind::MethodNotFound, None),
        object(vec![
            (
                "error",
                object(vec![
                    ("code", JsonValue::Number(JsonNumber::NegInt(-32601))),
                    ("message", text_value("Method not found")),
                ])
            ),
            ("id", text_value("x")),
            ("jsonrpc", text_value("2.0")),
        ])
    );
    let error = RPCError::new_other(7, "seven".to_string(), None, Some(text_value("d")));
    assert_eq!(
        error.into_value(),
        object(vec![
            (
                "error",
                object(vec![
                    ("code", JsonValue::Number(JsonNumber::PosInt(7))),
                    ("data", text_value("d")),
                    ("message", text_value("seven")),
                ])
            ),
            ("id", JsonValue::Null),
            ("jsonrpc", text_value("2.0")),
        ])
    );
    assert_eq!(
        rpc_call("select", JsonValue::Null),
        object(vec![
            ("jsonrpc", text_value("2.0")),
            ("method", text_value("select")),
            ("params", JsonValue::Null),
        ])
    );
}

#[test]
fn request_call_reads_back() {
    let params = JsonValue::Array(vec![JsonValue::Number(JsonNumber::PosInt(3))]);
    let request = RPCRequest::from_value(rpc_call("items_extend", params)).ok().unwrap();
    assert_eq!(request.method, "items_extend");
    assert_eq!(request.params, JsonValue::Array(vec![JsonValue::Number(JsonNumber::PosInt(3))]));
    assert_eq!(request.id, None);
}
