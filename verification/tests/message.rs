use sweep::json::{JsonNumber, JsonValue};
use sweep::message::{
    ErrorParts, MessageError, MessageField, RpcMessage, RpcParams, RpcRequest,
    RpcResponse,
};
use sweep::rpc::{RpcError, RpcErrorKind, RpcId};

fn json_of_serde(value: serde_json::Value) -> JsonValue {
    match value {
        serde_json::Value::Null => JsonValue::Null,
        serde_json::Value::Bool(b) => JsonValue::Bool(b),
        serde_json::Value::Number(n) => {
            if let Some(u) = n.as_u64() {
                JsonValue::Number(JsonNumber::PosInt(u))
            } else if let Some(i) = n.as_i64() {
                JsonValue::Number(JsonNumber::NegInt(i))
            } else {
                JsonValue::Number(JsonNumber::Float(n.to_string()))
            }
        }
        serde_json::Value::String(s) => JsonValue::String(s),
        serde_json::Value::Array(items) => {
            JsonValue::Array(items.into_iter().map(json_of_serde).collect())
        }
        serde_json::Value::Object(map) => JsonValue::Object(
            map.into_iter().map(|(k, v)| (k, json_of_serde(v))).collect(),
        ),
    }
}

fn json_text(value: &JsonValue) -> String {
    match value {
        JsonValue::Null => "null".to_string(),
        JsonValue::Bool(b) => b.to_string(),
        JsonValue::Number(JsonNumber::PosInt(u)) => u.to_string(),
        JsonValue::Number(JsonNumber::NegInt(i)) => i.to_string(),
        JsonValue::Number(JsonNumber::Float(t)) => t.clone(),
        JsonValue::String(s) => serde_json::to_string(s).unwrap(),
        JsonValue::Array(items) => {
            let parts: Vec<String> = items.iter().map(json_text).collect();
            format!("[{}]", parts.join(","))
        }
        JsonValue::Object(entries) => {
            let parts: Vec<String> = entries
                .iter()
                .map(|(k, v)| format!("{}:{}", serde_json::to_string(k).unwrap(), json_text(v)))
                .collect();
            format!("{{{}}}", parts.join(","))
        }
    }
}

fn parse_json(text: &str) -> JsonValue {
    json_of_serde(serde_json::from_str(text).unwrap())
}

fn value_result() -> Result<JsonValue, RpcError> {
    Ok(JsonValue::String("value".to_string()))
}

#[test]
fn test_rpc_serde() {
    // response
    let response = RpcResponse { result: value_result(), id: RpcId::Int(3) };
    let expected = "{\"jsonrpc\":\"2.0\",\"result\":\"value\",\"id\":3}";
    assert_eq!(RpcResponse::from_json(parse_json(expected)), Ok(response));
    let response = RpcResponse { result: value_result(), id: RpcId::Int(3) };
    assert_eq!(expected, json_text(&response.into_json()));

    let response = RpcResponse { result: value_result(), id: RpcId::Null };
    let expected = "{\"jsonrpc\":\"2.0\",\"result\":\"value\"}";
    assert_eq!(expected, json_text(&response.into_json()));
    let response = RpcResponse { result: value_result(), id: RpcId::Null };
    assert_eq!(RpcResponse::from_json(parse_json(expected)), Ok(response));

    let invalid = || RpcError::with_data(RpcErrorKind::InvalidRequest, String::new());
    let response = RpcResponse { result: Err(invalid()), id: RpcId::Null };
    let expected =
        "{\"jsonrpc\":\"2.0\",\"error\":{\"code\":-32600,\"message\":\"Invalid request\"}}";
    assert_eq!(RpcResponse::from_json(parse_json(expected)), Ok(response));
    let response = RpcResponse { result: Err(invalid()), id: RpcId::Null };
    assert_eq!(expected, json_text(&response.into_json()));

    let not_found = || {
        RpcError::with_data(RpcErrorKind::MethodNotFound, "no method bla".to_owned())
    };
    let string_id = || RpcId::String("string_id".to_owned());
    let response = RpcResponse { result: Err(not_found()), id: string_id() };
    let expected = "{\"jsonrpc\":\"2.0\",\"error\":{\"code\":-32601,\"message\":\"Method not found\",\"data\":\"no method bla\"},\"id\":\"string_id\"}";
    assert_eq!(RpcResponse::from_json(parse_json(expected)), Ok(response));
    let response = RpcResponse { result: Err(not_found()), id: string_id() };
    assert_eq!(expected, json_text(&response.into_json()));

    // request
    let params = || {
        RpcParams::List(vec![
            JsonValue::Number(JsonNumber::Float("3.141".to_string())),
            JsonValue::Number(JsonNumber::PosInt(127)),
        ])
    };
    let request = RpcRequest { method: "func".to_owned(), params: params(), id: RpcId::Int(1) };
    let expected = "{\"jsonrpc\":\"2.0\",\"method\":\"func\",\"params\":[3.141,127],\"id\":1}";
    assert_eq!(RpcRequest::from_json(parse_json(expected)), Ok(request));
    let request = RpcRequest { method: "func".to_owned(), params: params(), id: RpcId::Int(1) };
    assert_eq!(expected, json_text(&request.into_json()));

    let map = || {
        RpcParams::Dict(vec![("key".to_owned(), JsonValue::String("value".to_owned()))])
    };
    let request = RpcRequest { method: "func".to_owned(), params: map(), id: RpcId::Null };
    let expected = "{\"jsonrpc\":\"2.0\",\"method\":\"func\",\"params\":{\"key\":\"value\"}} ";
    assert_eq!(RpcRequest::from_json(parse_json(expected)), Ok(request));
    let request = RpcRequest { method: "func".to_owned(), params: map(), id: RpcId::Null };
    assert_eq!(expected[..expected.len() - 1], json_text(&request.into_json()));

    let request =
        RpcRequest { method: "func".to_owned(), params: RpcParams::Null, id: RpcId::Null };
    let expected = " {\"jsonrpc\":\"2.0\",\"method\":\"func\"}";
    assert_eq!(RpcRequest::from_json(parse_json(expected)), Ok(request));
    let request =
        RpcRequest { method: "func".to_owned(), params: RpcParams::Null, id: RpcId::Null };
    assert_eq!(expected[1..], json_text(&request.into_json()));
}

#[test]
fn message_decode_errors() {
    assert_eq!(RpcMessage::from_json(parse_json("[1]")), Err(MessageError::NotAnObject));
    assert_eq!(
        RpcMessage::from_json(parse_json("{\"jsonrpc\":\"1.0\",\"method\":\"m\"}")),
        Err(MessageError::InvalidVersion("1.0".to_string()))
    );
    assert_eq!(
        RpcMessage::from_json(parse_json("{\"jsonrpc\":2,\"method\":\"m\"}")),
        Err(MessageError::InvalidField(MessageField::JsonRpc))
    );
    assert_eq!(
        RpcMessage::from_json(parse_json("{\"jsonrpc\":\"2.0\"}")),
        Err(MessageError::MissingField(MessageField::Method))
    );
    assert_eq!(
        RpcMessage::from_json(parse_json("{\"method\":\"m\",\"id\":null}")),
        Err(MessageError::InvalidField(MessageField::Id))
    );
    assert_eq!(
        RpcMessage::from_json(parse_json("{\"method\":\"m\",\"id\":1.5}")),
        Err(MessageError::InvalidField(MessageField::Id))
    );
    assert_eq!(
        RpcMessage::from_json(parse_json("{\"method\":\"m\",\"params\":3}")),
        Err(MessageError::InvalidField(MessageField::Params))
    );
    assert_eq!(
        RpcMessage::from_json(parse_json("{\"error\":{\"message\":\"x\"}}")),
        Err(MessageError::MissingField(MessageField::Code))
    );
    assert_eq!(
        RpcMessage::from_json(parse_json("{\"error\":{\"code\":1}}")),
        Err(MessageError::MissingField(MessageField::Message))
    );
    assert_eq!(
        RpcMessage::from_json(parse_json("{\"error\":{\"code\":4294967296,\"message\":\"x\"}}")),
        Err(MessageError::InvalidField(MessageField::Code))
    );
    assert_eq!(
        RpcMessage::from_json(parse_json("{\"error\":3}")),
        Err(MessageError::InvalidField(MessageField::Error))
    );
    assert_eq!(
        RpcRequest::from_json(parse_json("{\"result\":1}")),
        Err(MessageError::UnexpectedKind)
    );
    assert_eq!(
        RpcResponse::from_json(parse_json("{\"method\":\"m\"}")),
        Err(MessageError::UnexpectedKind)
    );
}

#[test]
fn message_result_wins_and_other_codes() {
    // a result and an error: the result is taken
    let got = RpcResponse::from_json(parse_json(
        "{\"result\":5,\"error\":{\"code\":1,\"message\":\"x\"},\"id\":-4}",
    ));
    assert_eq!(
        got,
        Ok(RpcResponse { result: Ok(JsonValue::Number(JsonNumber::PosInt(5))), id: RpcId::Int(-4) })
    );
    // an unknown code keeps its message; a reserved one is read as its kind
    let parts = ErrorParts::from_json(parse_json("{\"code\":7,\"message\":\"seven\",\"data\":\"d\"}"))
        .ok()
        .unwrap();
    assert_eq!(parts.code, 7);
    assert_eq!(parts.message, "seven");
    assert_eq!(parts.data, Some("d".to_string()));
    let got = RpcResponse::from_json(parse_json(
        "{\"error\":{\"code\":-32601,\"message\":\"anything\"}}",
    ));
    assert_eq!(
        got,
        Ok(RpcResponse {
            result: Err(RpcError::with_data(RpcErrorKind::MethodNotFound, String::new())),
            id: RpcId::Null
        })
    );
}

#[test]
fn message_roundtrip_values() {
    let messages = || {
        vec![
            RpcMessage::Request(RpcRequest {
                method: "m".to_string(),
                params: RpcParams::Dict(vec![("a".to_string(), JsonValue::Bool(true))]),
                id: RpcId::Int(-9),
            }),
            RpcMessage::Response(RpcResponse {
                result: Err(RpcError::new(42, "custom".to_string(), "data".to_string())),
                id: RpcId::String("x".to_string()),
            }),
            RpcMessage::Response(RpcResponse { result: Ok(JsonValue::Null), id: RpcId::Int(0) }),
        ]
    };
    for (message, expected) in messages().into_iter().zip(messages()) {
        let text = json_text(&message.into_json());
        assert_eq!(RpcMessage::from_json(parse_json(&text)), Ok(expected));
    }
}

#[test]
fn params_take_by_name_and_index() {
    let mut params = RpcParams::Dict(vec![
        ("a".to_string(), JsonValue::Number(JsonNumber::PosInt(1))),
        ("b".to_string(), JsonValue::Number(JsonNumber::PosInt(2))),
    ]);
    assert_eq!(params.take_by_name("a"), Ok(JsonValue::Number(JsonNumber::PosInt(1))));
    assert_eq!(
        params,
        RpcParams::Dict(vec![("b".to_string(), JsonValue::Number(JsonNumber::PosInt(2)))])
    );
    let missing = params.take_by_name("a").unwrap_err();
    assert_eq!(missing.kind(), &RpcErrorKind::InvalidParams);
    assert_eq!(missing.data(), "missing required argument: a");

    let mut list = RpcParams::List(vec![JsonValue::Bool(false), JsonValue::Bool(true)]);
    assert_eq!(list.take_by_index(1), Ok(JsonValue::Bool(true)));
    assert_eq!(list, RpcParams::List(vec![JsonValue::Bool(false), JsonValue::Null]));
    let missing = list.take_by_index(2).unwrap_err();
    assert_eq!(missing.kind(), &RpcErrorKind::InvalidParams);
    assert_eq!(missing.data(), "missing required argument: 2");
    assert!(RpcParams::Null.take_by_index(0).is_err());
    assert!(RpcParams::Null.is_null());
    assert_eq!(
        RpcParams::from_json(JsonValue::Array(vec![])),
        Some(RpcParams::List(vec![]))
    );
    assert_eq!(RpcParams::from_json(JsonValue::Bool(true)), None);
    assert_eq!(
        RpcParams::List(vec![JsonValue::Null]).into_value(),
        JsonValue::Array(vec![JsonValue::Null])
    );
}
