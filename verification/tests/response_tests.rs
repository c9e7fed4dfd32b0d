use jsonrpc_core::errors::RpcError;
use jsonrpc_core::errors::RpcErrorBuilder;
use jsonrpc_core::id::RpcId;
use jsonrpc_core::json::JsonValue;
use jsonrpc_core::response::RpcResponse;

fn fake_param() -> JsonValue {
    JsonValue::Object(vec![
        ("key".to_string(), JsonValue::Text("testkey".to_string())),
        ("value".to_string(), JsonValue::Text("testvalue".to_string())),
    ])
}

#[test]
fn test_serialize_response_object_with_success() {
    let response = RpcResponse::with_success(Some(fake_param()), None);
    assert_eq!(
        response.to_json(),
        r#"{"jsonrpc":"2.0","result":{"key":"testkey","value":"testvalue"},"id":null}"#
    );
}

#[test]
fn test_deserialize_response_success() {
    let response = RpcResponse::with_success(Some(fake_param()), None);
    let jsonstr = response.to_json();
    let output = RpcResponse::from_json(jsonstr.as_str());
    assert!(output.is_some());

    let output_obj = output.unwrap();
    let members = match output_obj.result.unwrap() {
        JsonValue::Object(ms) => ms,
        other => panic!("expected an object, got {:?}", other),
    };
    assert_eq!(members[0], ("key".to_string(), JsonValue::Text("testkey".to_string())));
    assert_eq!(members[1], ("value".to_string(), JsonValue::Text("testvalue".to_string())));
}

#[test]
fn test_serialize_response_object_with_error() {
    let err = RpcErrorBuilder::build(RpcError::MethodNotFound, None);
    let response = RpcResponse::with_error(Some(err), None);
    assert_eq!(
        response.to_json(),
        r#"{"jsonrpc":"2.0","error":{"code":-32601,"message":"Method not found"},"id":null}"#
    );
}

#[test]
fn test_response_round_trip_all_fields() {
    let err = RpcErrorBuilder {
        code: -32099,
        message: "server error".to_string(),
        data: Some(JsonValue::Array(vec![JsonValue::UInt(18446744073709551615)])),
    };
    let response = RpcResponse::with_error(Some(err), Some(RpcId::IntegerVal(42)));
    let text = response.to_json();
    let back = RpcResponse::from_json(text.as_str()).unwrap();
    assert_eq!(back, response);
}

#[test]
fn test_response_id_stays_string() {
    let response = RpcResponse::with_success(
        Some(JsonValue::Null),
        Some(RpcId::StringVal("7".to_string())),
    );
    assert_eq!(response.to_json(), r#"{"jsonrpc":"2.0","result":null,"id":"7"}"#);
}

#[test]
fn test_response_id_stays_integer() {
    let response = RpcResponse::with_success(Some(JsonValue::Null), Some(RpcId::IntegerVal(7)));
    assert_eq!(response.to_json(), r#"{"jsonrpc":"2.0","result":null,"id":7}"#);
}
