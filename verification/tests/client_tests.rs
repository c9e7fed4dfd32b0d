use jsonrpc_core::client::ExecutorError;
use jsonrpc_core::client::NullValue;
use jsonrpc_core::client::RpcValue;
use jsonrpc_core::client::build_call_request;
use jsonrpc_core::client::fold_params;
use jsonrpc_core::client::parse_call_response;
use jsonrpc_core::id::RpcId;
use jsonrpc_core::json::JsonValue;

#[test]
fn test_null_value_builds_null() {
    assert_eq!(NullValue.build_serde_value(), Ok(JsonValue::Null));
}

#[test]
fn test_build_call_request_fields() {
    let req = build_call_request(
        "test.rpc".to_string(),
        Some(JsonValue::Text("hello world".to_string())),
        Some(RpcId::IntegerVal(1)),
    );
    assert_eq!(req.jsonrpc, "2.0".to_string());
    assert_eq!(req.method, "test.rpc".to_string());
    assert_eq!(req.params, Some(JsonValue::Text("hello world".to_string())));
    assert_eq!(req.id, Some(RpcId::IntegerVal(1)));
    assert_eq!(
        req.to_json(),
        r#"{"jsonrpc":"2.0","method":"test.rpc","params":"hello world","id":1}"#
    );
}

#[test]
fn test_parse_call_response_success() {
    let body = r#"{"jsonrpc":"2.0","result":{"msg":"hello response"},"id":1}"#;
    let resp = parse_call_response(body).unwrap();
    assert_eq!(resp.jsonrpc, "2.0".to_string());
    assert_eq!(resp.id, Some(RpcId::IntegerVal(1)));
    let members = match resp.result.unwrap() {
        JsonValue::Object(ms) => ms,
        other => panic!("expected an object, got {:?}", other),
    };
    assert_eq!(members[0], ("msg".to_string(), JsonValue::Text("hello response".to_string())));
    assert!(resp.error.is_none());
}

#[test]
fn test_parse_call_response_error_envelope() {
    let body = r#"{"jsonrpc":"2.0","error":{"code":-32600,"message":"Invalid request"},"id":1}"#;
    let resp = parse_call_response(body).unwrap();
    let err = resp.error.unwrap();
    assert_eq!(err.code, -32600);
    assert_eq!(err.message, "Invalid request".to_string());
}

#[test]
fn test_fold_params_surfaces_build_failure() {
    let e = ExecutorError::BuildValueError("unable to build value".to_string());
    assert_eq!(fold_params(Some(Err(e.clone()))), Err(e));
    assert_eq!(fold_params(None), Ok(None));
    assert_eq!(fold_params(Some(Ok(JsonValue::Bool(true)))), Ok(Some(JsonValue::Bool(true))));
}

#[test]
fn test_parse_call_response_rejects_garbage() {
    let out = parse_call_response(r#"{"msg": "error"}"#);
    assert_eq!(
        out,
        Err(ExecutorError::ParseResponseError("unable to parse json response".to_string()))
    );
    let out2 = parse_call_response("not json at all");
    assert!(matches!(out2, Err(ExecutorError::ParseResponseError(_))));
}
