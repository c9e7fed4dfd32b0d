use jsonrpc_core::errors::RpcError;
use jsonrpc_core::errors::RpcErrorBuilder;
use jsonrpc_core::errors::INTERNAL_ERROR_CODE;
use jsonrpc_core::errors::INVALID_PARAMS_CODE;
use jsonrpc_core::errors::INVALID_REQUEST_CODE;
use jsonrpc_core::errors::METHOD_NOT_FOUND_CODE;
use jsonrpc_core::errors::PARSE_ERROR_CODE;

#[test]
fn test_build_error_enum() {
    let table = vec![
        (RpcError::ParseError, (PARSE_ERROR_CODE, "Parse error".to_string())),
        (RpcError::InvalidRequest, (INVALID_REQUEST_CODE, "Invalid request".to_string())),
        (RpcError::MethodNotFound, (METHOD_NOT_FOUND_CODE, "Method not found".to_string())),
        (RpcError::InvalidParams, (INVALID_PARAMS_CODE, "Invalid params".to_string())),
        (RpcError::InternalError, (INTERNAL_ERROR_CODE, "Internal error".to_string())),
    ];
    for (input, expected) in table {
        let result = input.build();
        assert_eq!(expected, result);
    }
}

#[test]
fn test_serialize_error_object() {
    let table = vec![
        (RpcError::ParseError, r#"{"code":-32700,"message":"Parse error"}"#.to_string()),
        (RpcError::InvalidRequest, r#"{"code":-32600,"message":"Invalid request"}"#.to_string()),
        (RpcError::MethodNotFound, r#"{"code":-32601,"message":"Method not found"}"#.to_string()),
        (RpcError::InvalidParams, r#"{"code":-32602,"message":"Invalid params"}"#.to_string()),
        (RpcError::InternalError, r#"{"code":-32603,"message":"Internal error"}"#.to_string()),
    ];
    for (input, expected) in table {
        let err: RpcErrorBuilder = RpcErrorBuilder::build(input.clone(), None);
        assert_eq!(expected, err.to_json());
    }
}

#[test]
fn test_handler_error_keeps_message() {
    let (code, message) = RpcError::HandlerError("boom".to_string()).build();
    assert_eq!(code, INTERNAL_ERROR_CODE);
    assert_eq!(message, "boom".to_string());
}

#[test]
fn test_error_object_with_data() {
    let err = RpcErrorBuilder::build(
        RpcError::InvalidParams,
        Some(jsonrpc_core::json::JsonValue::Text("missing field".to_string())),
    );
    assert_eq!(
        err.to_json(),
        r#"{"code":-32602,"message":"Invalid params","data":"missing field"}"#
    );
}
