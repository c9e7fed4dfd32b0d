use jsonrpc_core::id::RpcId;
use jsonrpc_core::json::JsonValue;
use jsonrpc_core::request::RpcRequest;

fn one_two() -> JsonValue {
    JsonValue::Array(vec![JsonValue::UInt(1), JsonValue::UInt(2)])
}

#[test]
fn test_serialize_request_object() {
    let payload = RpcRequest {
        id: Some(RpcId::IntegerVal(1)),
        jsonrpc: "2.0".to_string(),
        params: Some(one_two()),
        method: "testing".to_string(),
    };
    assert_eq!(
        payload.to_json(),
        r#"{"jsonrpc":"2.0","method":"testing","params":[1,2],"id":1}"#
    );
}

#[test]
fn test_serialize_request_object_optional_id() {
    let payload = RpcRequest {
        id: None,
        jsonrpc: "2.0".to_string(),
        params: Some(one_two()),
        method: "testing".to_string(),
    };
    assert_eq!(
        payload.to_json(),
        r#"{"jsonrpc":"2.0","method":"testing","params":[1,2]}"#
    );
}

#[test]
fn test_deserialize_with_id() {
    let jsonstr = r#"{"jsonrpc":"2.0","method":"testing","params":[1,2], "id": 1}"#;
    let jsonobj = RpcRequest::from_json(jsonstr);
    assert!(jsonobj.is_some());

    let jsonreq = jsonobj.unwrap();
    assert_eq!(jsonreq.jsonrpc.as_str(), "2.0");
    assert_eq!(jsonreq.method.as_str(), "testing");

    let params = match jsonreq.params.unwrap() {
        JsonValue::Array(es) => es,
        other => panic!("expected an array, got {:?}", other),
    };
    assert_eq!(params.len(), 2);
    assert_eq!(params[0], JsonValue::UInt(1));
    assert_eq!(params[1], JsonValue::UInt(2));
    assert_eq!(jsonreq.id, Some(RpcId::IntegerVal(1)));
}

#[test]
fn test_deserialize_with_fake_param() {
    let jsonstr = r#"{"jsonrpc":"2.0","method":"testing","params": {"key": "testkey", "value": "testvalue"}, "id": 1}"#;
    let jsonobj = RpcRequest::from_json(jsonstr);
    assert!(jsonobj.is_some());
    let payload = jsonobj.unwrap();

    let members = match payload.params.unwrap() {
        JsonValue::Object(ms) => ms,
        other => panic!("expected an object, got {:?}", other),
    };
    assert_eq!(members[0], ("key".to_string(), JsonValue::Text("testkey".to_string())));
    assert_eq!(members[1], ("value".to_string(), JsonValue::Text("testvalue".to_string())));
}

#[test]
fn test_deserialize_without_id() {
    let jsonstr = r#"{"jsonrpc":"2.0","method":"testing","params":[1,2]}"#;
    let jsonobj = RpcRequest::from_json(jsonstr);
    assert!(jsonobj.is_some());
    assert!(jsonobj.unwrap().id.is_none());
}

#[test]
fn test_request_round_trip_all_fields() {
    let payload = RpcRequest {
        id: Some(RpcId::StringVal("abc-1".to_string())),
        jsonrpc: "2.0".to_string(),
        params: Some(JsonValue::Object(vec![
            ("flag".to_string(), JsonValue::Bool(true)),
            ("count".to_string(), JsonValue::Int(-7)),
            ("name".to_string(), JsonValue::Text("x\"y\\z".to_string())),
        ])),
        method: "a.b.c".to_string(),
    };
    let text = payload.to_json();
    let back = RpcRequest::from_json(text.as_str()).unwrap();
    assert_eq!(back, payload);
}

#[test]
fn test_deserialize_rejects_missing_method() {
    assert!(RpcRequest::from_json(r#"{"jsonrpc":"2.0","params":null,"id":1}"#).is_none());
}

#[test]
fn test_deserialize_rejects_bad_id() {
    assert!(
        RpcRequest::from_json(r#"{"jsonrpc":"2.0","method":"m","params":null,"id":-4}"#).is_none()
    );
    assert!(
        RpcRequest::from_json(r#"{"jsonrpc":"2.0","method":"m","params":null,"id":[1]}"#).is_none()
    );
}

#[test]
fn test_deserialize_rejects_trailing_garbage() {
    assert!(
        RpcRequest::from_json(r#"{"jsonrpc":"2.0","method":"m","params":null} x"#).is_none()
    );
}
