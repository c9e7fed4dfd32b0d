use jsonrpc_core::agent_ping::AgentPingHandler;
use jsonrpc_core::base::Handler;
use jsonrpc_core::base::Method;
use jsonrpc_core::base::Route;
use jsonrpc_core::errors::RpcError;
use jsonrpc_core::id::RpcId;
use jsonrpc_core::json::JsonValue;
use jsonrpc_core::processor::RpcProcessor;
use jsonrpc_core::request::RpcRequest;

/// A handler that answers with nothing.
struct Quiet;

impl Handler for Quiet {
    fn call(&self, _params: JsonValue) -> Result<Option<JsonValue>, RpcError> {
        Ok(None)
    }
}

/// A handler that can stand beside the ping handler in one registry.
enum TestHandler {
    Ping(AgentPingHandler),
    FailInvalidParams,
    Constant(u64),
}

impl Handler for TestHandler {
    fn call(&self, params: JsonValue) -> Result<Option<JsonValue>, RpcError> {
        match self {
            TestHandler::Ping(h) => h.call(params),
            TestHandler::FailInvalidParams => Err(RpcError::InvalidParams),
            TestHandler::Constant(n) => Ok(Some(JsonValue::UInt(*n))),
        }
    }
}

fn ping_request() -> RpcRequest {
    RpcRequest {
        id: Some(RpcId::IntegerVal(1)),
        jsonrpc: "2.0".to_string(),
        method: "prople.agent.ping".to_string(),
        params: None,
    }
}

#[test]
fn test_processor_register_controller_ping() {
    let mut processor: RpcProcessor<AgentPingHandler> = RpcProcessor::new();
    let response = processor
        .register_route(Route::new(Method::from("prople.agent.ping"), AgentPingHandler))
        .execute(ping_request());
    assert_eq!(
        response.to_json(),
        r#"{"jsonrpc":"2.0","result":{"message":"pong!"},"id":1}"#
    );
}

#[test]
fn test_processor_register_multiple_controllers() {
    let mut processor: RpcProcessor<TestHandler> = RpcProcessor::new();
    processor
        .register_route(Route::new(
            Method::from("prople.agent.ping"),
            TestHandler::Ping(AgentPingHandler),
        ))
        .register_route(Route::new(Method::from("mock.handler"), TestHandler::FailInvalidParams));
    let handlers = processor.handlers();
    assert_eq!(handlers.len(), 2);
}

#[test]
fn test_processor_execute_success() {
    let processor = RpcProcessor::default();
    let response = processor.execute(ping_request());
    assert_eq!(
        response.to_json(),
        r#"{"jsonrpc":"2.0","result":{"message":"pong!"},"id":1}"#
    );
}

#[test]
fn test_processor_handler_error() {
    let mut processor: RpcProcessor<TestHandler> = RpcProcessor::new();
    processor.register_route(Route::new(
        Method::from("prople.agent.ping"),
        TestHandler::Ping(AgentPingHandler),
    ));
    processor.register_route(Route::new(Method::from("test.mock"), TestHandler::FailInvalidParams));

    let request = RpcRequest {
        id: Some(RpcId::IntegerVal(1)),
        jsonrpc: "2.0".to_string(),
        method: "test.mock".to_string(),
        params: None,
    };
    let response = processor.execute(request);
    assert_eq!(
        response.to_json(),
        r#"{"jsonrpc":"2.0","error":{"code":-32602,"message":"Invalid params"},"id":1}"#
    );
}

#[test]
fn test_agent_ping_call() {
    let handler = AgentPingHandler;
    let response = handler.call(JsonValue::Null);
    match response {
        Ok(Some(out)) => {
            let text = jsonrpc_core::encode::json_to_chars(&out).into_iter().collect::<String>();
            assert_eq!(r#"{"message":"pong!"}"#, text);
        },
        other => panic!("expected a payload, got {:?}", other),
    }
}

#[test]
fn test_unregistered_method_not_found() {
    let processor: RpcProcessor<AgentPingHandler> = RpcProcessor::new();
    for params in [None, Some(JsonValue::Array(vec![JsonValue::UInt(3)]))] {
        let request = RpcRequest {
            id: Some(RpcId::IntegerVal(9)),
            jsonrpc: "2.0".to_string(),
            method: "no.such.method".to_string(),
            params,
        };
        let response = processor.execute(request);
        let err = response.error.expect("an error envelope");
        assert_eq!(err.code, -32601);
        assert_eq!(err.message, "Method not found".to_string());
        assert!(response.result.is_none());
        assert_eq!(response.id, Some(RpcId::IntegerVal(9)));
    }
}

#[test]
fn test_notification_without_id_completes() {
    let processor = RpcProcessor::default();
    let request = RpcRequest {
        id: None,
        jsonrpc: "2.0".to_string(),
        method: "prople.agent.ping".to_string(),
        params: None,
    };
    let response = processor.execute(request);
    assert!(response.id.is_none());
    assert_eq!(
        response.to_json(),
        r#"{"jsonrpc":"2.0","result":{"message":"pong!"},"id":null}"#
    );
}

#[test]
fn test_reregister_replaces_handler() {
    let mut processor: RpcProcessor<TestHandler> = RpcProcessor::new();
    processor.register_route(Route::new(Method::from("m"), TestHandler::Constant(1)));
    processor.register_route(Route::new(Method::from("m"), TestHandler::Constant(2)));
    assert_eq!(processor.handlers().len(), 1);
    let request = RpcRequest {
        id: Some(RpcId::IntegerVal(1)),
        jsonrpc: "2.0".to_string(),
        method: "m".to_string(),
        params: None,
    };
    let response = processor.execute(request);
    assert_eq!(response.result, Some(JsonValue::UInt(2)));
}

#[test]
fn test_string_id_is_echoed_byte_identically() {
    let mut processor: RpcProcessor<TestHandler> = RpcProcessor::new();
    processor.register_route(Route::new(Method::from("m"), TestHandler::Constant(5)));
    let request = RpcRequest {
        id: Some(RpcId::StringVal("1".to_string())),
        jsonrpc: "2.0".to_string(),
        method: "m".to_string(),
        params: None,
    };
    let response = processor.execute(request);
    assert_eq!(response.to_json(), r#"{"jsonrpc":"2.0","result":5,"id":"1"}"#);
}

#[test]
fn test_handler_success_without_value_gives_null_result() {
    let mut processor: RpcProcessor<Quiet> = RpcProcessor::new();
    processor.register_route(Route::new(Method::from("quiet"), Quiet));
    let request = RpcRequest {
        id: Some(RpcId::IntegerVal(1)),
        jsonrpc: "2.0".to_string(),
        method: "quiet".to_string(),
        params: None,
    };
    let response = processor.execute(request);
    assert_eq!(response.result, Some(JsonValue::Null));
    assert_eq!(response.to_json(), r#"{"jsonrpc":"2.0","result":null,"id":1}"#);
}

#[test]
fn test_ping_exchange_over_the_wire() {
    let processor = RpcProcessor::default();
    let request =
        RpcRequest::from_json(r#"{"jsonrpc":"2.0","method":"prople.agent.ping","params":null,"id":1}"#)
            .unwrap();
    let response = processor.execute(request);
    assert_eq!(
        response.to_json(),
        r#"{"jsonrpc":"2.0","result":{"message":"pong!"},"id":1}"#
    );
}

#[test]
fn test_execute_json_maps_status() {
    let processor = RpcProcessor::default();

    let (status, text) = processor
        .execute_json(r#"{"jsonrpc":"2.0","method":"prople.agent.ping","params":null,"id":1}"#);
    assert_eq!(status, 200);
    assert_eq!(text, r#"{"jsonrpc":"2.0","result":{"message":"pong!"},"id":1}"#);

    let (status, text) = processor
        .execute_json(r#"{"jsonrpc":"2.0","method":"nope","params":null,"id":1}"#);
    assert_eq!(status, 404);
    assert_eq!(
        text,
        r#"{"jsonrpc":"2.0","error":{"code":-32601,"message":"Method not found"},"id":1}"#
    );

    let (status, text) = processor.execute_json("this is not json");
    assert_eq!(status, 400);
    assert_eq!(
        text,
        r#"{"jsonrpc":"2.0","error":{"code":-32700,"message":"Parse error"},"id":null}"#
    );
}
