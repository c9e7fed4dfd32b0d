use jsonrpc_core::transport::Config;
use jsonrpc_core::transport::ConnState;
use jsonrpc_core::transport::Phase;
use jsonrpc_core::transport::RpcError;
use jsonrpc_core::transport::TransportLifecycle;
use jsonrpc_core::transport::http_status_of;

#[test]
fn test_lifecycle_drains_before_closing() {
    let mut t = TransportLifecycle::new();
    assert!(t.accept_allowed());
    t.on_accept();
    t.on_accept();
    assert_eq!(t.active, 2);

    t.observe_cancel();
    assert_eq!(t.phase, Phase::Draining);
    assert!(!t.accept_allowed());

    t.on_connection_finished();
    assert_eq!(t.phase, Phase::Draining);
    assert!(!t.is_closed());

    t.on_connection_finished();
    assert_eq!(t.phase, Phase::Closed);
    assert!(t.is_closed());
    assert_eq!(t.active, 0);
}

#[test]
fn test_lifecycle_cancel_with_no_work_closes_at_once() {
    let mut t = TransportLifecycle::new();
    t.observe_cancel();
    assert_eq!(t.phase, Phase::Closed);
    assert!(t.is_closed());
}

#[test]
fn test_lifecycle_cancel_is_idempotent() {
    let mut t = TransportLifecycle::new();
    t.on_accept();
    t.observe_cancel();
    let after_first = t;
    t.observe_cancel();
    assert_eq!(t, after_first);
    t.observe_cancel();
    assert_eq!(t, after_first);
}

#[test]
fn test_connection_finishes_current_exchange_after_cancel() {
    let mut c = ConnState::new();
    assert!(c.exchange_allowed());
    c.begin_exchange();

    c.observe_cancel();
    assert!(!c.exchange_allowed());
    assert!(c.busy);
    assert!(!c.close_allowed());

    c.complete_exchange();
    assert!(c.close_allowed());
    c.close();
    assert!(c.done);
}

#[test]
fn test_http_status_mapping() {
    assert_eq!(http_status_of(None), 200);
    assert_eq!(http_status_of(Some(-32700)), 400);
    assert_eq!(http_status_of(Some(-32600)), 400);
    assert_eq!(http_status_of(Some(-32602)), 400);
    assert_eq!(http_status_of(Some(-32601)), 404);
    assert_eq!(http_status_of(Some(-32603)), 500);
    assert_eq!(http_status_of(Some(-32000)), 500);
}

#[test]
fn test_transport_config_and_errors() {
    let cfg = Config {
        rpc_path: "/rpc".to_string(),
        rpc_port: "8080".to_string(),
        timeout: 30,
    };
    assert_eq!(cfg.clone(), cfg);
    let e = RpcError::NetError("refused".to_string());
    assert_ne!(e, RpcError::AxumError("refused".to_string()));
}

#[test]
fn test_bind_config_load() {
    let cfg = jsonrpc_core::config::Config::new("127.0.0.1".to_string(), "8080".to_string());
    assert_eq!(cfg.load(), ("127.0.0.1".to_string(), "8080".to_string()));
}
