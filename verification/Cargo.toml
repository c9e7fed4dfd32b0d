[package]
name = "jsonrpc_core"
version = "0.1.0"
edition = "2021"
publish = false

[dependencies]
rst-common = { version = "=1.5.1", features = ["with-tokio", "with-http-tokio"] }
