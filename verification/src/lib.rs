//! A JSON-RPC 2.0 request-dispatch core.
//!
//! The crate models the wire envelope (requests, responses, ids, error
//! objects), carries its own verified JSON encoder and decoder, dispatches
//! decoded requests through a registry of handlers, and coordinates a
//! graceful shutdown of a listening transport and its connection tasks.

pub mod json;
pub mod text;
pub mod encode;
pub mod decode;
pub mod members;
pub mod roundtrip;

pub mod errors;
pub mod id;
pub mod request;
pub mod response;

pub mod base;
pub mod processor;
pub mod agent_ping;

pub mod transport;
pub mod config;
pub mod client;
