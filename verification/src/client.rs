//! The outbound client's pure half: building the call envelope and
//! reading the reply.  Sending the bytes belongs to the surrounding
//! runtime.

use vstd::prelude::*;

use crate::id::IdView;
use crate::id::RpcId;
use crate::json::JsonValue;
use crate::json::json_view;
use crate::json::wf_json;
use crate::request::RpcRequest;
use crate::request::wf_req;
use crate::response::RpcResponse;
use crate::response::resp_parse;
use crate::response::wf_resp;

verus! {

/// What an outbound call can fail with: a transport failure carrying
/// the URL and status code, a reply that does not decode, a params
/// value that cannot be built, or a reply missing the half the caller
/// needed.
#[derive(Debug, Clone, PartialEq)]
pub enum ExecutorError {
    RequestError { url: String, code: u16 },
    ParseResponseError(String),
    BuildValueError(String),
    MissingError,
    MissingResult,
}

/// A params payload: anything that can render itself as a JSON value.
/// A value it does render must be well-formed, so that the request can
/// be encoded.
pub trait RpcValue: Sized {
    fn build_serde_value(&self) -> (r: Result<JsonValue, ExecutorError>)
        ensures
            match r {
                Ok(v) => wf_json(v@),
                Err(_) => true,
            },
    ;
}

/// The null payload.
#[derive(Debug, Clone, PartialEq)]
pub struct NullValue;

impl RpcValue for NullValue {
    /// Always renders as JSON `null`.
    fn build_serde_value(&self) -> (r: Result<JsonValue, ExecutorError>)
        ensures
            match r {
                Ok(v) => v@ == crate::json::JsonView::Null,
                Err(_) => false,
            },
    {
        Ok(JsonValue::Null)
    }
}

/// Folds the built params of an outbound call.  A payload that failed
/// to build surfaces its own failure and nothing is sent; a built value
/// — or no payload at all — goes on into the envelope.
pub fn fold_params(built: Option<Result<JsonValue, ExecutorError>>) -> (r: Result<
    Option<JsonValue>,
    ExecutorError,
>)
    ensures
        match built {
            None => r == Ok::<Option<JsonValue>, ExecutorError>(None),
            Some(Ok(v)) => r == Ok::<Option<JsonValue>, ExecutorError>(Some(v)),
            Some(Err(e)) => r == Err::<Option<JsonValue>, ExecutorError>(e),
        },
{
    match built {
        None => Ok(None),
        Some(Ok(v)) => Ok(Some(v)),
        Some(Err(e)) => Err(e),
    }
}

/// The envelope an outbound call sends: protocol version `"2.0"`, the
/// given method, params and id, field for field.
pub fn build_call_request(method: String, params: Option<JsonValue>, id: Option<RpcId>) -> (r:
    RpcRequest)
    requires
        match params {
            Some(p) => wf_json(p@),
            None => true,
        },
    ensures
        r@.jsonrpc == "2.0"@,
        r@.method == method@,
        r@.params == (match params {
            Some(p) => Some(json_view(p)),
            None => None::<crate::json::JsonView>,
        }),
        r@.id == (match id {
            Some(i) => Some(i@),
            None => None::<IdView>,
        }),
        wf_req(r@),
{
    RpcRequest { jsonrpc: String::from_str("2.0"), method, params, id }
}

/// Decodes the reply of an outbound call.  A body that is not a
/// well-shaped response envelope is reported as a decode failure,
/// never as a fault.
pub fn parse_call_response(body: &str) -> (r: Result<RpcResponse, ExecutorError>)
    ensures
        match r {
            Ok(resp) => resp_parse(body@) == Some(resp@) && wf_resp(resp@),
            Err(e) => resp_parse(body@) is None && (match e {
                ExecutorError::ParseResponseError(m) => m@ == "unable to parse json response"@,
                _ => false,
            }),
        },
{
    match RpcResponse::from_json(body) {
        Some(resp) => Ok(resp),
        None => Err(
            ExecutorError::ParseResponseError(String::from_str("unable to parse json response")),
        ),
    }
}

} // verus!
