//! The fixed error taxonomy of the protocol, and the wire error object.

use vstd::prelude::*;

use crate::json::JsonValue;
use crate::json::JsonView;
use crate::json::json_view;
use crate::json::wf_json;

verus! {

pub type RpcErrorCode = i64;

pub const PARSE_ERROR_CODE: RpcErrorCode = -32700;

pub const INVALID_REQUEST_CODE: RpcErrorCode = -32600;

pub const METHOD_NOT_FOUND_CODE: RpcErrorCode = -32601;

pub const INVALID_PARAMS_CODE: RpcErrorCode = -32602;

pub const INTERNAL_ERROR_CODE: RpcErrorCode = -32603;

/// The error kinds a handler or the dispatcher can report.  The reserved
/// kinds carry their canonical message; `HandlerError` folds an
/// application failure into the internal-error code while keeping the
/// handler's own message.
#[derive(Debug, Clone, PartialEq)]
pub enum RpcError {
    ParseError,
    InvalidRequest,
    MethodNotFound,
    InvalidParams,
    InternalError,
    HandlerError(String),
}

/// The reserved code of an error kind.
pub open spec fn code_of(e: RpcError) -> RpcErrorCode {
    match e {
        RpcError::ParseError => PARSE_ERROR_CODE,
        RpcError::InvalidRequest => INVALID_REQUEST_CODE,
        RpcError::MethodNotFound => METHOD_NOT_FOUND_CODE,
        RpcError::InvalidParams => INVALID_PARAMS_CODE,
        RpcError::InternalError => INTERNAL_ERROR_CODE,
        RpcError::HandlerError(_) => INTERNAL_ERROR_CODE,
    }
}

/// The canonical message of an error kind.
pub open spec fn message_of(e: RpcError) -> Seq<char> {
    match e {
        RpcError::ParseError => "Parse error"@,
        RpcError::InvalidRequest => "Invalid request"@,
        RpcError::MethodNotFound => "Method not found"@,
        RpcError::InvalidParams => "Invalid params"@,
        RpcError::InternalError => "Internal error"@,
        RpcError::HandlerError(m) => m@,
    }
}

impl RpcError {
    /// The code and message this kind puts on the wire.
    pub fn build(&self) -> (r: (RpcErrorCode, String))
        ensures
            r.0 == code_of(*self),
            r.1@ == message_of(*self),
    {
        match self {
            RpcError::ParseError => (PARSE_ERROR_CODE, String::from_str("Parse error")),
            RpcError::InvalidRequest => (INVALID_REQUEST_CODE, String::from_str("Invalid request")),
            RpcError::MethodNotFound => (
                METHOD_NOT_FOUND_CODE,
                String::from_str("Method not found"),
            ),
            RpcError::InvalidParams => (INVALID_PARAMS_CODE, String::from_str("Invalid params")),
            RpcError::InternalError => (INTERNAL_ERROR_CODE, String::from_str("Internal error")),
            RpcError::HandlerError(m) => (INTERNAL_ERROR_CODE, m.clone()),
        }
    }
}

/// The model of a wire error object.
pub struct ErrView {
    pub code: int,
    pub message: Seq<char>,
    pub data: Option<JsonView>,
}

/// The error member of a response envelope: code, message, and optional
/// extra data.
#[derive(Debug, PartialEq)]
pub struct RpcErrorBuilder {
    pub code: RpcErrorCode,
    pub message: String,
    pub data: Option<JsonValue>,
}

impl View for RpcErrorBuilder {
    type V = ErrView;

    open spec fn view(&self) -> ErrView {
        ErrView {
            code: self.code as int,
            message: self.message@,
            data: match self.data {
                Some(d) => Some(json_view(d)),
                None => None,
            },
        }
    }
}

/// A well-formed error object: the code fits a signed sixty-four-bit
/// integer, as every taxonomy code does, and the data it carries is
/// well-formed.
pub open spec fn wf_err(e: ErrView) -> bool {
    &&& i64::MIN <= e.code <= i64::MAX
    &&& match e.data {
        Some(d) => wf_json(d),
        None => true,
    }
}

impl RpcErrorBuilder {
    /// The wire error object of an error kind: its reserved code, its
    /// message, and whatever data the caller attaches.
    pub fn build(err: RpcError, data: Option<JsonValue>) -> (r: RpcErrorBuilder)
        ensures
            r.code == code_of(err),
            r.message@ == message_of(err),
            r@.data == (match data {
                Some(d) => Some(json_view(d)),
                None => None::<JsonView>,
            }),
    {
        let (code, message) = err.build();
        RpcErrorBuilder { code, message, data }
    }
}

} // verus!
