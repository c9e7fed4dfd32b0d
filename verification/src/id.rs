//! The request and response identifier: a string or an unsigned integer,
//! never fractional.

use vstd::prelude::*;

use crate::json::JsonValue;
use crate::json::JsonView;

verus! {

/// The model of an identifier.
pub enum IdView {
    StringVal(Seq<char>),
    IntegerVal(u64),
}

/// An identifier as established by the caller.  Its wire form is exactly
/// one JSON string or one JSON integer: a string id stays a string and an
/// integer id stays an integer.
#[derive(Debug, Clone, PartialEq)]
pub enum RpcId {
    StringVal(String),
    IntegerVal(u64),
}

impl View for RpcId {
    type V = IdView;

    open spec fn view(&self) -> IdView {
        match self {
            RpcId::StringVal(s) => IdView::StringVal(s@),
            RpcId::IntegerVal(n) => IdView::IntegerVal(*n),
        }
    }
}

/// The JSON value an identifier is written as.
pub open spec fn id_jsonval(i: IdView) -> JsonView {
    match i {
        IdView::StringVal(s) => JsonView::Text(s),
        IdView::IntegerVal(n) => JsonView::UInt(n),
    }
}

/// Reading an identifier out of a JSON value: a string or an unsigned
/// integer is an id, `null` is the absent id, anything else is refused.
pub open spec fn id_from_json(v: JsonView) -> Option<Option<IdView>> {
    match v {
        JsonView::Text(s) => Some(Some(IdView::StringVal(s))),
        JsonView::UInt(n) => Some(Some(IdView::IntegerVal(n))),
        JsonView::Null => Some(None),
        _ => None,
    }
}

impl RpcId {
    /// The JSON value this identifier is written as.
    pub fn to_value(&self) -> (r: JsonValue)
        ensures
            r@ == id_jsonval(self@),
    {
        match self {
            RpcId::StringVal(s) => JsonValue::Text(s.clone()),
            RpcId::IntegerVal(n) => JsonValue::UInt(*n),
        }
    }
}

} // verus!
