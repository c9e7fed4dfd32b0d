//! The response envelope.
//!
//! On the wire a response is an object with a `jsonrpc` member, a
//! `result` or an `error` member (each omitted entirely when absent), and
//! an `id` member that is always written, as `null` when the response
//! correlates to no id.  The construction helpers `with_success` and
//! `with_error` are the only intended builders, and each sets exactly one
//! of `result` and `error`.

use vstd::prelude::*;

use crate::decode::json_from_chars;
use crate::decode::parse_json;
use crate::encode::json_to_chars;
use crate::errors::ErrView;
use crate::errors::RpcErrorBuilder;
use crate::errors::wf_err;
use crate::id::IdView;
use crate::id::RpcId;
use crate::id::id_from_json;
use crate::id::id_jsonval;
use crate::json::JsonValue;
use crate::json::JsonView;
use crate::json::json_chars;
use crate::json::json_view;
use crate::json::lemma_obj_views;
use crate::json::lemma_wf_members;
use crate::json::obj_views;
use crate::json::wf_json;
use crate::members::find_member;
use crate::members::find_val;
use crate::members::lemma_find_wf;
use crate::text::chars_of;
use crate::text::string_from_chars;

verus! {

/// The model of a response envelope.
pub struct RespView {
    pub jsonrpc: Seq<char>,
    pub result: Option<JsonView>,
    pub error: Option<ErrView>,
    pub id: Option<IdView>,
}

/// A JSON-RPC response: protocol version, an optional result, an
/// optional error object, and the id of the request it answers.
#[derive(Debug, PartialEq)]
pub struct RpcResponse {
    pub jsonrpc: String,
    pub result: Option<JsonValue>,
    pub error: Option<RpcErrorBuilder>,
    pub id: Option<RpcId>,
}

impl View for RpcResponse {
    type V = RespView;

    open spec fn view(&self) -> RespView {
        RespView {
            jsonrpc: self.jsonrpc@,
            result: match self.result {
                Some(v) => Some(json_view(v)),
                None => None,
            },
            error: match self.error {
                Some(e) => Some(e@),
                None => None,
            },
            id: match self.id {
                Some(i) => Some(i@),
                None => None,
            },
        }
    }
}

/// A response is well-formed when whatever it carries is.
pub open spec fn wf_resp(r: RespView) -> bool {
    &&& match r.result {
        Some(v) => wf_json(v),
        None => true,
    }
    &&& match r.error {
        Some(e) => wf_err(e),
        None => true,
    }
}

/// Exactly one of result and error is present: what the construction
/// helpers guarantee of every response they build.
pub open spec fn one_outcome(r: RespView) -> bool {
    r.result is Some <==> r.error is None
}

/// The number a code is written as: error codes are negative.
pub open spec fn int_jsonval(c: int) -> JsonView {
    if c < 0 {
        JsonView::Int(c as i64)
    } else {
        JsonView::UInt(c as u64)
    }
}

/// The members of the object an error is written as, in wire order:
/// `code`, `message`, and `data` only when present.
pub open spec fn err_members(e: ErrView) -> Seq<(Seq<char>, JsonView)> {
    let base = seq![("code"@, int_jsonval(e.code)), ("message"@, JsonView::Text(e.message))];
    match e.data {
        Some(d) => base.push(("data"@, d)),
        None => base,
    }
}

/// The JSON value an error object is written as.
pub open spec fn err_jsonval(e: ErrView) -> JsonView {
    JsonView::Object(err_members(e))
}

/// The members of the object a response is written as, in wire order:
/// `jsonrpc`, then `result` or `error` when present, then `id`, written
/// as `null` when the response correlates to no id.
pub open spec fn resp_members(r: RespView) -> Seq<(Seq<char>, JsonView)> {
    let base = seq![("jsonrpc"@, JsonView::Text(r.jsonrpc))];
    let base = match r.result {
        Some(v) => base.push(("result"@, v)),
        None => base,
    };
    let base = match r.error {
        Some(e) => base.push(("error"@, err_jsonval(e))),
        None => base,
    };
    base.push(
        (
            "id"@,
            match r.id {
                Some(i) => id_jsonval(i),
                None => JsonView::Null,
            },
        ),
    )
}

/// The JSON value a response is written as.
pub open spec fn resp_jsonval(r: RespView) -> JsonView {
    JsonView::Object(resp_members(r))
}

/// The exact wire text of a response.
pub open spec fn resp_chars(r: RespView) -> Seq<char> {
    json_chars(resp_jsonval(r))
}

/// Reading an error object out of a decoded JSON value: an integral
/// `code` within the signed sixty-four-bit range, a string `message`,
/// and optional `data`.
pub open spec fn err_from_json(v: JsonView) -> Option<ErrView> {
    match v {
        JsonView::Object(ms) => {
            let code = match find_val(ms, "code"@) {
                Some(JsonView::Int(i)) => Some(i as int),
                Some(JsonView::UInt(n)) => if n <= i64::MAX {
                    Some(n as int)
                } else {
                    None
                },
                _ => None,
            };
            match (code, find_val(ms, "message"@)) {
                (Some(c), Some(JsonView::Text(msg))) => {
                    let data = match find_val(ms, "data"@) {
                        Some(JsonView::Null) => None,
                        Some(d) => Some(d),
                        None => None,
                    };
                    Some(ErrView { code: c, message: msg, data })
                },
                _ => None,
            }
        },
        _ => None,
    }
}

/// Reading a response out of a decoded JSON value: `jsonrpc` must be a
/// string; absent or `null` result and error mean none; an error member
/// must be a well-shaped error object; the id reads as in a request.
pub open spec fn resp_from_json(v: JsonView) -> Option<RespView> {
    match v {
        JsonView::Object(ms) => match find_val(ms, "jsonrpc"@) {
            Some(JsonView::Text(jrs)) => {
                let result = match find_val(ms, "result"@) {
                    Some(JsonView::Null) => None,
                    Some(p) => Some(p),
                    None => None,
                };
                let error = match find_val(ms, "error"@) {
                    Some(JsonView::Null) => Some(None),
                    Some(e) => match err_from_json(e) {
                        Some(ev) => Some(Some(ev)),
                        None => None,
                    },
                    None => Some(None),
                };
                match (error, find_val(ms, "id"@)) {
                    (Some(error), None) => Some(
                        RespView { jsonrpc: jrs, result, error, id: None },
                    ),
                    (Some(error), Some(iv)) => match id_from_json(iv) {
                        Some(id) => Some(RespView { jsonrpc: jrs, result, error, id }),
                        None => None,
                    },
                    _ => None,
                }
            },
            _ => None,
        },
        _ => None,
    }
}

/// Decoding a whole response text.
pub open spec fn resp_parse(s: Seq<char>) -> Option<RespView> {
    match parse_json(s) {
        Some(v) => resp_from_json(v),
        None => None,
    }
}

impl RpcResponse {
    /// A success response: the result is set, the error absent, the id
    /// echoed.
    pub fn with_success(result: Option<JsonValue>, id: Option<RpcId>) -> (r: RpcResponse)
        ensures
            r@.jsonrpc == "2.0"@,
            r@.result == (match result {
                Some(v) => Some(json_view(v)),
                None => None::<JsonView>,
            }),
            r@.error is None,
            r@.id == (match id {
                Some(i) => Some(i@),
                None => None::<IdView>,
            }),
    {
        RpcResponse { jsonrpc: String::from_str("2.0"), result, error: None, id }
    }

    /// An error response: the error is set, the result absent, the id
    /// echoed.
    pub fn with_error(error: Option<RpcErrorBuilder>, id: Option<RpcId>) -> (r: RpcResponse)
        ensures
            r@.jsonrpc == "2.0"@,
            r@.result is None,
            r@.error == (match error {
                Some(e) => Some(e@),
                None => None::<ErrView>,
            }),
            r@.id == (match id {
                Some(i) => Some(i@),
                None => None::<IdView>,
            }),
    {
        RpcResponse { jsonrpc: String::from_str("2.0"), result: None, error, id }
    }

    /// The wire text of this response.
    pub fn to_json(&self) -> (r: String)
        requires
            wf_resp(self@),
        ensures
            r@ == resp_chars(self@),
    {
        let mut ms: Vec<(String, JsonValue)> = Vec::new();
        ms.push((String::from_str("jsonrpc"), JsonValue::Text(self.jsonrpc.clone())));
        match &self.result {
            Some(v) => {
                ms.push((String::from_str("result"), v.duplicate()));
            },
            None => {},
        }
        match &self.error {
            Some(e) => {
                ms.push((String::from_str("error"), err_to_value(e)));
            },
            None => {},
        }
        match &self.id {
            Some(i) => {
                ms.push((String::from_str("id"), i.to_value()));
            },
            None => {
                ms.push((String::from_str("id"), JsonValue::Null));
            },
        }
        let obj = JsonValue::Object(ms);
        proof {
            let gms = obj->Object_0@;
            let n = gms.len() as int;
            lemma_obj_views(gms, n);
            let vs = obj_views(gms, n);
            assert(vs[0] == (gms[0].0@, json_view(gms[0].1)));
            assert(vs[1] == (gms[1].0@, json_view(gms[1].1)));
            if n > 2 {
                assert(vs[2] == (gms[2].0@, json_view(gms[2].1)));
            }
            if n > 3 {
                assert(vs[3] == (gms[3].0@, json_view(gms[3].1)));
            }
            assert(vs =~= resp_members(self@));
            lemma_wf_members(resp_members(self@));
        }
        let cs = json_to_chars(&obj);
        string_from_chars(cs)
    }

    /// Decodes a response from its wire text.
    pub fn from_json(s: &str) -> (r: Option<RpcResponse>)
        ensures
            match r {
                Some(resp) => resp_parse(s@) == Some(resp@) && wf_resp(resp@),
                None => resp_parse(s@) is None,
            },
    {
        let cs = chars_of(s);
        match json_from_chars(&cs) {
            Some(v) => resp_of_value(&v),
            None => None,
        }
    }
}

impl RpcErrorBuilder {
    /// The wire text of this error object on its own.
    pub fn to_json(&self) -> (r: String)
        requires
            wf_err(self@),
        ensures
            r@ == json_chars(err_jsonval(self@)),
    {
        let v = err_to_value(self);
        let cs = json_to_chars(&v);
        string_from_chars(cs)
    }
}

/// The JSON value an error object is written as.
fn err_to_value(e: &RpcErrorBuilder) -> (r: JsonValue)
    requires
        wf_err(e@),
    ensures
        r@ == err_jsonval(e@),
        wf_json(r@),
{
    let mut ms: Vec<(String, JsonValue)> = Vec::new();
    let code = if e.code < 0 {
        JsonValue::Int(e.code)
    } else {
        JsonValue::UInt(e.code as u64)
    };
    ms.push((String::from_str("code"), code));
    ms.push((String::from_str("message"), JsonValue::Text(e.message.clone())));
    match &e.data {
        Some(d) => {
            ms.push((String::from_str("data"), d.duplicate()));
        },
        None => {},
    }
    let obj = JsonValue::Object(ms);
    proof {
        let gms = obj->Object_0@;
        let n = gms.len() as int;
        lemma_obj_views(gms, n);
        let vs = obj_views(gms, n);
        assert(vs[0] == (gms[0].0@, json_view(gms[0].1)));
        assert(vs[1] == (gms[1].0@, json_view(gms[1].1)));
        if n > 2 {
            assert(vs[2] == (gms[2].0@, json_view(gms[2].1)));
        }
        assert(vs =~= err_members(e@));
        lemma_wf_members(err_members(e@));
    }
    obj
}

/// Reads an error object out of a decoded JSON value.
fn err_of_value(v: &JsonValue) -> (r: Option<RpcErrorBuilder>)
    requires
        wf_json(v@),
    ensures
        match r {
            Some(e) => err_from_json(v@) == Some(e@) && wf_err(e@),
            None => err_from_json(v@) is None,
        },
{
    match v {
        JsonValue::Object(ms) => {
            let ghost vs = obj_views(ms@, ms@.len() as int);
            let code: i64 = match find_member(ms, "code") {
                Some(p) => match p {
                    JsonValue::Int(i) => *i,
                    JsonValue::UInt(n) => {
                        if *n <= 0x7fffffffffffffffu64 {
                            *n as i64
                        } else {
                            return None;
                        }
                    },
                    _ => {
                        return None;
                    },
                },
                None => {
                    return None;
                },
            };
            let message = match find_member(ms, "message") {
                Some(p) => match p {
                    JsonValue::Text(t) => t.clone(),
                    _ => {
                        return None;
                    },
                },
                None => {
                    return None;
                },
            };
            let data = match find_member(ms, "data") {
                Some(p) => match p {
                    JsonValue::Null => None,
                    _ => {
                        proof {
                            lemma_find_wf(vs, "data"@);
                        }
                        Some(p.duplicate())
                    },
                },
                None => None,
            };
            Some(RpcErrorBuilder { code, message, data })
        },
        _ => None,
    }
}

/// Reads a response out of a decoded JSON value.
fn resp_of_value(v: &JsonValue) -> (r: Option<RpcResponse>)
    requires
        wf_json(v@),
    ensures
        match r {
            Some(resp) => resp_from_json(v@) == Some(resp@) && wf_resp(resp@),
            None => resp_from_json(v@) is None,
        },
{
    match v {
        JsonValue::Object(ms) => {
            let ghost vs = obj_views(ms@, ms@.len() as int);
            let jsonrpc = match find_member(ms, "jsonrpc") {
                Some(p) => match p {
                    JsonValue::Text(t) => t.clone(),
                    _ => {
                        return None;
                    },
                },
                None => {
                    return None;
                },
            };
            let result = match find_member(ms, "result") {
                Some(p) => match p {
                    JsonValue::Null => None,
                    _ => {
                        proof {
                            lemma_find_wf(vs, "result"@);
                        }
                        Some(p.duplicate())
                    },
                },
                None => None,
            };
            let error = match find_member(ms, "error") {
                Some(p) => match p {
                    JsonValue::Null => None,
                    _ => {
                        proof {
                            lemma_find_wf(vs, "error"@);
                        }
                        match err_of_value(p) {
                            Some(e) => Some(e),
                            None => {
                                return None;
                            },
                        }
                    },
                },
                None => None,
            };
            let id = match find_member(ms, "id") {
                None => None,
                Some(p) => match p {
                    JsonValue::Null => None,
                    JsonValue::Text(t) => Some(RpcId::StringVal(t.clone())),
                    JsonValue::UInt(n) => Some(RpcId::IntegerVal(*n)),
                    _ => {
                        return None;
                    },
                },
            };
            Some(RpcResponse { jsonrpc, result, error, id })
        },
        _ => None,
    }
}


/// A response that echoes a request's id writes it byte-identically:
/// the id member carries the very same value, so its wire text is the
/// same character sequence, a string id staying a JSON string and an
/// integer id a JSON integer.
pub proof fn lemma_id_representation(req: crate::request::ReqView, resp: RespView)
    requires
        resp.id == req.id,
        req.id is Some,
    ensures
        resp_members(resp)[resp_members(resp).len() - 1] == ("id"@, id_jsonval(req.id->0)),
        json_chars(id_jsonval(resp.id->0)) == json_chars(id_jsonval(req.id->0)),
        req.id->0 is StringVal ==> id_jsonval(resp.id->0) is Text,
        req.id->0 is IntegerVal ==> id_jsonval(resp.id->0) is UInt,
{
    match req.id->0 {
        IdView::StringVal(t) => {},
        IdView::IntegerVal(n) => {},
    }
}

} // verus!
