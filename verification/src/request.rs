//! The request envelope.
//!
//! On the wire a request is an object with `jsonrpc`, `method` and
//! `params` members, and an `id` member that is present exactly when the
//! request carries an id: a request without an id is a notification, and
//! the member is omitted rather than written as `null`.  Absent params
//! are written as `null`.

use vstd::prelude::*;

use crate::decode::json_from_chars;
use crate::decode::parse_json;
use crate::encode::json_to_chars;
use crate::id::IdView;
use crate::id::RpcId;
use crate::id::id_from_json;
use crate::id::id_jsonval;
use crate::json::JsonValue;
use crate::json::JsonView;
use crate::json::json_chars;
use crate::json::json_view;
use crate::json::lemma_obj_views;
use crate::json::lemma_wf_members;
use crate::json::obj_views;
use crate::json::wf_json;
use crate::members::find_member;
use crate::members::find_val;
use crate::members::lemma_find_wf;
use crate::text::chars_of;
use crate::text::string_from_chars;

verus! {

/// The model of a request envelope.
pub struct ReqView {
    pub jsonrpc: Seq<char>,
    pub method: Seq<char>,
    pub params: Option<JsonView>,
    pub id: Option<IdView>,
}

/// A JSON-RPC request: protocol version, method name, optional params,
/// optional id.  An absent id makes the request a notification.
#[derive(Debug, PartialEq)]
pub struct RpcRequest {
    pub jsonrpc: String,
    pub method: String,
    pub params: Option<JsonValue>,
    pub id: Option<RpcId>,
}

impl View for RpcRequest {
    type V = ReqView;

    open spec fn view(&self) -> ReqView {
        ReqView {
            jsonrpc: self.jsonrpc@,
            method: self.method@,
            params: match self.params {
                Some(p) => Some(json_view(p)),
                None => None,
            },
            id: match self.id {
                Some(i) => Some(i@),
                None => None,
            },
        }
    }
}

/// A request is well-formed when its params are.
pub open spec fn wf_req(r: ReqView) -> bool {
    match r.params {
        Some(p) => wf_json(p),
        None => true,
    }
}

/// The members of the object a request is written as, in wire order.
pub open spec fn req_members(r: ReqView) -> Seq<(Seq<char>, JsonView)> {
    let base = seq![
        ("jsonrpc"@, JsonView::Text(r.jsonrpc)),
        ("method"@, JsonView::Text(r.method)),
        (
            "params"@,
            match r.params {
                Some(p) => p,
                None => JsonView::Null,
            },
        ),
    ];
    match r.id {
        Some(i) => base.push(("id"@, id_jsonval(i))),
        None => base,
    }
}

/// The JSON value a request is written as.
pub open spec fn req_jsonval(r: ReqView) -> JsonView {
    JsonView::Object(req_members(r))
}

/// The exact wire text of a request.
pub open spec fn req_chars(r: ReqView) -> Seq<char> {
    json_chars(req_jsonval(r))
}

/// Reading a request out of a decoded JSON value: `jsonrpc` and `method`
/// must be strings; absent or `null` params mean no params; the id, when
/// present, must be a string, an integer, or `null` for none.  Unknown
/// members are ignored.
pub open spec fn req_from_json(v: JsonView) -> Option<ReqView> {
    match v {
        JsonView::Object(ms) => match (find_val(ms, "jsonrpc"@), find_val(ms, "method"@)) {
            (Some(JsonView::Text(jrs)), Some(JsonView::Text(mes))) => {
                let params = match find_val(ms, "params"@) {
                    Some(JsonView::Null) => None,
                    Some(p) => Some(p),
                    None => None,
                };
                match find_val(ms, "id"@) {
                    None => Some(
                        ReqView { jsonrpc: jrs, method: mes, params, id: None },
                    ),
                    Some(iv) => match id_from_json(iv) {
                        Some(id) => Some(ReqView { jsonrpc: jrs, method: mes, params, id }),
                        None => None,
                    },
                }
            },
            _ => None,
        },
        _ => None,
    }
}

/// Decoding a whole request text.
pub open spec fn req_parse(s: Seq<char>) -> Option<ReqView> {
    match parse_json(s) {
        Some(v) => req_from_json(v),
        None => None,
    }
}

impl RpcRequest {
    /// The wire text of this request.
    pub fn to_json(&self) -> (r: String)
        requires
            wf_req(self@),
        ensures
            r@ == req_chars(self@),
    {
        let mut ms: Vec<(String, JsonValue)> = Vec::new();
        ms.push((String::from_str("jsonrpc"), JsonValue::Text(self.jsonrpc.clone())));
        ms.push((String::from_str("method"), JsonValue::Text(self.method.clone())));
        let p = match &self.params {
            Some(p) => p.duplicate(),
            None => JsonValue::Null,
        };
        ms.push((String::from_str("params"), p));
        match &self.id {
            Some(i) => {
                ms.push((String::from_str("id"), i.to_value()));
            },
            None => {},
        }
        let obj = JsonValue::Object(ms);
        proof {
            let gms = obj->Object_0@;
            let n = gms.len() as int;
            lemma_obj_views(gms, n);
            let vs = obj_views(gms, n);
            assert(vs[0] == (gms[0].0@, json_view(gms[0].1)));
            assert(vs[1] == (gms[1].0@, json_view(gms[1].1)));
            assert(vs[2] == (gms[2].0@, json_view(gms[2].1)));
            if self@.id is Some {
                assert(vs[3] == (gms[3].0@, json_view(gms[3].1)));
            }
            assert(vs =~= req_members(self@));
            lemma_wf_members(req_members(self@));
        }
        let cs = json_to_chars(&obj);
        string_from_chars(cs)
    }

    /// Decodes a request from its wire text.
    pub fn from_json(s: &str) -> (r: Option<RpcRequest>)
        ensures
            match r {
                Some(req) => req_parse(s@) == Some(req@) && wf_req(req@),
                None => req_parse(s@) is None,
            },
    {
        let cs = chars_of(s);
        match json_from_chars(&cs) {
            Some(v) => req_of_value(&v),
            None => None,
        }
    }
}

/// Reads a request out of a decoded JSON value.
fn req_of_value(v: &JsonValue) -> (r: Option<RpcRequest>)
    requires
        wf_json(v@),
    ensures
        match r {
            Some(req) => req_from_json(v@) == Some(req@) && wf_req(req@),
            None => req_from_json(v@) is None,
        },
{
    match v {
        JsonValue::Object(ms) => {
            let ghost vs = obj_views(ms@, ms@.len() as int);
            let jsonrpc = match find_member(ms, "jsonrpc") {
                Some(p) => match p {
                    JsonValue::Text(t) => t.clone(),
                    _ => {
                        return None;
                    },
                },
                None => {
                    return None;
                },
            };
            let method = match find_member(ms, "method") {
                Some(p) => match p {
                    JsonValue::Text(t) => t.clone(),
                    _ => {
                        return None;
                    },
                },
                None => {
                    return None;
                },
            };
            let params = match find_member(ms, "params") {
                Some(p) => match p {
                    JsonValue::Null => None,
                    _ => {
                        proof {
                            lemma_find_wf(vs, "params"@);
                        }
                        Some(p.duplicate())
                    },
                },
                None => None,
            };
            let id = match find_member(ms, "id") {
                None => None,
                Some(p) => match p {
                    JsonValue::Null => None,
                    JsonValue::Text(t) => Some(RpcId::StringVal(t.clone())),
                    JsonValue::UInt(n) => Some(RpcId::IntegerVal(*n)),
                    _ => {
                        return None;
                    },
                },
            };
            Some(RpcRequest { jsonrpc, method, params, id })
        },
        _ => None,
    }
}

} // verus!
