//! The built-in ping handler: answers every call with `pong!`.

use vstd::prelude::*;

use crate::base::Handler;
use crate::errors::RpcError;
use crate::json::JsonValue;
use crate::json::JsonView;
use crate::json::lemma_obj_views;
use crate::json::json_view;
use crate::json::obj_views;

verus! {

pub const PING_RPC_METHOD: &'static str = "prople.vessel.ping";

/// The model of the ping reply value.
pub open spec fn ping_reply(message: Seq<char>) -> JsonView {
    JsonView::Object(seq![("message"@, JsonView::Text(message))])
}

/// The reply payload of the ping method.
#[derive(Debug, PartialEq)]
pub struct AgentPingResponse {
    pub message: String,
}

impl AgentPingResponse {
    /// The JSON value this payload is written as.
    pub fn to_value(&self) -> (r: JsonValue)
        ensures
            r@ == ping_reply(self.message@),
    {
        let mut ms: Vec<(String, JsonValue)> = Vec::new();
        ms.push((String::from_str("message"), JsonValue::Text(self.message.clone())));
        let obj = JsonValue::Object(ms);
        proof {
            let gms = obj->Object_0@;
            lemma_obj_views(gms, 1);
            assert(obj_views(gms, 1)[0] == (gms[0].0@, json_view(gms[0].1)));
            assert(obj_views(gms, 1) =~= seq![("message"@, JsonView::Text(self.message@))]);
        }
        obj
    }
}

/// The handler serving the ping method.
#[derive(Debug, Clone, PartialEq)]
pub struct AgentPingHandler;

impl Handler for AgentPingHandler {
    /// Always succeeds, with the `pong!` payload, whatever the params.
    fn call(&self, params: JsonValue) -> (r: Result<Option<JsonValue>, RpcError>)
        ensures
            match r {
                Ok(Some(v)) => v@ == ping_reply("pong!"@),
                _ => false,
            },
    {
        let output = AgentPingResponse { message: String::from_str("pong!") };
        proof {
            let ms = seq![("message"@, JsonView::Text("pong!"@))];
            assert(ms.drop_first() =~= Seq::<(Seq<char>, JsonView)>::empty());
            assert(crate::json::wf_members(ms.drop_first()));
            assert(crate::json::wf_json(ms[0].1));
            assert(crate::json::wf_members(ms));
        }
        Ok(Some(output.to_value()))
    }
}

} // verus!
