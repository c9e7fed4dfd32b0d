//! The handler registry and the dispatch of decoded requests.

use vstd::prelude::*;

use crate::agent_ping::AgentPingHandler;
use crate::base::Handler;
use crate::base::Method;
use crate::base::Route;
use crate::errors::METHOD_NOT_FOUND_CODE;
use crate::errors::RpcError;
use crate::errors::RpcErrorBuilder;
use crate::errors::code_of;
use crate::errors::message_of;
use crate::id::RpcId;
use crate::json::JsonValue;
use crate::json::JsonView;
use crate::json::json_view;
use crate::json::wf_json;
use crate::request::ReqView;
use crate::request::RpcRequest;
use crate::request::req_parse;
use crate::request::wf_req;
use crate::response::RespView;
use crate::response::RpcResponse;
use crate::response::one_outcome;
use crate::response::resp_chars;
use crate::response::wf_resp;
use crate::transport::http_status_of;
use crate::transport::spec_http_status;

verus! {

/// The handler bound to a method name: the first binding in the list,
/// which registration keeps the latest.
pub open spec fn lookup<H>(entries: Seq<(Method, H)>, m: Seq<char>) -> Option<H>
    decreases entries,
{
    if entries.len() == 0 {
        None
    } else if entries[0].0@ == m {
        Some(entries[0].1)
    } else {
        lookup(entries.drop_first(), m)
    }
}

/// Each method is bound at most once.
pub open spec fn unique_methods<H>(entries: Seq<(Method, H)>) -> bool {
    forall|i: int, j: int| 0 <= i < j < entries.len() ==> (#[trigger] entries[i].0@) != (
    #[trigger] entries[j].0@)
}

/// A method has a binding exactly when some entry carries it.
proof fn lemma_lookup_has_key<H>(entries: Seq<(Method, H)>, m: Seq<char>)
    ensures
        (lookup(entries, m) is Some) <==> (exists|j: int|
            0 <= j < entries.len() && (#[trigger] entries[j].0@) == m),
    decreases entries,
{
    if entries.len() > 0 {
        lemma_lookup_has_key(entries.drop_first(), m);
        if entries[0].0@ == m {
        } else {
            if lookup(entries, m) is Some {
                let j0 = choose|j: int|
                    0 <= j < entries.drop_first().len() && (#[trigger] entries.drop_first()[j].0@)
                        == m;
                assert(entries[j0 + 1].0@ == m);
            }
            if exists|j: int| 0 <= j < entries.len() && (#[trigger] entries[j].0@) == m {
                let j0 = choose|j: int| 0 <= j < entries.len() && (#[trigger] entries[j].0@) == m;
                assert(entries.drop_first()[j0 - 1].0@ == m);
            }
        }
    }
}

/// Dropping an entry of one method leaves every other method's binding
/// as it was.
proof fn lemma_lookup_remove<H>(entries: Seq<(Method, H)>, idx: int, k: Seq<char>)
    requires
        0 <= idx < entries.len(),
        entries[idx].0@ != k,
    ensures
        lookup(entries.remove(idx), k) == lookup(entries, k),
    decreases entries,
{
    entries.remove_ensures(idx);
    if idx == 0 {
        assert(entries.remove(0) =~= entries.drop_first());
    } else {
        assert(entries.remove(idx)[0] == entries[0]);
        if entries[0].0@ == k {
        } else {
            lemma_lookup_remove(entries.drop_first(), idx - 1, k);
            entries.drop_first().remove_ensures(idx - 1);
            assert(entries.remove(idx).drop_first() =~= entries.drop_first().remove(idx - 1));
        }
    }
}

/// How a response reflects one handler outcome: a value is the result,
/// success without a value is a `null` result, and an error kind is the
/// error object with its reserved code and message.
pub open spec fn outcome_matches(oc: Result<Option<JsonValue>, RpcError>, resp: RespView) -> bool {
    match oc {
        Ok(Some(v)) => resp.result == Some(json_view(v)) && resp.error is None,
        Ok(None) => resp.result == Some(JsonView::Null) && resp.error is None,
        Err(e) => resp.result is None && resp.error is Some && resp.error->0.code == code_of(e)
            as int && resp.error->0.message == message_of(e) && resp.error->0.data is None,
    }
}

/// The response to a registered method reflects an actual outcome of
/// the bound handler: some call of that very handler, on the request's
/// params with `null` substituted when absent, can return an outcome —
/// witnessed by the handler's own contract, `call_ensures` — and the
/// response is that outcome's envelope.
pub open spec fn reflects_handler<H: Handler>(
    entries: Seq<(Method, H)>,
    req: ReqView,
    resp: RespView,
) -> bool {
    exists|hr: &H, p: JsonValue, oc: Result<Option<JsonValue>, RpcError>|
        {
            &&& Some(*hr) == lookup(entries, req.method)
            &&& p@ == (match req.params {
                Some(v) => v,
                None => JsonView::Null,
            })
            &&& #[trigger] call_ensures(H::call, (hr, p), oc)
            &&& outcome_matches(oc, resp)
        }
}

/// The registry of method bindings.  It is built once, during a
/// registration phase, and read-only for dispatch thereafter; the
/// bindings map each method name to at most one handler,
/// last-write-wins.
pub struct RpcProcessor<H> {
    pub handlers: Vec<(Method, H)>,
}

impl<H: Handler> RpcProcessor<H> {
    /// An empty registry.
    pub fn new() -> (r: RpcProcessor<H>)
        ensures
            r.handlers@.len() == 0,
            forall|k: Seq<char>| lookup(r.handlers@, k) is None,
            unique_methods(r.handlers@),
    {
        let handlers: Vec<(Method, H)> = Vec::new();
        RpcProcessor { handlers }
    }

    /// Binds the route's method to its handler.  Re-registering a method
    /// silently replaces the prior binding, last-write-wins: only the
    /// latest one is seen thereafter, the stale pair is dropped so the
    /// bindings count is unchanged, and every other binding is
    /// untouched.
    pub fn register_route(&mut self, route: Route<H>) -> (r: &mut RpcProcessor<H>)
        ensures
            *final(self) == *final(r),
            r.handlers@.len() == old(self).handlers@.len() + (if lookup(
                old(self).handlers@,
                route.method@,
            ) is Some {
                0int
            } else {
                1int
            }),
            lookup(r.handlers@, route.method@) == Some(route.controller.0),
            forall|k: Seq<char>| k != route.method@ ==> #[trigger] lookup(
                r.handlers@,
                k,
            ) == lookup(old(self).handlers@, k),
            unique_methods(old(self).handlers@) ==> unique_methods(r.handlers@),
    {
        let ghost entries = self.handlers@;
        let Route { method, controller } = route;
        let handler = controller.handler();

        // drop the prior binding of this method, if one is there
        let mut idx: usize = 0;
        let mut found = false;
        while idx < self.handlers.len() && !found
            invariant
                idx <= entries.len(),
                entries == self.handlers@,
                method@ == route.method@,
                forall|j: int| 0 <= j < idx ==> (#[trigger] entries[j].0@) != method@,
                found ==> idx < entries.len() && entries[idx as int].0@ == method@,
            decreases entries.len() - idx + (if found { 0int } else { 1int }),
        {
            let hit = crate::members::str_eq_str(
                self.handlers[idx].0.0.as_str(),
                method.0.as_str(),
            );
            if hit {
                found = true;
            } else {
                idx = idx + 1;
            }
        }
        proof {
            lemma_lookup_has_key(entries, method@);
        }
        if found {
            proof {
                entries.remove_ensures(idx as int);
            }
            self.handlers.remove(idx);
            proof {
                if unique_methods(entries) {
                    assert forall|j: int|
                        0 <= j < self.handlers@.len() implies (#[trigger] self.handlers@[j].0@)
                        != method@ by {
                        if j < idx {
                            assert(self.handlers@[j] == entries[j]);
                        } else {
                            assert(self.handlers@[j] == entries[j + 1]);
                        }
                    }
                }
            }
        }
        let ghost pruned = self.handlers@;
        proof {
            assert(pruned.insert(0, (method, handler))[0] == (method, handler));
            assert(pruned.insert(0, (method, handler)).drop_first() =~= pruned);
            pruned.insert_ensures(0, (method, handler));
            lemma_lookup_has_key(pruned, method@);
            if unique_methods(entries) {
                if !found {
                    assert(forall|j: int|
                        0 <= j < pruned.len() ==> (#[trigger] pruned[j].0@) != method@);
                }
                assert forall|i: int, j: int|
                    0 <= i < j < pruned.insert(0, (method, handler)).len() implies (
                #[trigger] pruned.insert(0, (method, handler))[i].0@) != (
                #[trigger] pruned.insert(0, (method, handler))[j].0@) by {
                    let ni = pruned.insert(0, (method, handler));
                    if i == 0 {
                        assert(ni[j] == pruned[j - 1]);
                        assert(pruned[j - 1].0@ != method@);
                    } else {
                        assert(ni[i] == pruned[i - 1]);
                        assert(ni[j] == pruned[j - 1]);
                        if found {
                            entries.remove_ensures(idx as int);
                            if i - 1 < idx && j - 1 < idx {
                                assert(pruned[i - 1] == entries[i - 1]);
                                assert(pruned[j - 1] == entries[j - 1]);
                            } else if i - 1 < idx {
                                assert(pruned[i - 1] == entries[i - 1]);
                                assert(pruned[j - 1] == entries[j]);
                            } else {
                                assert(pruned[i - 1] == entries[i]);
                                assert(pruned[j - 1] == entries[j]);
                            }
                        }
                    }
                }
            }
        }
        self.handlers.insert(0, (method, handler));
        proof {
            let ni = self.handlers@;
            assert(ni == pruned.insert(0, (method, handler)));
            assert forall|k: Seq<char>| k != method@ implies #[trigger] lookup(ni, k) == lookup(
                entries,
                k,
            ) by {
                assert(ni[0] == (method, handler));
                assert(lookup(ni, k) == lookup(ni.drop_first(), k));
                assert(ni.drop_first() =~= pruned);
                if found {
                    lemma_lookup_remove(entries, idx as int, k);
                }
            }
        }
        self
    }

    /// The current bindings, latest first.
    pub fn handlers(&self) -> (r: &Vec<(Method, H)>)
        ensures
            r == &self.handlers,
    {
        &self.handlers
    }

    /// The handler bound to a method name, if any.
    fn find_handler(&self, m: &String) -> (r: Option<&H>)
        ensures
            match r {
                Some(h) => lookup(self.handlers@, m@) == Some(*h),
                None => lookup(self.handlers@, m@) is None,
            },
    {
        let ghost es = self.handlers@;
        proof {
            assert(es.skip(0) =~= es);
        }
        let mut i: usize = 0;
        while i < self.handlers.len()
            invariant
                i <= es.len(),
                es == self.handlers@,
                lookup(es, m@) == lookup(es.skip(i as int), m@),
            decreases es.len() - i,
        {
            proof {
                assert(es.skip(i as int)[0] == es[i as int]);
                assert(es.skip(i as int).drop_first() =~= es.skip(i + 1));
            }
            let hit = crate::members::str_eq_str(self.handlers[i].0.0.as_str(), m.as_str());
            if hit {
                return Some(&self.handlers[i].1);
            }
            i = i + 1;
        }
        proof {
            assert(es.skip(es.len() as int).len() == 0);
        }
        None
    }

    /// Dispatches one decoded request.
    ///
    /// The response always carries protocol version `"2.0"` and echoes
    /// the request's id — byte for byte, since the id value is returned
    /// unchanged and encoding is a function of the value.  An
    /// unregistered method is answered with the method-not-found error
    /// envelope.  A registered method's response reflects an actual
    /// outcome of the bound handler, called on the request's params
    /// with `null` substituted when absent, folded into its envelope by
    /// `outcome_response`: whatever the handler's own contract promises
    /// of its outcomes therefore carries over to the response.  Every
    /// outcome, a notification included, yields a well-formed response
    /// with exactly one of result and error set: a handler failure
    /// never crosses this boundary as a fault.
    pub fn execute(&self, request: RpcRequest) -> (r: RpcResponse)
        requires
            wf_req(request@),
        ensures
            r@.jsonrpc == "2.0"@,
            r@.id == request@.id,
            one_outcome(r@),
            wf_resp(r@),
            lookup(self.handlers@, request@.method) is None ==> r@.result is None
                && r@.error is Some && r@.error->0.code == METHOD_NOT_FOUND_CODE as int
                && r@.error->0.message == message_of(RpcError::MethodNotFound)
                && r@.error->0.data is None,
            lookup(self.handlers@, request@.method) is Some ==> reflects_handler(
                self.handlers@,
                request@,
                r@,
            ),
    {
        let ghost reqv = request@;
        match self.find_handler(&request.method) {
            None => {
                let err = RpcErrorBuilder::build(RpcError::MethodNotFound, None);
                RpcResponse::with_error(Some(err), request.id)
            },
            Some(handler) => {
                let params = match request.params {
                    Some(p) => p,
                    None => JsonValue::Null,
                };
                let ghost gp = params;
                let outcome = handler.call(params);
                proof {
                    assert(call_ensures(H::call, (handler, gp), outcome));
                }
                let r = outcome_response(outcome, request.id);
                proof {
                    assert(reflects_handler(self.handlers@, reqv, r@));
                }
                r
            },
        }
    }
}

impl<H: Handler> RpcProcessor<H> {
    /// One whole exchange on the wire: decodes a request text,
    /// dispatches it, and encodes the reply beside the HTTP status the
    /// binding answers with.  A body that is no request decodes to
    /// nothing and is answered with the parse-error envelope, id
    /// `null`, and a bad-request status; a decoded request is answered
    /// exactly as `execute` answers it, with the status its error code
    /// maps to.
    pub fn execute_json(&self, body: &str) -> (r: (u16, String))
        ensures
            match req_parse(body@) {
                None => r.0 == 400 && r.1@ == resp_chars(
                    RespView {
                        jsonrpc: "2.0"@,
                        result: None,
                        error: Some(
                            crate::errors::ErrView {
                                code: crate::errors::PARSE_ERROR_CODE as int,
                                message: message_of(RpcError::ParseError),
                                data: None,
                            },
                        ),
                        id: None,
                    },
                ),
                Some(req) => exists|rv: RespView|
                    {
                        &&& r.1@ == #[trigger] resp_chars(rv)
                        &&& rv.jsonrpc == "2.0"@
                        &&& rv.id == req.id
                        &&& one_outcome(rv)
                        &&& wf_resp(rv)
                        &&& r.0 == spec_http_status(
                            match rv.error {
                                Some(e) => Some(e.code),
                                None => None,
                            },
                        )
                        &&& (lookup(self.handlers@, req.method) is None ==> rv.error is Some
                            && rv.error->0.code == METHOD_NOT_FOUND_CODE as int
                            && rv.error->0.message == message_of(RpcError::MethodNotFound))
                        &&& (lookup(self.handlers@, req.method) is Some ==> reflects_handler(
                            self.handlers@,
                            req,
                            rv,
                        ))
                    },
            },
    {
        match RpcRequest::from_json(body) {
            None => {
                let err = RpcErrorBuilder::build(RpcError::ParseError, None);
                let resp = RpcResponse::with_error(Some(err), None);
                let text = resp.to_json();
                (http_status_of(Some(crate::errors::PARSE_ERROR_CODE)), text)
            },
            Some(req) => {
                let resp = self.execute(req);
                let code = match &resp.error {
                    Some(e) => Some(e.code),
                    None => None,
                };
                let status = http_status_of(code);
                let text = resp.to_json();
                proof {
                    assert(resp_chars(resp@) == text@);
                }
                (status, text)
            },
        }
    }
}

/// Folds a handler outcome into the response envelope: a value is the
/// result; success without a value is acknowledged with a `null` result;
/// an error kind becomes the error object with its reserved code and
/// message.  The id is echoed unchanged.
pub fn outcome_response(outcome: Result<Option<JsonValue>, RpcError>, id: Option<RpcId>) -> (r:
    RpcResponse)
    requires
        match outcome {
            Ok(Some(v)) => wf_json(v@),
            _ => true,
        },
    ensures
        r@.jsonrpc == "2.0"@,
        r@.id == (match id {
            Some(i) => Some(i@),
            None => None,
        }),
        one_outcome(r@),
        wf_resp(r@),
        match outcome {
            Ok(Some(v)) => r@.result == Some(v@) && r@.error is None,
            Ok(None) => r@.result == Some(JsonView::Null) && r@.error is None,
            Err(e) => r@.result is None && r@.error is Some && r@.error->0.code == code_of(e)
                as int && r@.error->0.message == message_of(e) && r@.error->0.data is None,
        },
{
    match outcome {
        Ok(Some(v)) => RpcResponse::with_success(Some(v), id),
        Ok(None) => RpcResponse::with_success(Some(JsonValue::Null), id),
        Err(e) => {
            let err = RpcErrorBuilder::build(e, None);
            RpcResponse::with_error(Some(err), id)
        },
    }
}


impl Default for RpcProcessor<AgentPingHandler> {
    /// The registry the engine starts from: the ping method bound to
    /// its built-in handler.
    fn default() -> (r: Self)
        ensures
            r.handlers@.len() == 1,
            lookup(r.handlers@, "prople.agent.ping"@) == Some(AgentPingHandler),
            unique_methods(r.handlers@),
    {
        let mut p: RpcProcessor<AgentPingHandler> = RpcProcessor::new();
        p.register_route(Route::new(Method::from("prople.agent.ping"), AgentPingHandler));
        p
    }
}

/// Re-registering a method replaces the prior binding.  Take any two
/// successive registrations of one method — each step being exactly
/// what `register_route` ensures of the bindings: after the second,
/// only the latest handler is seen, the bindings count has not grown
/// again, and every other method's binding stands as it did before
/// either registration.
pub proof fn lemma_reregister_last_wins<H>(
    e0: Seq<(Method, H)>,
    e1: Seq<(Method, H)>,
    e2: Seq<(Method, H)>,
    m: Method,
    h1: H,
    h2: H,
)
    requires
        lookup(e1, m@) == Some(h1),
        forall|k: Seq<char>| k != m@ ==> #[trigger] lookup(e1, k) == lookup(e0, k),
        e2.len() == e1.len() + (if lookup(e1, m@) is Some {
            0int
        } else {
            1int
        }),
        lookup(e2, m@) == Some(h2),
        forall|k: Seq<char>| k != m@ ==> #[trigger] lookup(e2, k) == lookup(e1, k),
    ensures
        lookup(e2, m@) == Some(h2),
        e2.len() == e1.len(),
        forall|k: Seq<char>| k != m@ ==> #[trigger] lookup(e2, k) == lookup(e0, k),
{
}

} // verus!


