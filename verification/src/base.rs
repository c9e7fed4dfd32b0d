//! Handlers, method names, and the route that binds one to the other.

use vstd::prelude::*;

use crate::errors::RpcError;
use crate::json::JsonValue;
use crate::json::wf_json;

verus! {

/// The unit of business logic bound to one method name.
///
/// A handler takes the request's params (JSON `null` when the request
/// carried none) and returns an optional result value — `None`
/// acknowledges completion without a payload — or an error kind for the
/// dispatcher to fold into an error envelope.  A result it does return
/// must be well-formed, so that the dispatcher's response can be
/// encoded.  One handler may serve many concurrent dispatches, so a call
/// only borrows it.
pub trait Handler: Sized {
    fn call(&self, params: JsonValue) -> (r: Result<Option<JsonValue>, RpcError>)
        ensures
            match r {
                Ok(Some(v)) => wf_json(v@),
                _ => true,
            },
    ;
}

/// A method name: the registry key.  Immutable once built.
#[derive(Debug, Clone, PartialEq, Eq, Hash)]
pub struct Method(pub String);

impl View for Method {
    type V = Seq<char>;

    open spec fn view(&self) -> Seq<char> {
        self.0@
    }
}

impl Method {
    /// A method name read from a string slice.
    pub fn from(value: &str) -> (r: Method)
        ensures
            r@ == value@,
    {
        Method(String::from_str(value))
    }

    /// The name as an owned string.
    pub fn to_string(&self) -> (r: String)
        ensures
            r@ == self@,
    {
        self.0.clone()
    }
}

/// Wraps one handler behind the registry's uniform shape.
pub struct Controller<H>(pub H);

impl<H: Handler> Controller<H> {
    pub fn new(handler: H) -> (r: Controller<H>)
        ensures
            r.0 == handler,
    {
        Controller(handler)
    }

    /// Hands the wrapped handler back out.
    pub fn handler(self) -> (r: H)
        ensures
            r == self.0,
    {
        self.0
    }
}

/// One registration: a method name and the handler bound to it.
pub struct Route<H> {
    pub method: Method,
    pub controller: Controller<H>,
}

impl<H: Handler> Route<H> {
    pub fn new(method: Method, handler: H) -> (r: Route<H>)
        ensures
            r.method@ == method@,
            r.controller.0 == handler,
    {
        Route { method, controller: Controller(handler) }
    }

    /// The method name this route binds.
    pub fn method(&self) -> (r: Method)
        ensures
            r@ == self.method@,
    {
        Method(self.method.0.clone())
    }

    /// A copy of the bound handler, for a handler that can be
    /// duplicated.
    pub fn controller(&self) -> H where H: Clone {
        self.controller.0.clone()
    }
}

} // verus!
