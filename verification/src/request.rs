//! The per-request value handed to middleware and handlers.

use vstd::prelude::*;
use crate::method::Method;
use crate::params::Params;

verus! {

/// One inbound request: its method and path as the transport reported
/// them, the parameters routing extracted, and a handle to the shared
/// application state. Built fresh for each inbound call and discarded
/// after the response is produced.
pub struct Request<State> {
    pub method: Method,
    pub path: String,
    pub params: Params,
    pub state: State,
}

impl<State> Request<State> {
    /// Assembles a request from the values the transport and the router
    /// produced.
    pub fn from_http(method: Method, path: String, state: State, params: Params) -> (r: Request<
        State,
    >)
        ensures
            r.method == method,
            r.path == path,
            r.params == params,
            r.state == state,
    {
        Request { method, path, params, state }
    }

    /// The request's method.
    pub fn method(&self) -> (m: &Method)
        ensures
            *m == self.method,
    {
        &self.method
    }

    /// The request's path.
    pub fn url(&self) -> (p: String)
        ensures
            p@ == self.path@,
    {
        self.path.clone()
    }

    /// The parameters the route's pattern extracted.
    pub fn params(&self) -> (p: &Params)
        ensures
            *p == self.params,
    {
        &self.params
    }

    /// The shared application state.
    pub fn state(&self) -> (s: &State)
        ensures
            *s == self.state,
    {
        &self.state
    }
}

} // verus!
