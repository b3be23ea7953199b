//! Request-dispatch core of a lightweight HTTP service framework.
//!
//! The library resolves an inbound (method, path) pair to a registered
//! handler, extracts named path parameters, and runs an ordered middleware
//! chain around that handler. Socket handling, raw HTTP parsing and body
//! buffering belong to a transport layer outside this crate: the transport
//! hands `dispatch` a method and a path and gets a response back.
//!
//! Routes and middleware are registered during a build phase on an
//! exclusively owned [`App`]; dispatch takes the app by shared reference
//! only, so the tables are immutable while requests are served.

use vstd::prelude::*;

pub mod chain;
pub mod laws;
pub mod method;
pub mod params;
pub mod pattern;
pub mod request;
pub mod response;
pub mod router;

use crate::chain::{Chain, Handler, Middleware, chain_post};
use crate::method::Method;
use crate::pattern::{conflicts, params_of, segments_of};
use crate::request::Request;
use crate::response::Response;
use crate::router::{
    RouteError, RouteView, Router, best_route, has_route, is_best, routes_wf,
};

verus! {

/// The application: shared state, the route table, and the ordered
/// middleware list. It is built once, by exclusive ownership, and then
/// serves requests by shared reference.
#[derive(Clone)]
pub struct App<State, H, M> {
    state: State,
    router: Router<H>,
    middlewares: Vec<M>,
}

impl<State: Clone, H: Handler<State>, M: Middleware<State, H>> App<State, H, M> {
    /// The registered routes.
    pub closed spec fn routes(self) -> Seq<RouteView<H>> {
        self.router@
    }

    /// The registered middleware, in registration order.
    pub closed spec fn middleware_list(self) -> Seq<M> {
        self.middlewares@
    }

    /// The shared application state.
    pub closed spec fn app_state(self) -> State {
        self.state
    }

    /// Whether the route table is conflict-free, so every request has at
    /// most one winning route.
    pub open spec fn wf(self) -> bool {
        routes_wf(self.routes())
    }

    /// An application over `state` with no routes and no middleware.
    pub fn build(state: State) -> (app: App<State, H, M>)
        ensures
            app.routes() == Seq::<RouteView<H>>::empty(),
            app.middleware_list() == Seq::<M>::empty(),
            app.app_state() == state,
            app.wf(),
    {
        let app = App { state, router: Router::new(), middlewares: Vec::new() };
        proof {
            assert(app.middleware_list() =~= Seq::<M>::empty());
        }
        app
    }

    /// Appends `middleware` to the chain: it will run after every
    /// middleware registered before it and before every one registered
    /// after it.
    pub fn with(&mut self, middleware: M)
        requires
            old(self).wf(),
        ensures
            final(self).wf(),
            final(self).middleware_list() == old(self).middleware_list().push(middleware),
            final(self).routes() == old(self).routes(),
            final(self).app_state() == old(self).app_state(),
    {
        self.middlewares.push(middleware);
    }

    /// Registers `handler` under `(method, path)`. Rejects a pattern that
    /// could tie with one already registered under the same method, and
    /// otherwise appends the route.
    pub fn route(&mut self, method: Method, path: &str, handler: H) -> (r: Result<(), RouteError>)
        requires
            old(self).wf(),
        ensures
            final(self).wf(),
            final(self).middleware_list() == old(self).middleware_list(),
            final(self).app_state() == old(self).app_state(),
            ({
                let pat = crate::pattern::pattern_of(path@);
                if exists|j: int|
                    0 <= j < old(self).routes().len() && old(self).routes()[j].method == method
                        && #[trigger] conflicts(old(self).routes()[j].pattern, pat) {
                    &&& r is Err
                    &&& final(self).routes() == old(self).routes()
                } else {
                    &&& r is Ok
                    &&& final(self).routes() == old(self).routes().push(
                        (RouteView { method, pattern: pat, handler }),
                    )
                }
            }),
    {
        self.router.route(method, path, handler)
    }

    /// Registers a handler for GET requests on `path`.
    pub fn get(&mut self, path: &str, handler: H) -> (r: Result<(), RouteError>)
        requires
            old(self).wf(),
        ensures
            final(self).wf(),
            final(self).middleware_list() == old(self).middleware_list(),
            final(self).app_state() == old(self).app_state(),
            ({
                let pat = crate::pattern::pattern_of(path@);
                if exists|j: int|
                    0 <= j < old(self).routes().len() && old(self).routes()[j].method
                        == Method::Get && #[trigger] conflicts(
                        old(self).routes()[j].pattern,
                        pat,
                    ) {
                    &&& r is Err
                    &&& final(self).routes() == old(self).routes()
                } else {
                    &&& r is Ok
                    &&& final(self).routes() == old(self).routes().push(
                        (RouteView { method: Method::Get, pattern: pat, handler }),
                    )
                }
            }),
    {
        self.router.route(Method::Get, path, handler)
    }

    /// Registers a handler for POST requests on `path`.
    pub fn post(&mut self, path: &str, handler: H) -> (r: Result<(), RouteError>)
        requires
            old(self).wf(),
        ensures
            final(self).wf(),
            final(self).middleware_list() == old(self).middleware_list(),
            final(self).app_state() == old(self).app_state(),
            ({
                let pat = crate::pattern::pattern_of(path@);
                if exists|j: int|
                    0 <= j < old(self).routes().len() && old(self).routes()[j].method
                        == Method::Post && #[trigger] conflicts(
                        old(self).routes()[j].pattern,
                        pat,
                    ) {
                    &&& r is Err
                    &&& final(self).routes() == old(self).routes()
                } else {
                    &&& r is Ok
                    &&& final(self).routes() == old(self).routes().push(
                        (RouteView { method: Method::Post, pattern: pat, handler }),
                    )
                }
            }),
    {
        self.router.route(Method::Post, path, handler)
    }

    /// Dispatches one inbound request. Resolution failure is an expected
    /// outcome: an unregistered method or path yields the not-found
    /// response, never a fault. On a match, a fresh request — carrying the
    /// method, the path, the extracted parameters and a clone of the
    /// shared state — runs through the full middleware chain in
    /// registration order into the winning route's handler, and the
    /// response is whatever that chain's relation admits.
    pub fn dispatch(&self, method: Method, path: &str) -> (r: Response)
        requires
            self.wf(),
        ensures
            !has_route(self.routes(), method, segments_of(path@)) ==> r.status == 404 && r.body@
                == "Not Found"@,
            has_route(self.routes(), method, segments_of(path@)) ==> ({
                let segs = segments_of(path@);
                let best = best_route(self.routes(), method, segs);
                &&& is_best(self.routes(), best, method, segs)
                &&& exists|q: Request<State>|
                    {
                        &&& q.method == method
                        &&& q.path@ == path@
                        &&& q.params@ == params_of(self.routes()[best].pattern, segs)
                        &&& #[trigger] chain_post(
                            self.middleware_list(),
                            self.routes()[best].handler,
                            q,
                            r,
                        )
                    }
            }),
    {
        match self.router.find(path, &method) {
            None => Response::not_found(),
            Some(mt) => {
                let req: Request<State> = Request::from_http(
                    method,
                    path.to_owned(),
                    self.state.clone(),
                    mt.params,
                );
                let chain: Chain<'_, State, H, M> = Chain::new(mt.handler, &self.middlewares);
                let resp = chain.call(req);
                proof {
                    let segs = segments_of(path@);
                    let best = best_route(self.routes(), method, segs);
                    assert(chain_post(
                        self.middleware_list(),
                        self.routes()[best].handler,
                        req,
                        resp,
                    ));
                }
                resp
            },
        }
    }

}

} // verus!
