//! Continuation-based composition of ordered middleware around a handler.
//!
//! The chain for one request pairs the terminal handler with the suffix of
//! the middleware list that has not run yet. Calling it either invokes the
//! handler (empty suffix) or invokes the first remaining middleware with a
//! continuation over the rest: a right fold over the middleware sequence
//! with the handler as base case. A chain is consumed by its one call, so
//! a middleware cannot invoke its continuation twice.
//!
//! Handlers and middleware are capabilities the library's users supply, so
//! each describes its own behaviour: an implementor states in its `post`
//! relation what holds of its response (a relation, not a function, since
//! a capability may be stateful), and `post` that is always true remains
//! available for one that promises nothing. The chain's contract then ties
//! the dispatched response to the right capability: the handler's `post`
//! when no middleware remains, otherwise the first remaining middleware's
//! `post` over the untouched request, exactly the rest of the list, and
//! the same handler.

use vstd::prelude::*;
use core::marker::PhantomData;
use crate::request::Request;
use crate::response::Response;

verus! {

/// A terminal capability: turns a request into a response.
pub trait Handler<State> {
    /// What this handler promises of its response. The default promises
    /// nothing; an implementor that wants its behaviour visible to
    /// verified callers overrides it.
    open spec fn post(&self, req: Request<State>, r: Response) -> bool {
        true
    }

    fn call(&self, req: Request<State>) -> (r: Response)
        ensures
            self.post(req, r),
    ;
}

/// A wrapping capability: sees the request before the rest of the chain
/// and the response after it, and may short-circuit by answering without
/// invoking `next`.
pub trait Middleware<State, H: Handler<State>>: Sized {
    /// What this middleware promises of its response, given the request,
    /// the middleware remaining after it, and the terminal handler. The
    /// default promises nothing; an implementor that wants its behaviour
    /// visible to verified callers overrides it.
    open spec fn post(&self, req: Request<State>, rest: Seq<Self>, handler: H, r: Response) -> bool {
        true
    }

    fn call(&self, req: Request<State>, next: Chain<'_, State, H, Self>) -> (r: Response)
        ensures
            self.post(req, next.remaining(), next.handler_of(), r),
    ;
}

/// What the rest of a chain promises of a response: the handler's own
/// relation once no middleware remains, otherwise the first remaining
/// middleware's relation over the rest and the handler.
pub open spec fn chain_post<State, H: Handler<State>, M: Middleware<State, H>>(
    mids: Seq<M>,
    handler: H,
    req: Request<State>,
    r: Response,
) -> bool {
    if mids.len() == 0 {
        handler.post(req, r)
    } else {
        mids[0].post(req, mids.drop_first(), handler, r)
    }
}

/// The per-request continuation: the handler, the shared middleware list,
/// and the position of the first middleware that has not run yet. The
/// underlying list is borrowed, never copied, and never mutated.
pub struct Chain<'a, State, H, M> {
    handler: &'a H,
    middlewares: &'a Vec<M>,
    position: usize,
    marker: PhantomData<State>,
}

impl<'a, State, H, M> Chain<'a, State, H, M> {
    /// The middleware that have not run yet, in the order they will run.
    pub closed spec fn remaining(self) -> Seq<M> {
        if self.position as int <= self.middlewares@.len() {
            self.middlewares@.skip(self.position as int)
        } else {
            Seq::empty()
        }
    }

    /// The terminal handler the chain ends in.
    pub closed spec fn handler_of(self) -> H {
        *self.handler
    }
}

impl<'a, State, H: Handler<State>, M: Middleware<State, H>> Chain<'a, State, H, M> {
    /// The chain for a fresh request: every middleware still to run,
    /// ending in `handler`.
    pub fn new(handler: &'a H, middlewares: &'a Vec<M>) -> (c: Chain<'a, State, H, M>)
        ensures
            c.remaining() == middlewares@,
            c.handler_of() == *handler,
    {
        let c = Chain { handler, middlewares, position: 0, marker: PhantomData };
        proof {
            assert(c.remaining() =~= middlewares@);
        }
        c
    }

    /// Runs the rest of the chain on `req`: the first remaining middleware
    /// with a continuation over the rest, or the handler once none
    /// remains. Middleware run in registration order; one that does not
    /// invoke its continuation keeps everything after it, handler
    /// included, from running. The response is whatever the deciding
    /// capability's own relation admits.
    pub fn call(self, req: Request<State>) -> (r: Response)
        ensures
            chain_post(self.remaining(), self.handler_of(), req, r),
    {
        if self.position < self.middlewares.len() {
            let m: &M = &self.middlewares[self.position];
            let next = Chain {
                handler: self.handler,
                middlewares: self.middlewares,
                position: self.position + 1,
                marker: PhantomData,
            };
            proof {
                assert(self.remaining()[0] == self.middlewares@[self.position as int]);
                assert(next.remaining() =~= self.remaining().drop_first());
            }
            m.call(req, next)
        } else {
            proof {
                assert(self.remaining() =~= Seq::<M>::empty());
            }
            self.handler.call(req)
        }
    }
}

} // verus!
