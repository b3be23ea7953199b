//! Method- and pattern-keyed handler resolution.
//!
//! Each route binds a handler to one (method, pattern) pair. Resolution is
//! partitioned by method first; within a method the pattern with the most
//! literal segments among those accepting the path wins. Two patterns that
//! some path could satisfy with equal specificity would leave no winner,
//! so registration rejects the second as a configuration error.

use vstd::prelude::*;
use crate::method::Method;
use crate::params::Params;
use crate::pattern::{
    SegView, Segment, conflicts, lemma_matches_compatible, lit_count, params_of, parse_pattern,
    pat_matches, pattern_matches, pattern_of, patterns_conflict, count_literals, segments_of,
    split_path,
};

verus! {

/// Mathematical form of one registered route.
pub struct RouteView<H> {
    pub method: Method,
    pub pattern: Seq<SegView>,
    pub handler: H,
}

/// One registered route: a handler bound to a method and a parsed pattern.
#[derive(Clone)]
struct Route<H> {
    method: Method,
    pattern: Vec<Segment>,
    handler: H,
}

impl<H> View for Route<H> {
    type V = RouteView<H>;

    closed spec fn view(&self) -> RouteView<H> {
        RouteView { method: self.method, pattern: self.pattern.deep_view(), handler: self.handler }
    }
}

impl<H> DeepView for Route<H> {
    type V = RouteView<H>;

    open spec fn deep_view(&self) -> RouteView<H> {
        self.view()
    }
}

/// Whether route `i` of `rs` accepts a request under method `m` whose
/// path has segments `segs`.
pub open spec fn route_accepts<H>(
    rs: Seq<RouteView<H>>,
    i: int,
    m: Method,
    segs: Seq<Seq<char>>,
) -> bool {
    &&& 0 <= i < rs.len()
    &&& rs[i].method == m
    &&& pat_matches(rs[i].pattern, segs)
}

/// Whether any route of `rs` accepts the request.
pub open spec fn has_route<H>(rs: Seq<RouteView<H>>, m: Method, segs: Seq<Seq<char>>) -> bool {
    exists|i: int| route_accepts(rs, i, m, segs)
}

/// Whether route `i` accepts the request and is strictly more specific
/// than every other accepting route.
pub open spec fn is_best<H>(rs: Seq<RouteView<H>>, i: int, m: Method, segs: Seq<Seq<char>>) -> bool {
    &&& route_accepts(rs, i, m, segs)
    &&& forall|j: int|
        #[trigger] route_accepts(rs, j, m, segs) && j != i ==> lit_count(rs[j].pattern) < lit_count(
            rs[i].pattern,
        )
}

/// The index of the winning route, where one exists.
pub open spec fn best_route<H>(rs: Seq<RouteView<H>>, m: Method, segs: Seq<Seq<char>>) -> int {
    choose|i: int| is_best(rs, i, m, segs)
}

/// A conflict-free route table: no two routes under one method could tie.
pub open spec fn routes_wf<H>(rs: Seq<RouteView<H>>) -> bool {
    forall|i: int, j: int|
        0 <= i < j < rs.len() && rs[i].method == rs[j].method ==> !#[trigger] conflicts(
            rs[i].pattern,
            rs[j].pattern,
        )
}

/// At most one route is strictly most specific.
pub proof fn lemma_best_unique<H>(rs: Seq<RouteView<H>>, a: int, b: int, m: Method, segs: Seq<Seq<char>>)
    requires
        is_best(rs, a, m, segs),
        is_best(rs, b, m, segs),
    ensures
        a == b,
{
    if a != b {
        assert(lit_count(rs[a].pattern) < lit_count(rs[b].pattern));
        assert(lit_count(rs[b].pattern) < lit_count(rs[a].pattern));
    }
}

/// Rejected at registration: a second pattern under the same method that
/// some request could match as specifically as an existing one.
#[derive(Clone, Copy, Debug, PartialEq, Eq, Structural)]
pub enum RouteError {
    Conflict,
}

/// A successful resolution: the bound handler and the parameters the
/// pattern extracted, in declaration order.
pub struct Match<'a, H> {
    pub handler: &'a H,
    pub params: Params,
}

/// The route table. It is built once, route by route, and then only read:
/// resolution takes it by shared reference.
#[derive(Clone)]
pub struct Router<H> {
    routes: Vec<Route<H>>,
}

impl<H> View for Router<H> {
    type V = Seq<RouteView<H>>;

    closed spec fn view(&self) -> Seq<RouteView<H>> {
        self.routes.deep_view()
    }
}

impl<H> Router<H> {
    /// Whether the table could still leave every request with at most one
    /// winning route: established at construction, preserved by
    /// registration.
    pub open spec fn wf(self) -> bool {
        routes_wf(self@)
    }

    /// An empty route table.
    pub fn new() -> (r: Router<H>)
        ensures
            r@ == Seq::<RouteView<H>>::empty(),
            r.wf(),
    {
        let r = Router { routes: Vec::new() };
        proof {
            assert(r@ =~= Seq::<RouteView<H>>::empty());
        }
        r
    }

    /// Registers `handler` under `(method, path)`. Rejects a pattern that
    /// could tie with one already registered under the same method, and
    /// otherwise appends the route.
    pub fn route(&mut self, method: Method, path: &str, handler: H) -> (r: Result<(), RouteError>)
        requires
            old(self).wf(),
        ensures
            final(self).wf(),
            ({
                let pat = pattern_of(path@);
                if exists|j: int|
                    0 <= j < old(self)@.len() && old(self)@[j].method == method && #[trigger] conflicts(
                        old(self)@[j].pattern,
                        pat,
                    ) {
                    &&& r is Err
                    &&& final(self)@ == old(self)@
                } else {
                    &&& r is Ok
                    &&& final(self)@ == old(self)@.push(
                        (RouteView { method, pattern: pat, handler }),
                    )
                }
            }),
    {
        let pat = parse_pattern(path);
        let ghost gpat = pattern_of(path@);
        let mut j: usize = 0;
        let n: usize = self.routes.len();
        while j < n
            invariant
                j <= n,
                n == self.routes.len(),
                pat.deep_view() == gpat,
                gpat == pattern_of(path@),
                self == old(self),
                old(self).wf(),
                self@.len() == self.routes.len(),
                forall|t: int|
                    0 <= t < j ==> !(self@[t].method == method && #[trigger] conflicts(
                        self@[t].pattern,
                        gpat,
                    )),
            decreases n - j,
        {
            proof {
                assert(self@[j as int] == self.routes@[j as int]@);
            }
            if self.routes[j].method == method {
                if patterns_conflict(&self.routes[j].pattern, &pat) {
                    proof {
                        assert(0 <= j < old(self)@.len() && old(self)@[j as int].method == method
                            && conflicts(old(self)@[j as int].pattern, gpat));
                    }
                    return Err(RouteError::Conflict);
                }
            }
            j = j + 1;
        }
        let ghost old_view = self@;
        self.routes.push(Route { method, pattern: pat, handler });
        proof {
            assert(self@ =~= old_view.push((RouteView { method, pattern: gpat, handler })));
            assert forall|a: int, b: int|
                0 <= a < b < self@.len() && self@[a].method == self@[b].method implies !#[trigger] conflicts(
                self@[a].pattern,
                self@[b].pattern,
            ) by {
                if b < old_view.len() {
                    assert(old_view[a] == self@[a]);
                    assert(old_view[b] == self@[b]);
                } else {
                    assert(self@[b] == (RouteView { method, pattern: gpat, handler }));
                    assert(self@[a] == old_view[a]);
                }
            }
        }
        Ok(())
    }

    /// Registers a handler for GET requests on `path`.
    pub fn get(&mut self, path: &str, handler: H) -> (r: Result<(), RouteError>)
        requires
            old(self).wf(),
        ensures
            final(self).wf(),
            ({
                let pat = pattern_of(path@);
                if exists|j: int|
                    0 <= j < old(self)@.len() && old(self)@[j].method == Method::Get
                        && #[trigger] conflicts(old(self)@[j].pattern, pat) {
                    &&& r is Err
                    &&& final(self)@ == old(self)@
                } else {
                    &&& r is Ok
                    &&& final(self)@ == old(self)@.push(
                        (RouteView { method: Method::Get, pattern: pat, handler }),
                    )
                }
            }),
    {
        self.route(Method::Get, path, handler)
    }

    /// Registers a handler for POST requests on `path`.
    pub fn post(&mut self, path: &str, handler: H) -> (r: Result<(), RouteError>)
        requires
            old(self).wf(),
        ensures
            final(self).wf(),
            ({
                let pat = pattern_of(path@);
                if exists|j: int|
                    0 <= j < old(self)@.len() && old(self)@[j].method == Method::Post
                        && #[trigger] conflicts(old(self)@[j].pattern, pat) {
                    &&& r is Err
                    &&& final(self)@ == old(self)@
                } else {
                    &&& r is Ok
                    &&& final(self)@ == old(self)@.push(
                        (RouteView { method: Method::Post, pattern: pat, handler }),
                    )
                }
            }),
    {
        self.route(Method::Post, path, handler)
    }

    /// Resolves a request path under a method: `Some` exactly when some
    /// route accepts it, and then the winning route's handler together
    /// with the parameters its pattern extracted.
    pub fn find<'a>(&'a self, path: &str, method: &Method) -> (r: Option<Match<'a, H>>)
        requires
            self.wf(),
        ensures
            (r is Some) == has_route(self@, *method, segments_of(path@)),
            r matches Some(mt) ==> ({
                let segs = segments_of(path@);
                let best = best_route(self@, *method, segs);
                &&& is_best(self@, best, *method, segs)
                &&& *mt.handler == self@[best].handler
                &&& mt.params@ == params_of(self@[best].pattern, segs)
            }),
    {
        let segs = split_path(path);
        let ghost gsegs = segments_of(path@);
        let n: usize = self.routes.len();
        let mut best_i: usize = 0;
        let mut best_lc: usize = 0;
        let mut have: bool = false;
        let mut k: usize = 0;
        while k < n
            invariant
                k <= n,
                n == self.routes.len(),
                self@.len() == self.routes.len(),
                self.wf(),
                segs.deep_view() == gsegs,
                !have ==> forall|t: int| 0 <= t < k ==> !route_accepts(self@, t, *method, gsegs),
                have ==> ({
                    &&& best_i < k
                    &&& route_accepts(self@, best_i as int, *method, gsegs)
                    &&& best_lc == lit_count(self@[best_i as int].pattern)
                    &&& forall|t: int|
                        0 <= t < k && t != best_i && #[trigger] route_accepts(
                            self@,
                            t,
                            *method,
                            gsegs,
                        ) ==> lit_count(self@[t].pattern) < best_lc
                }),
            decreases n - k,
        {
            proof {
                assert(self@[k as int] == self.routes@[k as int]@);
            }
            if self.routes[k].method == *method {
                if pattern_matches(&self.routes[k].pattern, &segs) {
                    let lc = count_literals(&self.routes[k].pattern);
                    if !have {
                        have = true;
                        best_i = k;
                        best_lc = lc;
                    } else if lc > best_lc {
                        best_i = k;
                        best_lc = lc;
                    } else {
                        proof {
                            if lc == best_lc {
                                lemma_matches_compatible(
                                    self@[best_i as int].pattern,
                                    self@[k as int].pattern,
                                    gsegs,
                                );
                                assert(conflicts(
                                    self@[best_i as int].pattern,
                                    self@[k as int].pattern,
                                ));
                                assert(false);
                            }
                        }
                    }
                }
            }
            k = k + 1;
        }
        if have {
            proof {
                assert(is_best(self@, best_i as int, *method, gsegs));
                lemma_best_unique(
                    self@,
                    best_i as int,
                    best_route(self@, *method, gsegs),
                    *method,
                    gsegs,
                );
            }
            let params = Params::extract(&self.routes[best_i].pattern, &segs);
            Some(Match { handler: &self.routes[best_i].handler, params })
        } else {
            None
        }
    }
}

} // verus!
