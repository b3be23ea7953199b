//! Laws of route resolution, stated and proved once for all route tables.

use vstd::prelude::*;
use crate::method::Method;
use crate::params::lookup;
use crate::pattern::{
    SegView, conflicts, lemma_all_literal_no_params, lemma_lit_count_bounds,
    lemma_matches_compatible, lit_count, params_of, pat_matches, seg_matches,
};
use crate::router::{
    RouteView, best_route, has_route, is_best, lemma_best_unique, route_accepts, routes_wf,
};

verus! {

/// A route registered under an all-literal pattern wins resolution of the
/// very path it was registered for, and extracts no parameters: in a
/// conflict-free table, no other route can accept that path as
/// specifically.
pub proof fn lemma_literal_route_wins<H>(
    rs: Seq<RouteView<H>>,
    i: int,
    m: Method,
    segs: Seq<Seq<char>>,
)
    requires
        routes_wf(rs),
        0 <= i < rs.len(),
        rs[i].method == m,
        lit_count(rs[i].pattern) == rs[i].pattern.len(),
        pat_matches(rs[i].pattern, segs),
    ensures
        has_route(rs, m, segs),
        is_best(rs, i, m, segs),
        best_route(rs, m, segs) == i,
        params_of(rs[i].pattern, segs) == Seq::<(Seq<char>, Seq<char>)>::empty(),
{
    assert(route_accepts(rs, i, m, segs));
    assert forall|j: int| #[trigger] route_accepts(rs, j, m, segs) && j != i implies lit_count(
        rs[j].pattern,
    ) < lit_count(rs[i].pattern) by {
        lemma_matches_compatible(rs[i].pattern, rs[j].pattern, segs);
        lemma_matches_compatible(rs[j].pattern, rs[i].pattern, segs);
        lemma_lit_count_bounds(rs[j].pattern);
        if lit_count(rs[j].pattern) == lit_count(rs[i].pattern) {
            if i < j {
                assert(conflicts(rs[i].pattern, rs[j].pattern));
            } else {
                assert(conflicts(rs[j].pattern, rs[i].pattern));
            }
        }
    }
    assert(is_best(rs, i, m, segs));
    lemma_best_unique(rs, i, best_route(rs, m, segs), m, segs);
    lemma_all_literal_no_params(rs[i].pattern, segs);
}

/// A method with no registered route resolves nothing: resolution is
/// partitioned by method first.
pub proof fn lemma_unknown_method_no_route<H>(rs: Seq<RouteView<H>>, m: Method, segs: Seq<Seq<char>>)
    requires
        forall|i: int| 0 <= i < rs.len() ==> (#[trigger] rs[i].method) != m,
    ensures
        !has_route(rs, m, segs),
{
}

/// A path no pattern of the method accepts resolves nothing — a normal
/// outcome a caller can branch on, never a fault.
pub proof fn lemma_unmatched_path_no_route<H>(rs: Seq<RouteView<H>>, m: Method, segs: Seq<Seq<char>>)
    requires
        forall|i: int|
            0 <= i < rs.len() && rs[i].method == m ==> !pat_matches(#[trigger] rs[i].pattern, segs),
    ensures
        !has_route(rs, m, segs),
{
}

/// A matched parameter is retrievable under its name: when segment `k` of
/// a matching pattern is the first one named `name`, looking `name` up in
/// the extracted parameters yields exactly the path segment it matched.
pub proof fn lemma_param_binding(p: Seq<SegView>, segs: Seq<Seq<char>>, k: int, name: Seq<char>)
    requires
        pat_matches(p, segs),
        0 <= k < p.len(),
        p[k] == SegView::Par(name),
        forall|t: int| 0 <= t < k ==> p[t] != SegView::Par(name),
    ensures
        lookup(params_of(p, segs), name) == Some(segs[k]),
    decreases k,
{
    let rest_p = p.drop_first();
    let rest_s = segs.drop_first();
    if k == 0 {
        assert(params_of(p, segs)[0] == (name, segs[0]));
    } else {
        assert(pat_matches(rest_p, rest_s)) by {
            assert forall|t: int| 0 <= t < rest_p.len() implies seg_matches(
                #[trigger] rest_p[t],
                rest_s[t],
            ) by {
                assert(rest_p[t] == p[t + 1] && rest_s[t] == segs[t + 1]);
                assert(seg_matches(p[t + 1], segs[t + 1]));
            }
        }
        assert(rest_p[k - 1] == p[k]);
        assert forall|t: int| 0 <= t < k - 1 implies rest_p[t] != SegView::Par(name) by {
            assert(rest_p[t] == p[t + 1]);
        }
        lemma_param_binding(rest_p, rest_s, k - 1, name);
        assert(rest_s[k - 1] == segs[k]);
        match p[0] {
            SegView::Par(other) => {
                assert(other != name);
                let ps = params_of(p, segs);
                assert(ps == seq![(other, segs[0])] + params_of(rest_p, rest_s));
                assert(ps[0] == (other, segs[0]));
                assert(ps.drop_first() =~= params_of(rest_p, rest_s));
            },
            SegView::Lit(_) => {
                assert(params_of(p, segs) == params_of(rest_p, rest_s));
            },
        }
    }
}

/// In a conflict-free table the winning route is unique: whichever index
/// is most specific is the one resolution names.
pub proof fn lemma_winner_unique<H>(rs: Seq<RouteView<H>>, i: int, m: Method, segs: Seq<Seq<char>>)
    requires
        is_best(rs, i, m, segs),
    ensures
        best_route(rs, m, segs) == i,
{
    lemma_best_unique(rs, i, best_route(rs, m, segs), m, segs);
}

} // verus!
