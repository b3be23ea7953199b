//! Route patterns: literal segments and named parameter segments.
//!
//! A pattern such as `/users/:id` is a sequence of segments. A literal
//! segment matches exactly its own text; a `:name` segment matches any
//! single non-empty path segment and binds it under `name`. Paths and
//! patterns are both cut into segments at `/`, empty pieces dropped, so
//! leading, trailing and doubled slashes do not change the segmentation.

use vstd::prelude::*;

verus! {

/// Mathematical form of one pattern segment.
pub enum SegView {
    Lit(Seq<char>),
    Par(Seq<char>),
}

/// One parsed pattern segment: a literal text or a named parameter.
#[derive(Clone, Debug)]
pub enum Segment {
    Literal(String),
    Param(String),
}

impl View for Segment {
    type V = SegView;

    open spec fn view(&self) -> SegView {
        match self {
            Segment::Literal(s) => SegView::Lit(s@),
            Segment::Param(s) => SegView::Par(s@),
        }
    }
}

impl DeepView for Segment {
    type V = SegView;

    open spec fn deep_view(&self) -> SegView {
        self.view()
    }
}

/// Index of the first `/` in `s`, or `s.len()` if there is none.
pub open spec fn first_slash(s: Seq<char>) -> int
    decreases s.len(),
{
    if s.len() == 0 {
        0
    } else if s[0] == '/' {
        0
    } else {
        1 + first_slash(s.drop_first())
    }
}

pub proof fn lemma_first_slash_bounds(s: Seq<char>)
    ensures
        0 <= first_slash(s) <= s.len(),
        forall|k: int| 0 <= k < first_slash(s) ==> s[k] != '/',
        first_slash(s) < s.len() ==> s[first_slash(s)] == '/',
    decreases s.len(),
{
    if s.len() == 0 {
    } else if s[0] == '/' {
    } else {
        lemma_first_slash_bounds(s.drop_first());
        assert forall|k: int| 0 <= k < first_slash(s) implies s[k] != '/' by {
            if k > 0 {
                assert(s.drop_first()[k - 1] == s[k]);
            }
        }
    }
}

/// `first_slash` is pinned by its characteristic properties.
pub proof fn lemma_first_slash_is(s: Seq<char>, j: int)
    requires
        0 <= j <= s.len(),
        forall|k: int| 0 <= k < j ==> s[k] != '/',
        j < s.len() ==> s[j] == '/',
    ensures
        first_slash(s) == j,
    decreases s.len(),
{
    if j == 0 {
    } else {
        assert(s[0] != '/');
        lemma_first_slash_is(s.drop_first(), j - 1);
    }
}

/// The segments of a path or pattern string: the maximal `/`-free pieces,
/// empty pieces dropped.
pub open spec fn segments_of(s: Seq<char>) -> Seq<Seq<char>>
    decreases s.len(),
    via segments_of_dec
{
    if s.len() == 0 {
        Seq::empty()
    } else if s[0] == '/' {
        segments_of(s.drop_first())
    } else {
        seq![s.subrange(0, first_slash(s))] + segments_of(
            s.subrange(first_slash(s), s.len() as int),
        )
    }
}

#[via_fn]
proof fn segments_of_dec(s: Seq<char>) {
    if s.len() > 0 && s[0] != '/' {
        lemma_first_slash_bounds(s);
    }
}

/// How one segment of a pattern string is read: a leading `:` makes it a
/// named parameter, anything else is a literal.
pub open spec fn seg_view_of(s: Seq<char>) -> SegView {
    if s.len() > 0 && s[0] == ':' {
        SegView::Par(s.drop_first())
    } else {
        SegView::Lit(s)
    }
}

/// The mathematical pattern a pattern string denotes.
pub open spec fn pattern_of(s: Seq<char>) -> Seq<SegView> {
    segments_of(s).map_values(|t: Seq<char>| seg_view_of(t))
}

/// Whether one pattern segment accepts one path segment.
pub open spec fn seg_matches(g: SegView, s: Seq<char>) -> bool {
    match g {
        SegView::Lit(l) => l == s,
        SegView::Par(_) => s.len() > 0,
    }
}

/// Whether a pattern accepts a segmented path: same length, and every
/// segment accepts its counterpart.
pub open spec fn pat_matches(p: Seq<SegView>, segs: Seq<Seq<char>>) -> bool {
    &&& p.len() == segs.len()
    &&& forall|k: int| 0 <= k < p.len() ==> seg_matches(#[trigger] p[k], segs[k])
}

/// The number of literal segments of a pattern: its specificity.
pub open spec fn lit_count(p: Seq<SegView>) -> int
    decreases p.len(),
{
    if p.len() == 0 {
        0
    } else {
        (if p[0] is Lit {
            1int
        } else {
            0int
        }) + lit_count(p.drop_first())
    }
}

pub proof fn lemma_lit_count_bounds(p: Seq<SegView>)
    ensures
        0 <= lit_count(p) <= p.len(),
    decreases p.len(),
{
    if p.len() > 0 {
        lemma_lit_count_bounds(p.drop_first());
    }
}

pub proof fn lemma_lit_count_push(p: Seq<SegView>, x: SegView)
    ensures
        lit_count(p.push(x)) == lit_count(p) + (if x is Lit {
            1int
        } else {
            0int
        }),
    decreases p.len(),
{
    if p.len() == 0 {
        assert(p.push(x)[0] == x);
        assert(p.push(x).drop_first() =~= Seq::<SegView>::empty());
        assert(lit_count(p.push(x)) == (if p.push(x)[0] is Lit {
            1int
        } else {
            0int
        }) + lit_count(p.push(x).drop_first()));
    } else {
        assert(p.push(x)[0] == p[0]);
        assert(p.push(x).drop_first() =~= p.drop_first().push(x));
        lemma_lit_count_push(p.drop_first(), x);
        assert(lit_count(p.push(x)) == (if p[0] is Lit {
            1int
        } else {
            0int
        }) + lit_count(p.drop_first().push(x)));
    }
}

/// A pattern whose specificity equals its length is all literals.
pub proof fn lemma_all_literal(p: Seq<SegView>)
    requires
        lit_count(p) == p.len(),
    ensures
        forall|k: int| 0 <= k < p.len() ==> p[k] is Lit,
    decreases p.len(),
{
    if p.len() > 0 {
        lemma_lit_count_bounds(p.drop_first());
        lemma_all_literal(p.drop_first());
        assert forall|k: int| 0 <= k < p.len() implies p[k] is Lit by {
            if k > 0 {
                assert(p.drop_first()[k - 1] == p[k]);
            }
        }
    }
}

/// Two patterns are compatible when every position at which both are
/// literal carries the same text — exactly when some path could satisfy
/// both, position by position.
pub open spec fn compatible(p: Seq<SegView>, q: Seq<SegView>) -> bool {
    forall|k: int|
        0 <= k < p.len() && 0 <= k < q.len() && (#[trigger] p[k]) is Lit && (#[trigger] q[k]) is Lit
            ==> p[k]->Lit_0 == q[k]->Lit_0
}

/// Two patterns conflict when some path could match both with equal
/// specificity, so that neither would win: a configuration error that
/// registration rejects.
pub open spec fn conflicts(p: Seq<SegView>, q: Seq<SegView>) -> bool {
    &&& p.len() == q.len()
    &&& lit_count(p) == lit_count(q)
    &&& compatible(p, q)
}

/// Two patterns that accept the same segmented path are compatible.
pub proof fn lemma_matches_compatible(p: Seq<SegView>, q: Seq<SegView>, segs: Seq<Seq<char>>)
    requires
        pat_matches(p, segs),
        pat_matches(q, segs),
    ensures
        p.len() == q.len(),
        compatible(p, q),
{
    assert forall|k: int|
        0 <= k < p.len() && 0 <= k < q.len() && (#[trigger] p[k]) is Lit && (#[trigger] q[k]) is Lit
            implies p[k]->Lit_0 == q[k]->Lit_0 by {
        assert(seg_matches(p[k], segs[k]));
        assert(seg_matches(q[k], segs[k]));
    }
}

/// The parameter bindings a matching pattern extracts, in declaration
/// order: each `:name` segment paired with the path segment it matched.
pub open spec fn params_of(p: Seq<SegView>, segs: Seq<Seq<char>>) -> Seq<(Seq<char>, Seq<char>)>
    decreases p.len(),
{
    if p.len() == 0 || segs.len() == 0 {
        Seq::empty()
    } else {
        match p[0] {
            SegView::Par(name) => seq![(name, segs[0])] + params_of(
                p.drop_first(),
                segs.drop_first(),
            ),
            SegView::Lit(_) => params_of(p.drop_first(), segs.drop_first()),
        }
    }
}

/// An all-literal pattern binds no parameters.
pub proof fn lemma_all_literal_no_params(p: Seq<SegView>, segs: Seq<Seq<char>>)
    requires
        lit_count(p) == p.len(),
    ensures
        params_of(p, segs) == Seq::<(Seq<char>, Seq<char>)>::empty(),
    decreases p.len(),
{
    if p.len() > 0 && segs.len() > 0 {
        lemma_all_literal(p);
        lemma_lit_count_bounds(p.drop_first());
        assert forall|k: int| 0 <= k < p.drop_first().len() implies p.drop_first()[k] is Lit by {
            assert(p.drop_first()[k] == p[k + 1]);
        }
        lemma_lit_count_is_len(p.drop_first());
        lemma_all_literal_no_params(p.drop_first(), segs.drop_first());
    }
}

/// A pattern all of whose segments are literal has specificity equal to
/// its length.
pub proof fn lemma_lit_count_is_len(p: Seq<SegView>)
    requires
        forall|k: int| 0 <= k < p.len() ==> (#[trigger] p[k]) is Lit,
    ensures
        lit_count(p) == p.len(),
    decreases p.len(),
{
    if p.len() > 0 {
        assert forall|k: int| 0 <= k < p.drop_first().len() implies (#[trigger] p.drop_first()[k]) is Lit by {
            assert(p.drop_first()[k] == p[k + 1]);
        }
        lemma_lit_count_is_len(p.drop_first());
    }
}

/// Cuts a path (or pattern) string into its non-empty `/`-separated
/// segments.
pub fn split_path(path: &str) -> (segs: Vec<String>)
    ensures
        segs.deep_view() == segments_of(path@),
{
    let n: usize = path.unicode_len();
    let mut segs: Vec<String> = Vec::new();
    let mut i: usize = 0;
    proof {
        assert(segs.deep_view() =~= Seq::<Seq<char>>::empty());
        assert(path@.subrange(0, n as int) =~= path@);
        assert(segs.deep_view() + segments_of(path@) =~= segments_of(path@));
    }
    while i < n
        invariant
            i <= n,
            n == path@.len(),
            segments_of(path@) == segs.deep_view() + segments_of(
                path@.subrange(i as int, n as int),
            ),
        decreases n - i,
    {
        let c = path.get_char(i);
        if c == '/' {
            proof {
                let suf = path@.subrange(i as int, n as int);
                assert(suf.drop_first() =~= path@.subrange(i as int + 1, n as int));
            }
            i = i + 1;
        } else {
            let start: usize = i;
            let mut done: bool = false;
            i = i + 1;
            while i < n && !done
                invariant
                    start < i <= n,
                    n == path@.len(),
                    path@[start as int] != '/',
                    forall|k: int| start <= k < i && k != i - 1 ==> path@[k] != '/',
                    !done ==> forall|k: int| start <= k < i ==> path@[k] != '/',
                    done ==> i - 1 < n && path@[i - 1] == '/',
                decreases n - i + (if done {
                    0int
                } else {
                    1int
                }),
            {
                let c2 = path.get_char(i);
                if c2 == '/' {
                    done = true;
                }
                i = i + 1;
            }
            let end: usize = if done {
                i - 1
            } else {
                i
            };
            let seg = path.substring_char(start, end).to_owned();
            proof {
                let suf = path@.subrange(start as int, n as int);
                let j: int = end - start;
                assert forall|k: int| 0 <= k < j implies suf[k] != '/' by {
                    assert(suf[k] == path@[start + k]);
                }
                lemma_first_slash_is(suf, j);
                assert(suf.subrange(0, j) =~= path@.subrange(start as int, end as int));
                assert(suf.subrange(j, suf.len() as int) =~= path@.subrange(end as int, n as int));
                assert(seg@ == path@.subrange(start as int, end as int));
                assert(segments_of(suf) == seq![seg@] + segments_of(
                    path@.subrange(end as int, n as int),
                ));
            }
            let ghost old_segs = segs.deep_view();
            segs.push(seg);
            proof {
                assert(segs.deep_view() =~= old_segs + seq![seg@]);
                let rest = path@.subrange(end as int, n as int);
                assert((old_segs + seq![seg@]) + segments_of(rest) =~= old_segs + (seq![seg@]
                    + segments_of(rest)));
                if done {
                    assert(rest.drop_first() =~= path@.subrange(end as int + 1, n as int));
                }
            }
            if done {
                i = end + 1;
                proof {
                    let rest = path@.subrange(end as int, n as int);
                    assert(rest[0] == '/');
                    assert(rest.drop_first() =~= path@.subrange(end as int + 1, n as int));
                }
            } else {
                i = end;
            }
        }
    }
    proof {
        assert(path@.subrange(n as int, n as int) =~= Seq::<char>::empty());
        assert(segs.deep_view() + Seq::<Seq<char>>::empty() =~= segs.deep_view());
    }
    segs
}

/// Parses a pattern string into its segments, reading a leading `:` as a
/// named parameter.
pub fn parse_pattern(pattern: &str) -> (segs: Vec<Segment>)
    ensures
        segs.deep_view() == pattern_of(pattern@),
{
    let raw = split_path(pattern);
    let mut out: Vec<Segment> = Vec::new();
    let mut idx: usize = 0;
    while idx < raw.len()
        invariant
            idx <= raw.len(),
            raw.deep_view() == segments_of(pattern@),
            out.deep_view().len() == idx,
            forall|k: int| 0 <= k < idx ==> out.deep_view()[k] == pattern_of(pattern@)[k],
        decreases raw.len() - idx,
    {
        let s: &String = &raw[idx];
        let len: usize = s.as_str().unicode_len();
        proof {
            assert(raw.deep_view()[idx as int] == raw@[idx as int]@);
            assert(pattern_of(pattern@)[idx as int] == seg_view_of(
                segments_of(pattern@)[idx as int],
            ));
        }
        let seg: Segment = if len > 0 && s.as_str().get_char(0) == ':' {
            let name = s.as_str().substring_char(1, len).to_owned();
            proof {
                assert(name@ =~= s@.drop_first());
            }
            Segment::Param(name)
        } else {
            Segment::Literal(s.clone())
        };
        proof {
            assert(seg@ == seg_view_of(s@));
        }
        let ghost old_dv = out.deep_view();
        out.push(seg);
        proof {
            assert forall|k: int| 0 <= k < idx + 1 implies out.deep_view()[k] == pattern_of(
                pattern@,
            )[k] by {
                if k < idx {
                    assert(out.deep_view()[k] == old_dv[k]);
                } else {
                    assert(out.deep_view()[k] == seg@);
                }
            }
        }
        idx = idx + 1;
    }
    proof {
        assert(out.deep_view() =~= pattern_of(pattern@));
    }
    out
}

/// Counts the literal segments of a parsed pattern: its specificity.
pub fn count_literals(p: &Vec<Segment>) -> (c: usize)
    ensures
        c == lit_count(p.deep_view()),
{
    proof {
        lemma_lit_count_bounds(p.deep_view());
    }
    let mut c: usize = 0;
    let mut k: usize = 0;
    proof {
        assert(p.deep_view().subrange(0, 0) =~= Seq::<SegView>::empty());
    }
    while k < p.len()
        invariant
            k <= p.len(),
            p.deep_view().len() == p.len(),
            c == lit_count(p.deep_view().subrange(0, k as int)),
            c <= k,
        decreases p.len() - k,
    {
        proof {
            lemma_lit_count_push(p.deep_view().subrange(0, k as int), p.deep_view()[k as int]);
            assert(p.deep_view().subrange(0, k as int).push(p.deep_view()[k as int])
                =~= p.deep_view().subrange(0, k as int + 1));
        }
        match &p[k] {
            Segment::Literal(_) => {
                c = c + 1;
            },
            Segment::Param(_) => {
            },
        }
        k = k + 1;
    }
    proof {
        assert(p.deep_view().subrange(0, p.len() as int) =~= p.deep_view());
    }
    c
}

/// Whether a parsed pattern accepts a segmented path.
pub fn pattern_matches(p: &Vec<Segment>, segs: &Vec<String>) -> (b: bool)
    ensures
        b == pat_matches(p.deep_view(), segs.deep_view()),
{
    if p.len() != segs.len() {
        return false;
    }
    let mut k: usize = 0;
    while k < p.len()
        invariant
            k <= p.len(),
            p.len() == segs.len(),
            p.deep_view().len() == p.len(),
            segs.deep_view().len() == segs.len(),
            forall|t: int|
                0 <= t < k ==> seg_matches(#[trigger] p.deep_view()[t], segs.deep_view()[t]),
        decreases p.len() - k,
    {
        let sv: &String = &segs[k];
        let ok: bool = match &p[k] {
            Segment::Literal(l) => *l == *sv,
            Segment::Param(_) => !sv.as_str().is_empty(),
        };
        if !ok {
            proof {
                assert(!seg_matches(p.deep_view()[k as int], segs.deep_view()[k as int]));
            }
            return false;
        }
        k = k + 1;
    }
    true
}

/// Whether two parsed patterns conflict: equal length, equal specificity,
/// and compatible literals.
pub fn patterns_conflict(p: &Vec<Segment>, q: &Vec<Segment>) -> (b: bool)
    ensures
        b == conflicts(p.deep_view(), q.deep_view()),
{
    if p.len() != q.len() {
        return false;
    }
    if count_literals(p) != count_literals(q) {
        return false;
    }
    let mut k: usize = 0;
    while k < p.len()
        invariant
            k <= p.len(),
            p.len() == q.len(),
            p.deep_view().len() == p.len(),
            q.deep_view().len() == q.len(),
            lit_count(p.deep_view()) == lit_count(q.deep_view()),
            forall|t: int|
                0 <= t < k && (#[trigger] p.deep_view()[t]) is Lit && (#[trigger] q.deep_view()[t]) is Lit
                    ==> p.deep_view()[t]->Lit_0 == q.deep_view()[t]->Lit_0,
        decreases p.len() - k,
    {
        let incompatible: bool = match (&p[k], &q[k]) {
            (Segment::Literal(a), Segment::Literal(b)) => !(*a == *b),
            _ => false,
        };
        if incompatible {
            proof {
                assert((p.deep_view()[k as int]) is Lit && (q.deep_view()[k as int]) is Lit
                    && p.deep_view()[k as int]->Lit_0 != q.deep_view()[k as int]->Lit_0);
            }
            return false;
        }
        k = k + 1;
    }
    true
}

} // verus!
