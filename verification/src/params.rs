//! The ordered name-to-value mapping a successful route match extracts.

use vstd::prelude::*;
use crate::pattern::{SegView, Segment, params_of};

verus! {

/// One extracted parameter: the `:name` of the pattern segment and the
/// path segment it matched.
#[derive(Clone, Debug)]
pub(crate) struct Binding {
    pub(crate) name: String,
    pub(crate) value: String,
}

spec fn bindings_view(items: Seq<Binding>) -> Seq<(Seq<char>, Seq<char>)> {
    Seq::new(items.len(), |i: int| (items[i].name@, items[i].value@))
}

/// The parameters a match extracted, in pattern declaration order.
#[derive(Clone, Debug)]
pub struct Params {
    items: Vec<Binding>,
}

impl View for Params {
    type V = Seq<(Seq<char>, Seq<char>)>;

    closed spec fn view(&self) -> Seq<(Seq<char>, Seq<char>)> {
        bindings_view(self.items@)
    }
}

/// The value bound to `name`: the first binding under that name, if any.
pub open spec fn lookup(ps: Seq<(Seq<char>, Seq<char>)>, name: Seq<char>) -> Option<Seq<char>>
    decreases ps.len(),
{
    if ps.len() == 0 {
        None
    } else if ps[0].0 == name {
        Some(ps[0].1)
    } else {
        lookup(ps.drop_first(), name)
    }
}

impl Params {
    /// A mapping with no bindings.
    pub fn empty() -> (r: Params)
        ensures
            r@ == Seq::<(Seq<char>, Seq<char>)>::empty(),
    {
        let r = Params { items: Vec::new() };
        proof {
            assert(r@ =~= Seq::<(Seq<char>, Seq<char>)>::empty());
        }
        r
    }

    /// The number of bindings.
    pub fn len(&self) -> (n: usize)
        ensures
            n == self@.len(),
    {
        self.items.len()
    }

    /// Whether no parameter was bound.
    pub fn is_empty(&self) -> (b: bool)
        ensures
            b == (self@.len() == 0),
    {
        self.items.len() == 0
    }

    /// The value bound to `name`, or `None` if the pattern declared no
    /// such parameter.
    pub fn find(&self, name: &str) -> (r: Option<&String>)
        ensures
            (r is Some) == (lookup(self@, name@) is Some),
            r matches Some(v) ==> lookup(self@, name@) == Some(v@),
    {
        let wanted: String = name.to_owned();
        let mut i: usize = 0;
        proof {
            assert(self@.subrange(0, self@.len() as int) =~= self@);
        }
        while i < self.items.len()
            invariant
                i <= self.items.len(),
                wanted@ == name@,
                self@.len() == self.items.len(),
                lookup(self@, name@) == lookup(self@.subrange(i as int, self@.len() as int), name@),
            decreases self.items.len() - i,
        {
            proof {
                let suf = self@.subrange(i as int, self@.len() as int);
                assert(suf[0] == (self.items@[i as int].name@, self.items@[i as int].value@));
                assert(suf.drop_first() =~= self@.subrange(i as int + 1, self@.len() as int));
            }
            if self.items[i].name == wanted {
                return Some(&self.items[i].value);
            }
            i = i + 1;
        }
        proof {
            assert(self@.subrange(self@.len() as int, self@.len() as int) =~= Seq::<(
                Seq<char>,
                Seq<char>,
            )>::empty());
        }
        None
    }

    /// Walks a matching pattern and path side by side and records, in
    /// declaration order, each `:name` segment with the path segment it
    /// matched.
    pub(crate) fn extract(p: &Vec<Segment>, segs: &Vec<String>) -> (r: Params)
        requires
            p.deep_view().len() == segs.deep_view().len(),
        ensures
            r@ == params_of(p.deep_view(), segs.deep_view()),
    {
        let ghost gp = p.deep_view();
        let ghost gs = segs.deep_view();
        let mut items: Vec<Binding> = Vec::new();
        let mut k: usize = 0;
        proof {
            assert(gp.subrange(0, gp.len() as int) =~= gp);
            assert(gs.subrange(0, gs.len() as int) =~= gs);
            assert(bindings_view(items@) =~= Seq::<(Seq<char>, Seq<char>)>::empty());
        }
        while k < p.len()
            invariant
                k <= p.len(),
                p.len() == segs.len(),
                gp == p.deep_view(),
                gs == segs.deep_view(),
                gp.len() == p.len(),
                gs.len() == segs.len(),
                params_of(gp, gs) == bindings_view(items@) + params_of(
                    gp.subrange(k as int, gp.len() as int),
                    gs.subrange(k as int, gs.len() as int),
                ),
            decreases p.len() - k,
        {
            let ghost sub_p = gp.subrange(k as int, gp.len() as int);
            let ghost sub_s = gs.subrange(k as int, gs.len() as int);
            proof {
                assert(sub_p[0] == gp[k as int]);
                assert(sub_s[0] == gs[k as int]);
                assert(sub_p.drop_first() =~= gp.subrange(k as int + 1, gp.len() as int));
                assert(sub_s.drop_first() =~= gs.subrange(k as int + 1, gs.len() as int));
            }
            match &p[k] {
                Segment::Param(name) => {
                    let ghost old_items = items@;
                    let b = Binding { name: name.clone(), value: segs[k].clone() };
                    proof {
                        assert(gp[k as int] == SegView::Par(name@));
                    }
                    items.push(b);
                    proof {
                        assert(bindings_view(items@) =~= bindings_view(old_items) + seq![
                            (name@, gs[k as int]),
                        ]);
                        assert((bindings_view(old_items) + seq![(name@, gs[k as int])])
                            + params_of(sub_p.drop_first(), sub_s.drop_first())
                            =~= bindings_view(old_items) + (seq![(name@, gs[k as int])]
                            + params_of(sub_p.drop_first(), sub_s.drop_first())));
                    }
                },
                Segment::Literal(_) => {
                },
            }
            k = k + 1;
        }
        proof {
            assert(gp.subrange(gp.len() as int, gp.len() as int) =~= Seq::<SegView>::empty());
            assert(bindings_view(items@) + Seq::<(Seq<char>, Seq<char>)>::empty() =~= bindings_view(
                items@,
            ));
        }
        Params { items }
    }
}

} // verus!
