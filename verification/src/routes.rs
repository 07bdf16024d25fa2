//! Route matching: a request's method and raw path are matched against the
//! two route patterns. `GET /categories` selects the category listing,
//! `GET /categories/{category}/{leaderboard}` the review listing; everything
//! else falls through to not-found. Path segments are taken verbatim,
//! case-sensitively.

use vstd::prelude::*;

verus! {

/// The request method, as far as routing cares: `GET` or anything else.
#[derive(Clone, Copy, Debug, PartialEq, Eq, Structural)]
pub enum Method {
    Get,
    Other,
}

/// The outcome of route matching.
#[derive(Debug, PartialEq, Eq)]
pub enum Route {
    /// `GET /categories`.
    Categories,
    /// `GET /categories/{category}/{leaderboard}`, carrying the two path
    /// segments verbatim.
    Reviews(Vec<u8>, Vec<u8>),
    /// No pattern matched.
    NotFound,
}

/// The mathematical shape of a [`Route`].
pub enum RouteView {
    Categories,
    Reviews(Seq<u8>, Seq<u8>),
    NotFound,
}

impl View for Route {
    type V = RouteView;

    open spec fn view(&self) -> RouteView {
        match self {
            Route::Categories => RouteView::Categories,
            Route::Reviews(c, l) => RouteView::Reviews(c@, l@),
            Route::NotFound => RouteView::NotFound,
        }
    }
}

/// Splitting a path on `/`: the empty path is one empty segment, and every
/// separator ends the segment before it.
pub open spec fn spec_split(s: Seq<u8>) -> Seq<Seq<u8>>
    decreases s.len(),
{
    if s.len() == 0 {
        seq![Seq::empty()]
    } else {
        let rest = spec_split(s.drop_last());
        if s.last() == 47 {
            rest.push(Seq::empty())
        } else {
            rest.update(rest.len() - 1, rest.last().push(s.last()))
        }
    }
}

/// A split path always has at least one segment.
pub proof fn lemma_split_nonempty(s: Seq<u8>)
    ensures
        spec_split(s).len() >= 1,
    decreases s.len(),
{
    if s.len() != 0 {
        lemma_split_nonempty(s.drop_last());
    }
}

/// Splits a path into its `/`-separated segments.
pub fn split_path(path: &Vec<u8>) -> (segs: Vec<Vec<u8>>)
    ensures
        segs@.len() == spec_split(path@).len(),
        forall|k: int| 0 <= k < segs@.len() ==> segs@[k]@ == spec_split(path@)[k],
{
    let mut done: Vec<Vec<u8>> = Vec::new();
    let mut cur: Vec<u8> = Vec::new();
    let mut i: usize = 0;
    proof {
        assert(spec_split(path@.take(0)) =~= seq![Seq::<u8>::empty()]);
    }
    while i < path.len()
        invariant
            i <= path@.len(),
            spec_split(path@.take(i as int)).len() == done@.len() + 1,
            forall|k: int| 0 <= k < done@.len() ==> done@[k]@ == spec_split(path@.take(i as int))[k],
            cur@ == spec_split(path@.take(i as int)).last(),
        decreases path@.len() - i,
    {
        let ghost before = spec_split(path@.take(i as int));
        proof {
            assert(path@.take(i as int + 1).drop_last() =~= path@.take(i as int));
            assert(path@.take(i as int + 1).last() == path@[i as int]);
            lemma_split_nonempty(path@.take(i as int));
        }
        let b = path[i];
        if b == 47 {
            done.push(cur);
            cur = Vec::new();
            proof {
                assert(spec_split(path@.take(i as int + 1)) =~= before.push(Seq::<u8>::empty()));
            }
        } else {
            cur.push(b);
            proof {
                assert(spec_split(path@.take(i as int + 1)) =~= before.update(
                    before.len() - 1,
                    before.last().push(path@[i as int]),
                ));
            }
        }
        i = i + 1;
    }
    proof {
        assert(path@.take(path@.len() as int) =~= path@);
    }
    done.push(cur);
    done
}

/// The bytes of the literal first segment `categories`.
pub open spec fn spec_categories_label() -> Seq<u8> {
    seq![99u8, 97u8, 116u8, 101u8, 103u8, 111u8, 114u8, 105u8, 101u8, 115u8]
}

/// True when the segment is the literal `categories`.
fn is_categories_seg(seg: &Vec<u8>) -> (r: bool)
    ensures
        r == (seg@ == spec_categories_label()),
{
    let mut label: Vec<u8> = Vec::new();
    label.push(99);
    label.push(97);
    label.push(116);
    label.push(101);
    label.push(103);
    label.push(111);
    label.push(114);
    label.push(105);
    label.push(101);
    label.push(115);
    proof {
        assert(label@ =~= spec_categories_label());
    }
    crate::model::bytes_eq(seg, &label)
}

/// Which route a request selects: `GET` with path segments
/// `["", "categories"]` lists the categories, `GET` with
/// `["", "categories", c, l]` lists the reviews of the pair `(c, l)`,
/// anything else (another method, another literal, a missing, extra or
/// trailing segment) matches no route.
pub open spec fn spec_dispatch(m: Method, path: Seq<u8>) -> RouteView {
    match m {
        Method::Other => RouteView::NotFound,
        Method::Get => {
            let segs = spec_split(path);
            if segs.len() == 2 && segs[0] == Seq::<u8>::empty() && segs[1]
                == spec_categories_label() {
                RouteView::Categories
            } else if segs.len() == 4 && segs[0] == Seq::<u8>::empty() && segs[1]
                == spec_categories_label() {
                RouteView::Reviews(segs[2], segs[3])
            } else {
                RouteView::NotFound
            }
        },
    }
}

/// Matches a request against the two route patterns.
pub fn dispatch(method: Method, path: &Vec<u8>) -> (r: Route)
    ensures
        r@ == spec_dispatch(method, path@),
{
    match method {
        Method::Other => Route::NotFound,
        Method::Get => {
            let mut segs = split_path(path);
            if segs.len() == 2 {
                let first_empty = segs[0].len() == 0;
                let second_label = is_categories_seg(&segs[1]);
                if first_empty && second_label {
                    proof {
                        assert(segs@[0]@ =~= Seq::<u8>::empty());
                        assert(spec_split(path@)[0] =~= Seq::<u8>::empty());
                    }
                    Route::Categories
                } else {
                    Route::NotFound
                }
            } else if segs.len() == 4 {
                let first_empty = segs[0].len() == 0;
                let second_label = is_categories_seg(&segs[1]);
                if first_empty && second_label {
                    proof {
                        assert(segs@[0]@ =~= Seq::<u8>::empty());
                        assert(spec_split(path@)[0] =~= Seq::<u8>::empty());
                    }
                    let leaderboard = segs.pop().unwrap();
                    let category = segs.pop().unwrap();
                    Route::Reviews(category, leaderboard)
                } else {
                    Route::NotFound
                }
            } else {
                Route::NotFound
            }
        },
    }
}

} // verus!
