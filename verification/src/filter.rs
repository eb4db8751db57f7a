//! The filter engine: evaluates a filter specification against an ordered
//! sequence of posts, as a stable linear scan in one of two modes —
//! intersect (every set field must match) or union (some set field must
//! match).
use vstd::prelude::*;

use crate::store::{opt_view, Post};
use crate::text::str_eq;

verus! {

/// A parsed set of optional match criteria plus the mode flag:
/// `join == true` selects intersect (AND) mode, `join == false` union
/// (OR) mode.
pub struct FilterSpec {
    pub join: bool,
    pub category: Option<String>,
    pub series: Option<String>,
    pub author: Option<String>,
}

/// The mathematical content of a filter specification: the mode flag and
/// the views of the optional criteria.
pub struct FilterView {
    pub join: bool,
    pub category: Option<Seq<char>>,
    pub series: Option<Seq<char>>,
    pub author: Option<Seq<char>>,
}

impl View for FilterSpec {
    type V = FilterView;

    open spec fn view(&self) -> FilterView {
        FilterView {
            join: self.join,
            category: opt_view(self.category),
            series: opt_view(self.series),
            author: opt_view(self.author),
        }
    }
}

impl FilterSpec {
    /// The specification that sets no field and selects union mode: the
    /// default for an absent or empty query string.
    pub fn empty() -> (r: FilterSpec)
        ensures
            r@ == empty_filter(),
    {
        FilterSpec { join: false, category: None, series: None, author: None }
    }
}

/// The filter with no set field, in union mode.
pub open spec fn empty_filter() -> FilterView {
    FilterView { join: false, category: None, series: None, author: None }
}

/// Intersect (AND) mode: every set filter field must equal the post's
/// corresponding field. With no set field every post matches. A filter
/// value against an unset post category or series is a non-match.
pub open spec fn matches_intersect(f: FilterView, p: Post) -> bool {
    &&& (f.category is Some ==> opt_view(p.category) == f.category)
    &&& (f.series is Some ==> opt_view(p.series) == f.series)
    &&& (f.author is Some ==> Some(p.author@) == f.author)
}

/// Union (OR) mode: some set filter field must equal the post's
/// corresponding field. With no set field no post matches.
pub open spec fn matches_union(f: FilterView, p: Post) -> bool {
    ||| f.category is Some && opt_view(p.category) == f.category
    ||| f.series is Some && opt_view(p.series) == f.series
    ||| f.author is Some && Some(p.author@) == f.author
}

/// Whether a post is included under the filter, by the mode flag.
pub open spec fn spec_matches(f: FilterView, p: Post) -> bool {
    if f.join {
        matches_intersect(f, p)
    } else {
        matches_union(f, p)
    }
}

/// The matched posts, in the order of the input sequence.
pub open spec fn spec_apply(f: FilterView, posts: Seq<Post>) -> Seq<Post> {
    posts.filter(|p: Post| spec_matches(f, p))
}

/// Compares an optional post field with a set filter value.
fn opt_field_eq(filter: &String, field: &Option<String>) -> (r: bool)
    ensures
        r == (opt_view(*field) == Some(filter@)),
{
    match field {
        Some(s) => str_eq(s.as_str(), filter.as_str()),
        None => false,
    }
}

/// Decides `spec_matches` for one post.
pub fn post_matches(f: &FilterSpec, p: &Post) -> (r: bool)
    ensures
        r == spec_matches(f@, *p),
{
    if f.join {
        let cat_ok = match &f.category {
            Some(c) => opt_field_eq(c, &p.category),
            None => true,
        };
        let ser_ok = match &f.series {
            Some(s) => opt_field_eq(s, &p.series),
            None => true,
        };
        let aut_ok = match &f.author {
            Some(a) => str_eq(p.author.as_str(), a.as_str()),
            None => true,
        };
        cat_ok && ser_ok && aut_ok
    } else {
        let cat_hit = match &f.category {
            Some(c) => opt_field_eq(c, &p.category),
            None => false,
        };
        let ser_hit = match &f.series {
            Some(s) => opt_field_eq(s, &p.series),
            None => false,
        };
        let aut_hit = match &f.author {
            Some(a) => str_eq(p.author.as_str(), a.as_str()),
            None => false,
        };
        cat_hit || ser_hit || aut_hit
    }
}

/// Applies the filter to the posts: the result holds exactly the matching
/// posts, keeping their relative order in the input (a stable filter, no
/// re-sort).
pub fn apply(f: &FilterSpec, posts: &Vec<Post>) -> (r: Vec<Post>)
    ensures
        r@ == spec_apply(f@, posts@),
{
    let ghost pred = |p: Post| spec_matches(f@, p);
    let n = posts.len();
    let mut out: Vec<Post> = Vec::new();
    let mut i: usize = 0;
    while i < n
        invariant
            n == posts@.len(),
            i <= n,
            out@ == posts@.take(i as int).filter(pred),
            pred == (|p: Post| spec_matches(f@, p)),
        decreases n - i,
    {
        if post_matches(f, &posts[i]) {
            out.push(posts[i].clone());
        }
        proof {
            reveal(Seq::filter);
            assert(posts@.take(i as int + 1).drop_last() =~= posts@.take(i as int));
            assert(posts@.take(i as int + 1).last() == posts@[i as int]);
            assert(out@ =~= posts@.take(i as int + 1).filter(pred));
        }
        i = i + 1;
    }
    proof {
        assert(posts@.take(n as int) =~= posts@);
    }
    out
}

/// With no set field, union mode matches nothing: the result is empty
/// whatever the posts are.
pub proof fn lemma_union_vacuous(f: FilterView, posts: Seq<Post>)
    requires
        !f.join,
        f.category is None,
        f.series is None,
        f.author is None,
    ensures
        spec_apply(f, posts) == Seq::<Post>::empty(),
    decreases posts.len(),
{
    reveal(Seq::filter);
    if posts.len() > 0 {
        lemma_union_vacuous(f, posts.drop_last());
    }
}

/// With no set field, intersect mode matches everything: the result is
/// the whole post sequence, unchanged.
pub proof fn lemma_intersect_vacuous(f: FilterView, posts: Seq<Post>)
    requires
        f.join,
        f.category is None,
        f.series is None,
        f.author is None,
    ensures
        spec_apply(f, posts) == posts,
    decreases posts.len(),
{
    reveal(Seq::filter);
    if posts.len() > 0 {
        lemma_intersect_vacuous(f, posts.drop_last());
        assert(spec_apply(f, posts) =~= posts.drop_last().filter(
            |p: Post| spec_matches(f, p),
        ).push(posts.last()));
        assert(spec_apply(f, posts) =~= posts);
    }
}

/// The indices of the matched posts, in increasing order.
pub open spec fn spec_match_indices(f: FilterView, posts: Seq<Post>) -> Seq<int>
    decreases posts.len(),
{
    if posts.len() == 0 {
        Seq::empty()
    } else if spec_matches(f, posts.last()) {
        spec_match_indices(f, posts.drop_last()).push(posts.len() - 1)
    } else {
        spec_match_indices(f, posts.drop_last())
    }
}

/// Stability: the filter keeps the store's relative order. The result is
/// the image of a strictly increasing sequence of indices into the input.
pub proof fn lemma_apply_stable(f: FilterView, posts: Seq<Post>)
    ensures
        spec_match_indices(f, posts).len() == spec_apply(f, posts).len(),
        forall|k: int|
            0 <= k < spec_match_indices(f, posts).len() ==> 0 <= #[trigger] spec_match_indices(
                f,
                posts,
            )[k] < posts.len(),
        forall|k: int|
            0 <= k < spec_match_indices(f, posts).len() ==> spec_apply(f, posts)[k] == posts[
                #[trigger] spec_match_indices(f, posts)[k]
            ],
        forall|k: int, l: int|
            0 <= k < l < spec_match_indices(f, posts).len() ==> #[trigger] spec_match_indices(
                f,
                posts,
            )[k] < #[trigger] spec_match_indices(f, posts)[l],
    decreases posts.len(),
{
    reveal(Seq::filter);
    if posts.len() > 0 {
        lemma_apply_stable(f, posts.drop_last());
    }
}

} // verus!
