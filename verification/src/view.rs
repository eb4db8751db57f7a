//! The presentation assembler: turns posts into the view models the
//! routing/templating layer consumes — per-post summaries for the list
//! view, with navigation links derived through the query codec, and a
//! full view with the rendered body for a single post, or a distinct
//! not-found view when the id matches nothing.
use vstd::prelude::*;

use crate::codec::{decode, encode, spec_decode, spec_encode};
use crate::date::Date;
use crate::filter::{apply, spec_apply, FilterSpec, FilterView};
use crate::render::{render_markdown, spec_render};
use crate::store::{clone_opt, opt_view, spec_find, Post, PostStore};

verus! {

/// The intersect-mode filter that selects one author.
pub open spec fn author_filter(author: Seq<char>) -> FilterView {
    FilterView { join: true, category: None, series: None, author: Some(author) }
}

/// The intersect-mode filter that selects one category.
pub open spec fn category_filter(category: Seq<char>) -> FilterView {
    FilterView { join: true, category: Some(category), series: None, author: None }
}

/// The path of a single post's page.
pub open spec fn spec_post_link(id: Seq<char>) -> Seq<char> {
    "/blog/"@ + id
}

/// The path of the query that shows more posts by an author.
pub open spec fn spec_author_link(author: Seq<char>) -> Seq<char> {
    "/search/?"@ + spec_encode(author_filter(author))
}

/// The path of the query that shows more posts in a category.
pub open spec fn spec_category_link(category: Seq<char>) -> Seq<char> {
    "/search/?"@ + spec_encode(category_filter(category))
}

/// The per-post data of the list view: the displayed metadata and the
/// derived navigation targets.
pub struct PostSummary {
    pub id: String,
    pub title: String,
    pub author: String,
    pub published: Date,
    pub category: Option<String>,
    pub description: Option<String>,
    pub post_link: String,
    pub author_link: String,
    pub category_link: Option<String>,
}

/// The summary carries the post's metadata unchanged and the three
/// derived links: the post's own page, the author query, and — for a
/// categorised post — the category query.
pub open spec fn summary_matches(s: PostSummary, p: Post) -> bool {
    &&& s.id@ == p.id@
    &&& s.title@ == p.title@
    &&& s.author@ == p.author@
    &&& s.published == p.published
    &&& opt_view(s.category) == opt_view(p.category)
    &&& opt_view(s.description) == opt_view(p.description)
    &&& s.post_link@ == spec_post_link(p.id@)
    &&& s.author_link@ == spec_author_link(p.author@)
    &&& match p.category {
        Some(c) => opt_view(s.category_link) == Some(spec_category_link(c@)),
        None => s.category_link is None,
    }
}

/// Builds the list-view summary of one post.
pub fn summarize(p: &Post) -> (r: PostSummary)
    ensures
        summary_matches(r, *p),
{
    let post_link = String::from_str("/blog/").concat(p.id.as_str());
    let author_spec = FilterSpec {
        join: true,
        category: None,
        series: None,
        author: Some(p.author.clone()),
    };
    let author_link = String::from_str("/search/?").concat(encode(&author_spec).as_str());
    let category_link = match &p.category {
        Some(c) => {
            let category_spec = FilterSpec {
                join: true,
                category: Some(c.clone()),
                series: None,
                author: None,
            };
            Some(String::from_str("/search/?").concat(encode(&category_spec).as_str()))
        },
        None => None,
    };
    PostSummary {
        id: p.id.clone(),
        title: p.title.clone(),
        author: p.author.clone(),
        published: p.published,
        category: clone_opt(&p.category),
        description: clone_opt(&p.description),
        post_link,
        author_link,
        category_link,
    }
}

/// Builds the list view: one summary per post, in store order.
pub fn list_view(store: &PostStore) -> (r: Vec<PostSummary>)
    ensures
        r@.len() == store@.len(),
        forall|i: int| 0 <= i < store@.len() ==> summary_matches(#[trigger] r@[i], store@[i]),
{
    let posts = store.list_all();
    let n = posts.len();
    let mut out: Vec<PostSummary> = Vec::new();
    let mut i: usize = 0;
    while i < n
        invariant
            n == posts@.len(),
            posts@ == store@,
            i <= n,
            out@.len() == i,
            forall|k: int| 0 <= k < i ==> summary_matches(#[trigger] out@[k], store@[k]),
        decreases n - i,
    {
        out.push(summarize(&posts[i]));
        i = i + 1;
    }
    out
}

/// The single-post view: the summary metadata plus the markdown body
/// rendered to styled HTML.
pub struct PostDetail {
    pub summary: PostSummary,
    pub body_html: String,
}

/// What the single-post route yields: the post's full view, or the
/// distinct not-found view.
pub enum PostView {
    Found(PostDetail),
    NotFound,
}

/// Builds the single-post view for an id. Yields `NotFound` exactly when
/// no post carries the id; never fails.
pub fn post_view(store: &PostStore, id: &str) -> (r: PostView)
    ensures
        match r {
            PostView::Found(d) => {
                &&& spec_find(store@, id@) is Some
                &&& summary_matches(d.summary, spec_find(store@, id@).unwrap())
                &&& d.body_html@ == spec_render(spec_find(store@, id@).unwrap().content@)
            },
            PostView::NotFound => spec_find(store@, id@) is None,
        },
{
    match store.find_by_id(id) {
        Some(p) => {
            let summary = summarize(p);
            let body_html = render_markdown(p.content.as_str());
            PostView::Found(PostDetail { summary, body_html })
        },
        None => PostView::NotFound,
    }
}


/// Builds the filtered list view for a raw query string: the query is
/// decoded, the filter applied to the store, and each matched post
/// summarised, in store order.
pub fn query_view(store: &PostStore, query: &str) -> (r: Vec<PostSummary>)
    ensures
        r@.len() == spec_apply(spec_decode(query@), store@).len(),
        forall|i: int|
            0 <= i < r@.len() ==> summary_matches(
                #[trigger] r@[i],
                spec_apply(spec_decode(query@), store@)[i],
            ),
{
    let f = decode(query);
    let matched = apply(&f, store.list_all());
    let n = matched.len();
    let mut out: Vec<PostSummary> = Vec::new();
    let mut i: usize = 0;
    while i < n
        invariant
            n == matched@.len(),
            matched@ == spec_apply(spec_decode(query@), store@),
            i <= n,
            out@.len() == i,
            forall|k: int| 0 <= k < i ==> summary_matches(#[trigger] out@[k], matched@[k]),
        decreases n - i,
    {
        out.push(summarize(&matched[i]));
        i = i + 1;
    }
    out
}

} // verus!
