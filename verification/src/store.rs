//! The post store: an immutable list of post records, checked once at
//! construction for unique ids and read-only afterwards.
use vstd::prelude::*;

use crate::date::Date;
use crate::text::str_eq;

verus! {

/// One blog entry: metadata and the raw markdown body.
pub struct Post {
    pub id: String,
    pub title: String,
    pub author: String,
    pub published: Date,
    pub category: Option<String>,
    pub series: Option<String>,
    pub part: Option<u32>,
    pub description: Option<String>,
    pub content: String,
}

/// The view of an optional string field.
pub open spec fn opt_view(o: Option<String>) -> Option<Seq<char>> {
    match o {
        Some(s) => Some(s@),
        None => None,
    }
}

/// Clones an optional string; the clone equals the original.
pub fn clone_opt(o: &Option<String>) -> (r: Option<String>)
    ensures
        r == *o,
{
    match o {
        Some(s) => Some(s.clone()),
        None => None,
    }
}

impl Clone for Post {
    /// A field-by-field copy that equals the original.
    fn clone(&self) -> (r: Self)
        ensures
            r == *self,
    {
        Post {
            id: self.id.clone(),
            title: self.title.clone(),
            author: self.author.clone(),
            published: self.published,
            category: clone_opt(&self.category),
            series: clone_opt(&self.series),
            part: self.part,
            description: clone_opt(&self.description),
            content: self.content.clone(),
        }
    }
}

/// No two posts of the sequence share an id.
pub open spec fn ids_unique(posts: Seq<Post>) -> bool {
    forall|i: int, j: int|
        0 <= i < j < posts.len() ==> (#[trigger] posts[i]).id@ != (#[trigger] posts[j]).id@
}

/// The first post of the sequence carrying the given id, if any.
pub open spec fn spec_find(posts: Seq<Post>, id: Seq<char>) -> Option<Post>
    decreases posts.len(),
{
    if posts.len() == 0 {
        None
    } else if posts[0].id@ == id {
        Some(posts[0])
    } else {
        spec_find(posts.drop_first(), id)
    }
}

/// `spec_find` misses exactly when no post carries the id.
proof fn lemma_find_none(posts: Seq<Post>, id: Seq<char>)
    ensures
        spec_find(posts, id) is None <==> forall|i: int|
            0 <= i < posts.len() ==> (#[trigger] posts[i]).id@ != id,
    decreases posts.len(),
{
    if posts.len() > 0 {
        let rest = posts.drop_first();
        lemma_find_none(rest, id);
        assert(forall|i: int| 1 <= i < posts.len() ==> posts[i] == #[trigger] rest[i - 1]);
        if spec_find(posts, id) is None {
            assert(posts[0].id@ != id);
            assert forall|i: int| 0 <= i < posts.len() implies (#[trigger] posts[i]).id@
                != id by {
                if i >= 1 {
                    assert(rest[i - 1].id@ != id);
                }
            }
        } else {
            if posts[0].id@ != id {
                assert(spec_find(rest, id) is Some);
                assert(exists|i: int| 0 <= i < rest.len() && (#[trigger] rest[i]).id@ == id);
                let w = choose|i: int| 0 <= i < rest.len() && (#[trigger] rest[i]).id@ == id;
                assert(posts[w + 1].id@ == id);
            }
        }
    }
}

/// `spec_find` hits a post of the sequence with the asked-for id.
proof fn lemma_find_some(posts: Seq<Post>, id: Seq<char>)
    requires
        spec_find(posts, id) is Some,
    ensures
        posts.contains(spec_find(posts, id).unwrap()),
        spec_find(posts, id).unwrap().id@ == id,
    decreases posts.len(),
{
    if posts.len() > 0 && posts[0].id@ != id {
        lemma_find_some(posts.drop_first(), id);
        assert(posts.drop_first().contains(spec_find(posts, id).unwrap()));
        let w = choose|k: int|
            0 <= k < posts.drop_first().len() && posts.drop_first()[k] == spec_find(
                posts,
                id,
            ).unwrap();
        assert(posts[w + 1] == spec_find(posts, id).unwrap());
    }
}

/// Why a store could not be built.
#[derive(Clone, Copy, PartialEq, Eq, Structural, Debug)]
pub enum StoreError {
    /// Two posts were handed in under the same id.
    DuplicateId,
}

/// The immutable post store. Its view is the sequence of posts in
/// declaration order; construction guarantees unique ids.
pub struct PostStore {
    posts: Vec<Post>,
}

impl View for PostStore {
    type V = Seq<Post>;

    closed spec fn view(&self) -> Seq<Post> {
        self.posts@
    }
}

impl PostStore {
    /// Builds the store, failing fast when two posts share an id.
    pub fn new(posts: Vec<Post>) -> (r: Result<PostStore, StoreError>)
        ensures
            match r {
                Ok(s) => s@ == posts@ && ids_unique(posts@),
                Err(e) => e == StoreError::DuplicateId && !ids_unique(posts@),
            },
    {
        let n = posts.len();
        let mut i: usize = 0;
        while i < n
            invariant
                n == posts@.len(),
                i <= n,
                forall|p: int, q: int|
                    0 <= p < q < i ==> (#[trigger] posts@[p]).id@ != (#[trigger] posts@[q]).id@,
            decreases n - i,
        {
            let mut j: usize = 0;
            while j < i
                invariant
                    i < n == posts@.len(),
                    j <= i,
                    forall|q: int|
                        0 <= q < j ==> (#[trigger] posts@[q]).id@ != posts@[i as int].id@,
                decreases i - j,
            {
                if str_eq(posts[j].id.as_str(), posts[i].id.as_str()) {
                    proof {
                        assert((posts@[j as int]).id@ == (posts@[i as int]).id@);
                        assert(!ids_unique(posts@));
                    }
                    return Err(StoreError::DuplicateId);
                }
                j = j + 1;
            }
            i = i + 1;
        }
        Ok(PostStore { posts })
    }

    /// Every post, in declaration order.
    pub fn list_all(&self) -> (r: &Vec<Post>)
        ensures
            r@ == self@,
    {
        &self.posts
    }

    /// How many posts the store holds.
    pub fn len(&self) -> (r: usize)
        ensures
            r == self@.len(),
    {
        self.posts.len()
    }

    /// Looks a post up by id; `None` exactly when no post carries it.
    pub fn find_by_id(&self, id: &str) -> (r: Option<&Post>)
        ensures
            match r {
                Some(p) => spec_find(self@, id@) == Some(*p) && p.id@ == id@ && self@.contains(*p),
                None => spec_find(self@, id@) is None && forall|i: int|
                    0 <= i < self@.len() ==> (#[trigger] self@[i]).id@ != id@,
            },
    {
        let n = self.posts.len();
        proof {
            assert(self.posts@.skip(0) =~= self.posts@);
        }
        let mut i: usize = 0;
        while i < n
            invariant
                n == self.posts@.len(),
                i <= n,
                spec_find(self.posts@, id@) == spec_find(self.posts@.skip(i as int), id@),
            decreases n - i,
        {
            proof {
                assert(self.posts@.skip(i as int).drop_first() =~= self.posts@.skip(i as int + 1));
                assert(self.posts@.skip(i as int)[0] == self.posts@[i as int]);
            }
            if str_eq(self.posts[i].id.as_str(), id) {
                proof {
                    lemma_find_some(self.posts@, id@);
                    assert(spec_find(self.posts@, id@) == Some(self.posts@[i as int]));
                }
                return Some(&self.posts[i]);
            }
            i = i + 1;
        }
        proof {
            assert(self.posts@.skip(n as int) =~= Seq::<Post>::empty());
            lemma_find_none(self.posts@, id@);
        }
        None
    }
}

} // verus!
