use blog_core::date::Date;
use blog_core::filter::{apply, post_matches, FilterSpec};
use blog_core::store::Post;

fn post(id: &str, author: &str, category: Option<&str>, series: Option<&str>) -> Post {
    Post {
        id: String::from(id),
        title: format!("Title {}", id),
        author: String::from(author),
        published: Date::new(2021, 1, 1).unwrap(),
        category: category.map(String::from),
        series: series.map(String::from),
        part: None,
        description: None,
        content: String::from("body"),
    }
}

fn spec(
    join: bool,
    category: Option<&str>,
    series: Option<&str>,
    author: Option<&str>,
) -> FilterSpec {
    FilterSpec {
        join,
        category: category.map(String::from),
        series: series.map(String::from),
        author: author.map(String::from),
    }
}

fn sample() -> Vec<Post> {
    vec![
        post("p1", "A1", Some("Garbage"), None),
        post("p2", "A2", None, None),
        post("p3", "A2", Some("Garbage"), Some("S")),
    ]
}

fn ids(posts: &[Post]) -> Vec<&str> {
    posts.iter().map(|p| p.id.as_str()).collect()
}

#[test]
fn union_with_no_fields_is_empty() {
    let r = apply(&spec(false, None, None, None), &sample());
    assert!(r.is_empty());
}

#[test]
fn intersect_with_no_fields_keeps_everything() {
    let posts = sample();
    let r = apply(&spec(true, None, None, None), &posts);
    assert_eq!(ids(&r), ids(&posts));
}

#[test]
fn intersect_on_category() {
    let r = apply(&spec(true, Some("Garbage"), None, None), &sample());
    assert_eq!(ids(&r), vec!["p1", "p3"]);
}

#[test]
fn union_on_author() {
    let r = apply(&spec(false, None, None, Some("A2")), &sample());
    assert_eq!(ids(&r), vec!["p2", "p3"]);
}

#[test]
fn intersect_on_category_and_author() {
    let r = apply(&spec(true, Some("Garbage"), None, Some("A2")), &sample());
    assert_eq!(ids(&r), vec!["p3"]);
}

#[test]
fn filter_keeps_store_order() {
    let posts = vec![
        post("a", "X", Some("C"), None),
        post("b", "Y", Some("C"), None),
        post("c", "X", Some("C"), None),
        post("d", "X", None, None),
    ];
    let r = apply(&spec(false, None, None, Some("X")), &posts);
    assert_eq!(ids(&r), vec!["a", "c", "d"]);
}

#[test]
fn intersect_missing_post_field_is_no_match() {
    // a set category against a post without one never matches
    let r = apply(&spec(true, Some("Garbage"), None, None), &vec![post("p", "A", None, None)]);
    assert!(r.is_empty());
}

#[test]
fn union_matches_any_set_field() {
    let p = post("p", "A", Some("C"), Some("S"));
    assert!(post_matches(&spec(false, Some("C"), None, Some("nobody")), &p));
    assert!(post_matches(&spec(false, None, Some("S"), None), &p));
    assert!(!post_matches(&spec(false, Some("other"), None, None), &p));
}

#[test]
fn intersect_needs_every_set_field() {
    let p = post("p", "A", Some("C"), Some("S"));
    assert!(post_matches(&spec(true, Some("C"), Some("S"), Some("A")), &p));
    assert!(!post_matches(&spec(true, Some("C"), Some("S"), Some("B")), &p));
}
