use blog_core::date::Date;
use blog_core::store::{Post, PostStore, StoreError};

fn post(id: &str) -> Post {
    Post {
        id: String::from(id),
        title: format!("Title {}", id),
        author: String::from("Author"),
        published: Date::new(2021, 1, 2).unwrap(),
        category: None,
        series: None,
        part: None,
        description: None,
        content: String::from("body"),
    }
}

#[test]
fn new_accepts_unique_ids() {
    let store = PostStore::new(vec![post("a"), post("b"), post("c")]).unwrap();
    assert_eq!(store.len(), 3);
    let all = store.list_all();
    assert_eq!(all[0].id, "a");
    assert_eq!(all[1].id, "b");
    assert_eq!(all[2].id, "c");
}

#[test]
fn new_accepts_empty_store() {
    let store = PostStore::new(vec![]).unwrap();
    assert_eq!(store.len(), 0);
}

#[test]
fn new_rejects_duplicate_ids() {
    let r = PostStore::new(vec![post("a"), post("b"), post("a")]);
    assert!(matches!(r, Err(StoreError::DuplicateId)));
}

#[test]
fn find_by_id_hits_the_right_post() {
    let store = PostStore::new(vec![post("a"), post("b")]).unwrap();
    let p = store.find_by_id("b").unwrap();
    assert_eq!(p.id, "b");
    assert_eq!(p.title, "Title b");
}

#[test]
fn find_by_id_misses_unknown_id() {
    let store = PostStore::new(vec![post("a"), post("b")]).unwrap();
    assert!(store.find_by_id("nonexistent").is_none());
    assert!(store.find_by_id("").is_none());
}
