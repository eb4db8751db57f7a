use blog_core::date::Date;
use blog_core::store::{Post, PostStore};
use blog_core::view::{list_view, post_view, query_view, PostView};

fn post(id: &str, author: &str, category: Option<&str>, description: Option<&str>) -> Post {
    Post {
        id: String::from(id),
        title: format!("Title {}", id),
        author: String::from(author),
        published: Date::new(2021, 1, 3).unwrap(),
        category: category.map(String::from),
        series: None,
        part: None,
        description: description.map(String::from),
        content: String::from("# Heading\n\nBody text\n"),
    }
}

fn sample_store() -> PostStore {
    PostStore::new(vec![
        post("p1", "Author 1", Some("Garbage"), None),
        post("p2", "Author 2", None, Some("teaser")),
    ])
    .unwrap()
}

#[test]
fn list_view_keeps_order_and_metadata() {
    let store = sample_store();
    let views = list_view(&store);
    assert_eq!(views.len(), 2);
    assert_eq!(views[0].id, "p1");
    assert_eq!(views[0].title, "Title p1");
    assert_eq!(views[0].author, "Author 1");
    assert_eq!(views[0].category.as_deref(), Some("Garbage"));
    assert_eq!(views[0].description, None);
    assert_eq!(views[1].id, "p2");
    assert_eq!(views[1].description.as_deref(), Some("teaser"));
}

#[test]
fn list_view_derives_navigation_links() {
    let store = sample_store();
    let views = list_view(&store);
    assert_eq!(views[0].post_link, "/blog/p1");
    assert_eq!(views[0].author_link, "/search/?join=true&author=Author+1");
    assert_eq!(
        views[0].category_link.as_deref(),
        Some("/search/?join=true&category=Garbage")
    );
    assert_eq!(views[1].category_link, None);
}

#[test]
fn post_view_renders_the_body() {
    let store = sample_store();
    match post_view(&store, "p1") {
        PostView::Found(d) => {
            assert_eq!(d.summary.id, "p1");
            assert!(d
                .body_html
                .contains("<h1 class=\"text-4xl font-bold mb-2 dark:text-white\">Heading</h1>"));
            assert!(d.body_html.contains("<p class=\"mb-4 dark:text-white\">Body text</p>"));
        }
        PostView::NotFound => panic!("post p1 should be found"),
    }
}

#[test]
fn post_view_for_unknown_id_is_not_found() {
    let store = sample_store();
    assert!(matches!(post_view(&store, "nonexistent"), PostView::NotFound));
}

#[test]
fn query_view_filters_and_summarises() {
    let store = sample_store();
    let views = query_view(&store, "join=true&category=Garbage");
    assert_eq!(views.len(), 1);
    assert_eq!(views[0].id, "p1");

    let all = query_view(&store, "join=true");
    assert_eq!(all.len(), 2);

    let none = query_view(&store, "join=false");
    assert!(none.is_empty());

    let by_author = query_view(&store, "author=Author+2");
    assert_eq!(by_author.len(), 1);
    assert_eq!(by_author[0].id, "p2");
}
