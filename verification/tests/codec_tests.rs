use blog_core::codec::{decode, encode};
use blog_core::filter::FilterSpec;

fn spec(
    join: bool,
    category: Option<&str>,
    series: Option<&str>,
    author: Option<&str>,
) -> FilterSpec {
    FilterSpec {
        join,
        category: category.map(String::from),
        series: series.map(String::from),
        author: author.map(String::from),
    }
}

#[test]
fn encode_empty_filter() {
    assert_eq!(encode(&spec(false, None, None, None)), "join=false");
    assert_eq!(encode(&spec(true, None, None, None)), "join=true");
}

#[test]
fn encode_fixed_field_order() {
    let f = spec(true, Some("Garbage"), Some("S"), Some("A2"));
    assert_eq!(encode(&f), "join=true&category=Garbage&series=S&author=A2");
}

#[test]
fn encode_subset_of_fields() {
    assert_eq!(
        encode(&spec(false, None, None, Some("Author"))),
        "join=false&author=Author"
    );
    assert_eq!(
        encode(&spec(true, Some("Cat"), None, None)),
        "join=true&category=Cat"
    );
}

#[test]
fn encode_escapes_values() {
    assert_eq!(
        encode(&spec(true, Some("A B"), None, None)),
        "join=true&category=A+B"
    );
    assert_eq!(
        encode(&spec(false, None, None, Some("A&B=C"))),
        "join=false&author=A%26B%3DC"
    );
    assert_eq!(
        encode(&spec(false, Some("100%"), None, None)),
        "join=false&category=100%25"
    );
}

#[test]
fn encode_escapes_multibyte() {
    // U+00E9 is C3 A9 in UTF-8
    assert_eq!(
        encode(&spec(false, Some("caf\u{e9}"), None, None)),
        "join=false&category=caf%C3%A9"
    );
}

#[test]
fn decode_empty_query_is_default() {
    let f = decode("");
    assert!(!f.join);
    assert!(f.category.is_none());
    assert!(f.series.is_none());
    assert!(f.author.is_none());
}

#[test]
fn decode_join_is_exact_literal() {
    assert!(decode("join=true").join);
    assert!(!decode("join=TRUE").join);
    assert!(!decode("join=1").join);
    assert!(!decode("join=").join);
    assert!(!decode("join").join);
}

#[test]
fn decode_sets_present_fields() {
    let f = decode("join=true&category=Garbage&author=A2");
    assert!(f.join);
    assert_eq!(f.category.as_deref(), Some("Garbage"));
    assert!(f.series.is_none());
    assert_eq!(f.author.as_deref(), Some("A2"));
}

#[test]
fn decode_ignores_unknown_keys() {
    let f = decode("foo=bar&category=X&page=2");
    assert!(!f.join);
    assert_eq!(f.category.as_deref(), Some("X"));
    assert!(f.author.is_none());
}

#[test]
fn decode_last_occurrence_wins() {
    let f = decode("category=a&category=b&join=true&join=false");
    assert_eq!(f.category.as_deref(), Some("b"));
    assert!(!f.join);
}

#[test]
fn decode_unescapes_values() {
    let f = decode("author=%41+%42&category=100%25");
    assert_eq!(f.author.as_deref(), Some("A B"));
    assert_eq!(f.category.as_deref(), Some("100%"));
}

#[test]
fn decode_keeps_malformed_escape() {
    let f = decode("author=%GZ&category=x%2");
    assert_eq!(f.author.as_deref(), Some("%GZ"));
    assert_eq!(f.category.as_deref(), Some("x%2"));
}

#[test]
fn round_trip_restores_filter() {
    let cases = vec![
        spec(false, None, None, None),
        spec(true, None, None, None),
        spec(true, Some("Garbage"), None, Some("Author 1")),
        spec(false, Some("A&B"), Some("S=1"), Some("x+y%z")),
        spec(true, Some(""), Some(""), Some("")),
    ];
    for f in cases {
        let back = decode(&encode(&f));
        assert_eq!(back.join, f.join);
        assert_eq!(back.category, f.category);
        assert_eq!(back.series, f.series);
        assert_eq!(back.author, f.author);
    }
}

#[test]
fn decode_agrees_with_form_urlencoded_parser() {
    let queries = vec![
        "join=true&category=Rust+Lang&author=A%26B",
        "category=a&category=b",
        "join=false",
        "foo=bar&series=S%201",
        "",
        "&&category=x&",
    ];
    for q in queries {
        let f = decode(q);
        let mut join = false;
        let mut category: Option<String> = None;
        let mut series: Option<String> = None;
        let mut author: Option<String> = None;
        for (key, value) in form_urlencoded::parse(q.as_bytes()) {
            match key.as_ref() {
                "join" => join = value == "true",
                "category" => category = Some(value.to_string()),
                "series" => series = Some(value.to_string()),
                "author" => author = Some(value.to_string()),
                _ => {}
            }
        }
        assert_eq!(f.join, join);
        assert_eq!(f.category, category);
        assert_eq!(f.series, series);
        assert_eq!(f.author, author);
    }
}
