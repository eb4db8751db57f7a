use blog_core::render::{inject_classes, render_markdown, replace_all};

#[test]
fn replace_all_replaces_every_occurrence() {
    assert_eq!(replace_all("abcabc", "b", "xx"), "axxcaxxc");
    assert_eq!(replace_all("abc", "z", "x"), "abc");
    assert_eq!(replace_all("", "z", "x"), "");
}

#[test]
fn replace_all_is_leftmost_and_non_overlapping() {
    assert_eq!(replace_all("aaa", "aa", "b"), "ba");
    assert_eq!(replace_all("aaaa", "aa", "b"), "bb");
}

#[test]
fn replace_all_does_not_rescan_replacements() {
    assert_eq!(replace_all("ab", "ab", "abab"), "abab");
}

#[test]
fn inject_classes_styles_paragraphs_everywhere() {
    let html = "<p>one</p><div><p>two</p></div>";
    assert_eq!(
        inject_classes(html),
        "<p class=\"mb-4 dark:text-white\">one</p><div><p class=\"mb-4 dark:text-white\">two</p></div>"
    );
}

#[test]
fn inject_classes_styles_every_heading_level() {
    let html = "<h1>a</h1><h2>b</h2><h3>c</h3><h4>d</h4><h5>e</h5><h6>f</h6>";
    let out = inject_classes(html);
    assert!(out.contains("<h1 class=\"text-4xl font-bold mb-2 dark:text-white\">a</h1>"));
    assert!(out.contains("<h2 class=\"text-3xl font-bold mb-2 dark:text-white\">b</h2>"));
    assert!(out.contains("<h3 class=\"text-2xl font-bold mb-2 dark:text-white\">c</h3>"));
    assert!(out.contains("<h4 class=\"text-xl font-bold mb-2 dark:text-white\">d</h4>"));
    assert!(out.contains("<h5 class=\"text-lg font-bold mb-2 dark:text-white\">e</h5>"));
    assert!(out.contains("<h6 class=\"text-base font-bold mb-2 dark:text-white\">f</h6>"));
}

#[test]
fn inject_classes_styles_table_cells_header_style_for_data() {
    // data cells deliberately come out as header-styled cells
    let html = "<table><tr><th>h</th><td>d</td></tr></table>";
    let out = inject_classes(html);
    assert!(out.contains("<table class=\"mb-4 gray-400 dark:text-white dark:gray-800\">"));
    assert!(out.contains("<th class=\"bg-gray-300 dark:bg-gray-900\">h</th>"));
    assert!(out.contains("<th class=\"bg-gray-100 dark:bg-gray-700\">d</td>"));
}

#[test]
fn inject_classes_styles_anchors_and_code_blocks() {
    let html = "<pre>code</pre><a href=\"x\">l</a>";
    let out = inject_classes(html);
    assert!(out.contains("<pre class=\"mb-4 bg-gray-200 dark:text-white dark:bg-gray-900\">"));
    assert!(out.contains("<a class=\"text-blue-400 dark:text-orange-600\" href=\"x\">l</a>"));
}

#[test]
fn render_markdown_produces_styled_html() {
    let out = render_markdown("# Title\n\nHello *world*\n");
    assert!(out.contains("<h1 class=\"text-4xl font-bold mb-2 dark:text-white\">Title</h1>"));
    assert!(out.contains("<p class=\"mb-4 dark:text-white\">Hello <em>world</em></p>"));
}

#[test]
fn render_markdown_strikethrough_extension_is_enabled() {
    let out = render_markdown("~~gone~~");
    assert!(out.contains("<del>gone</del>"));
}

#[test]
fn render_markdown_links_get_the_anchor_class() {
    let out = render_markdown("[here](https://example.com)");
    assert!(out.contains("<a class=\"text-blue-400 dark:text-orange-600\" href=\"https://example.com\">here</a>"));
}

#[test]
fn render_markdown_is_total_on_malformed_input() {
    // unclosed constructs degrade instead of failing
    let out = render_markdown("**unclosed *emphasis\n\n```\nunclosed fence");
    assert!(!out.is_empty());
}

#[test]
fn render_markdown_is_deterministic() {
    let md = "# A\n\n| h |\n| - |\n| d |\n\n- [ ] task\n\n~~s~~ [l](x)\n";
    let first = render_markdown(md);
    let second = render_markdown(md);
    assert_eq!(first, second);
}
