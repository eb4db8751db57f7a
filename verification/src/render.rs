//! The markdown renderer: converts a post's raw markdown body to
//! baseline HTML through the markdown engine, then injects a fixed set
//! of presentation class attributes by exact-tag substring replacement —
//! every occurrence of an opening tag receives the same class attribute,
//! wherever it stands. The whole pipeline is total and deterministic:
//! equal markdown yields byte-identical output.
use vstd::prelude::*;

use crate::text::push_char;

verus! {

/// The baseline HTML that the markdown engine produces for a document,
/// with strikethrough, tables, footnotes and task lists enabled. A
/// function of the markdown text alone.
pub uninterp spec fn html_of(md: Seq<char>) -> Seq<char>;

/// Relies on `pulldown_cmark::Parser::new_ext` and
/// `pulldown_cmark::html::push_html`: the conversion is total — even
/// malformed markdown yields HTML rather than failing — and its result
/// depends on the markdown text and the fixed option set alone.
#[verifier::external_body]
fn markdown_to_html(md: &str) -> (r: String)
    ensures
        r@ == html_of(md@),
{
    let mut options = pulldown_cmark::Options::empty();
    options.insert(pulldown_cmark::Options::ENABLE_STRIKETHROUGH);
    options.insert(pulldown_cmark::Options::ENABLE_TABLES);
    options.insert(pulldown_cmark::Options::ENABLE_FOOTNOTES);
    options.insert(pulldown_cmark::Options::ENABLE_TASKLISTS);
    let parser = pulldown_cmark::Parser::new_ext(md, options);
    let mut out = String::new();
    pulldown_cmark::html::push_html(&mut out, parser);
    out
}

/// Every non-overlapping occurrence of `pat`, leftmost first, replaced
/// by `rep`; replacements are not rescanned. An empty pattern replaces
/// nothing.
pub open spec fn spec_replace(s: Seq<char>, pat: Seq<char>, rep: Seq<char>) -> Seq<char>
    decreases s.len(),
{
    if pat.len() == 0 || s.len() < pat.len() {
        s
    } else if s.take(pat.len() as int) == pat {
        rep + spec_replace(s.skip(pat.len() as int), pat, rep)
    } else {
        seq![s[0]] + spec_replace(s.drop_first(), pat, rep)
    }
}

/// Whether `pat` occurs in `s` at position `i`.
fn match_at(s: &str, i: usize, pat: &str) -> (r: bool)
    requires
        i + pat@.len() <= s@.len(),
    ensures
        r == (s@.subrange(i as int, i as int + pat@.len()) == pat@),
{
    let n = s.unicode_len();
    let m = pat.unicode_len();
    let mut j: usize = 0;
    while j < m
        invariant
            n == s@.len(),
            m == pat@.len(),
            i + m <= n,
            j <= m,
            forall|k: int| 0 <= k < j ==> s@[i + k] == pat@[k],
        decreases m - j,
    {
        if s.get_char(i + j) != pat.get_char(j) {
            proof {
                assert(s@.subrange(i as int, i as int + pat@.len())[j as int] == s@[i + j as int]);
            }
            return false;
        }
        j = j + 1;
    }
    proof {
        assert(s@.subrange(i as int, i as int + pat@.len()) =~= pat@);
    }
    true
}

/// Replaces every occurrence of a non-empty pattern, left to right.
pub fn replace_all(s: &str, pat: &str, rep: &str) -> (r: String)
    requires
        pat@.len() > 0,
    ensures
        r@ == spec_replace(s@, pat@, rep@),
{
    let n = s.unicode_len();
    let m = pat.unicode_len();
    let mut out = String::new();
    let mut i: usize = 0;
    proof {
        assert(s@.skip(0) =~= s@);
    }
    while i < n
        invariant
            n == s@.len(),
            m == pat@.len(),
            m > 0,
            i <= n,
            out@ + spec_replace(s@.skip(i as int), pat@, rep@) == spec_replace(s@, pat@, rep@),
        decreases n - i,
    {
        let ghost prev = out@;
        if m <= n - i && match_at(s, i, pat) {
            out.append(rep);
            proof {
                assert(s@.skip(i as int).take(m as int) =~= s@.subrange(i as int, i as int + m));
                assert(s@.skip(i as int).skip(m as int) =~= s@.skip(i as int + m));
                assert(out@ + spec_replace(s@.skip(i as int + m), pat@, rep@) =~= prev
                    + spec_replace(s@.skip(i as int), pat@, rep@));
            }
            i = i + m;
        } else {
            push_char(&mut out, s.get_char(i));
            proof {
                assert(s@.skip(i as int).drop_first() =~= s@.skip(i as int + 1));
                assert(s@.skip(i as int)[0] == s@[i as int]);
                if s@.skip(i as int).len() < m {
                    assert(out@ + spec_replace(s@.skip(i as int + 1), pat@, rep@) =~= prev
                        + spec_replace(s@.skip(i as int), pat@, rep@));
                } else {
                    assert(s@.skip(i as int).take(m as int) =~= s@.subrange(
                        i as int,
                        i as int + m,
                    ));
                    assert(out@ + spec_replace(s@.skip(i as int + 1), pat@, rep@) =~= prev
                        + spec_replace(s@.skip(i as int), pat@, rep@));
                }
            }
            i = i + 1;
        }
    }
    proof {
        assert(s@.skip(n as int) =~= Seq::<char>::empty());
        assert(out@ =~= spec_replace(s@, pat@, rep@));
    }
    out
}

/// The fixed class injection, applied tag by tag in a fixed order. Table
/// data cells come out as header-styled cells: the established visible
/// output keeps that quirk on purpose.
pub open spec fn spec_inject_classes(h: Seq<char>) -> Seq<char> {
    let h1 = spec_replace(h, "<p>"@, "<p class=\"mb-4 dark:text-white\">"@);
    let h2 = spec_replace(
        h1,
        "<table>"@,
        "<table class=\"mb-4 gray-400 dark:text-white dark:gray-800\">"@,
    );
    let h3 = spec_replace(h2, "<h1>"@, "<h1 class=\"text-4xl font-bold mb-2 dark:text-white\">"@);
    let h4 = spec_replace(h3, "<h2>"@, "<h2 class=\"text-3xl font-bold mb-2 dark:text-white\">"@);
    let h5 = spec_replace(h4, "<h3>"@, "<h3 class=\"text-2xl font-bold mb-2 dark:text-white\">"@);
    let h6 = spec_replace(h5, "<h4>"@, "<h4 class=\"text-xl font-bold mb-2 dark:text-white\">"@);
    let h7 = spec_replace(h6, "<h5>"@, "<h5 class=\"text-lg font-bold mb-2 dark:text-white\">"@);
    let h8 = spec_replace(h7, "<h6>"@, "<h6 class=\"text-base font-bold mb-2 dark:text-white\">"@);
    let h9 = spec_replace(
        h8,
        "<pre>"@,
        "<pre class=\"mb-4 bg-gray-200 dark:text-white dark:bg-gray-900\">"@,
    );
    let h10 = spec_replace(h9, "<th>"@, "<th class=\"bg-gray-300 dark:bg-gray-900\">"@);
    let h11 = spec_replace(h10, "<td>"@, "<th class=\"bg-gray-100 dark:bg-gray-700\">"@);
    spec_replace(h11, "<a "@, "<a class=\"text-blue-400 dark:text-orange-600\" "@)
}

/// Injects the fixed presentation classes into baseline HTML.
pub fn inject_classes(html: &str) -> (r: String)
    ensures
        r@ == spec_inject_classes(html@),
{
    proof {
        reveal_strlit("<p>");
        reveal_strlit("<table>");
        reveal_strlit("<h1>");
        reveal_strlit("<h2>");
        reveal_strlit("<h3>");
        reveal_strlit("<h4>");
        reveal_strlit("<h5>");
        reveal_strlit("<h6>");
        reveal_strlit("<pre>");
        reveal_strlit("<th>");
        reveal_strlit("<td>");
        reveal_strlit("<a ");
    }
    let h1 = replace_all(html, "<p>", "<p class=\"mb-4 dark:text-white\">");
    let h2 = replace_all(
        h1.as_str(),
        "<table>",
        "<table class=\"mb-4 gray-400 dark:text-white dark:gray-800\">",
    );
    let h3 = replace_all(h2.as_str(), "<h1>", "<h1 class=\"text-4xl font-bold mb-2 dark:text-white\">");
    let h4 = replace_all(h3.as_str(), "<h2>", "<h2 class=\"text-3xl font-bold mb-2 dark:text-white\">");
    let h5 = replace_all(h4.as_str(), "<h3>", "<h3 class=\"text-2xl font-bold mb-2 dark:text-white\">");
    let h6 = replace_all(h5.as_str(), "<h4>", "<h4 class=\"text-xl font-bold mb-2 dark:text-white\">");
    let h7 = replace_all(h6.as_str(), "<h5>", "<h5 class=\"text-lg font-bold mb-2 dark:text-white\">");
    let h8 = replace_all(h7.as_str(), "<h6>", "<h6 class=\"text-base font-bold mb-2 dark:text-white\">");
    let h9 = replace_all(
        h8.as_str(),
        "<pre>",
        "<pre class=\"mb-4 bg-gray-200 dark:text-white dark:bg-gray-900\">",
    );
    let h10 = replace_all(h9.as_str(), "<th>", "<th class=\"bg-gray-300 dark:bg-gray-900\">");
    let h11 = replace_all(h10.as_str(), "<td>", "<th class=\"bg-gray-100 dark:bg-gray-700\">");
    replace_all(h11.as_str(), "<a ", "<a class=\"text-blue-400 dark:text-orange-600\" ")
}

/// What rendering a post body yields: the engine's baseline HTML with
/// the presentation classes injected. A function of the markdown alone,
/// so rendering the same text twice yields byte-identical output.
pub open spec fn spec_render(md: Seq<char>) -> Seq<char> {
    spec_inject_classes(html_of(md))
}

/// Renders a post's markdown body to styled HTML.
pub fn render_markdown(md: &str) -> (r: String)
    ensures
        r@ == spec_render(md@),
{
    let html = markdown_to_html(md);
    inject_classes(html.as_str())
}

} // verus!
