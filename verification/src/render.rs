//! Render pipeline: the pure markup-to-HTML transform, with a fixed,
//! non-configurable set of syntax extensions enabled.

use vstd::prelude::*;

verus! {

/// The HTML that the markdown renderer produces for the given markup with
/// the fixed extension set enabled. The renderer is a pure transform: its
/// output depends on the markup text alone, so this is a function of it.
pub uninterp spec fn html_of(markup: Seq<char>) -> Seq<char>;

/// Relies on pulldown_cmark::Parser::new_ext and pulldown_cmark::html::push_html:
/// a pure, total transform of the markup text, independent of clock, locale
/// or any other state, with strikethrough, tables, footnotes, task lists,
/// smart punctuation and heading attributes enabled.
#[verifier::external_body]
pub(crate) fn render(markup: &str) -> (r: String)
    ensures
        r@ == html_of(markup@),
{
    let mut options = pulldown_cmark::Options::empty();
    options.insert(pulldown_cmark::Options::ENABLE_STRIKETHROUGH);
    options.insert(pulldown_cmark::Options::ENABLE_TABLES);
    options.insert(pulldown_cmark::Options::ENABLE_FOOTNOTES);
    options.insert(pulldown_cmark::Options::ENABLE_TASKLISTS);
    options.insert(pulldown_cmark::Options::ENABLE_SMART_PUNCTUATION);
    options.insert(pulldown_cmark::Options::ENABLE_HEADING_ATTRIBUTES);
    let parser = pulldown_cmark::Parser::new_ext(markup, options);
    let mut html = String::new();
    pulldown_cmark::html::push_html(&mut html, parser);
    html
}

/// Deterministic rendering: the HTML depends on the markup text alone, so
/// equal markup always renders to equal HTML, across repeated calls.
pub proof fn lemma_render_deterministic(a: Seq<char>, b: Seq<char>)
    requires
        a == b,
    ensures
        html_of(a) == html_of(b),
{
}

} // verus!
