//! From a document's body to HTML.

use vstd::prelude::*;
use crate::content::Document;

verus! {

/// The HTML that `pulldown-cmark` writes for a Markdown text, with each of
/// the four extensions switched on or off.
pub uninterp spec fn markdown_html(
    source: Seq<char>,
    tables: bool,
    footnotes: bool,
    strikethrough: bool,
    tasklists: bool,
) -> Seq<char>;

/// The HTML that `ammonia` leaves of a piece of HTML when it cleans it with
/// its default rules.
pub uninterp spec fn cleaned_html(html: Seq<char>) -> Seq<char>;

/// Trusted: parses `source` with `pulldown_cmark::Parser::new_ext` under the
/// options given and writes the events with `pulldown_cmark::html::push_html`
/// into an empty string. The result is the one named by [`markdown_html`].
#[verifier::external_body]
fn markdown_to_html(
    source: &str,
    tables: bool,
    footnotes: bool,
    strikethrough: bool,
    tasklists: bool,
) -> (html: String)
    ensures
        html@ == markdown_html(source@, tables, footnotes, strikethrough, tasklists),
{
    let mut options = pulldown_cmark::Options::empty();
    options.set(pulldown_cmark::Options::ENABLE_TABLES, tables);
    options.set(pulldown_cmark::Options::ENABLE_FOOTNOTES, footnotes);
    options.set(pulldown_cmark::Options::ENABLE_STRIKETHROUGH, strikethrough);
    options.set(pulldown_cmark::Options::ENABLE_TASKLISTS, tasklists);
    let parser = pulldown_cmark::Parser::new_ext(source, options);
    let mut html = String::new();
    pulldown_cmark::html::push_html(&mut html, parser);
    html
}

/// Trusted: calls `ammonia::clean`. The result is the one named by
/// [`cleaned_html`].
#[verifier::external_body]
fn clean_html(html: &str) -> (clean: String)
    ensures
        clean@ == cleaned_html(html@),
{
    ammonia::clean(html)
}

/// The HTML of a page body: Markdown with tables, footnotes, strikethrough
/// and task lists.
pub open spec fn body_html(body: Seq<char>) -> Seq<char> {
    markdown_html(body, true, true, true, true)
}

/// Renders the body of `doc` to HTML.
pub fn render_html<M>(doc: &Document<M>) -> (html: String)
    ensures
        html@ == body_html(doc.body@),
{
    markdown_to_html(doc.body.as_str(), true, true, true, true)
}

/// Renders the body of `doc` to HTML and cleans the result of anything that
/// a page should not carry.
pub fn render_html_sanitized<M>(doc: &Document<M>) -> (html: String)
    ensures
        html@ == cleaned_html(body_html(doc.body@)),
{
    let html = render_html(doc);
    clean_html(html.as_str())
}

} // verus!
