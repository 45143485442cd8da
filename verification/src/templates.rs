//! What a page template is rendered with.
//!
//! The template engine is the caller's. Which template renders a document,
//! and which values it sees under `site` and `page`, is decided here.

use vstd::prelude::*;
use crate::config::SiteConfig;
use crate::content::{Document, PageMeta};
use crate::paths::path_file_stem;
use crate::render::{body_html, cleaned_html, render_html_sanitized};
use crate::routing::url_of;
use crate::taxonomy::{summarize, PageSummary, SummaryView};
use crate::text::{clone_opt, clone_strings, opt_view, views};

verus! {

/// What a template sees of the site.
#[derive(Debug)]
pub struct SiteContext {
    pub title: String,
    pub base_url: String,
    pub theme: String,
    pub description: Option<String>,
    pub author: Option<String>,
}

/// What a template sees of the page.
#[derive(Debug)]
pub struct PageContext {
    pub title: String,
    pub slug: String,
    pub tags: Vec<String>,
    pub date: Option<String>,
    pub draft: bool,
    pub content: String,
}

/// One rendering: the name of the template, and the values for it.
#[derive(Debug)]
pub struct RenderRequest {
    pub template: String,
    pub site: SiteContext,
    pub page: PageContext,
}

/// The title of a page: the one its front matter declares, else `Untitled`.
pub open spec fn page_title(doc: Document<PageMeta>) -> Seq<char> {
    match doc.front_matter {
        Some(PageMeta { title: Some(title), .. }) => title@,
        _ => "Untitled"@,
    }
}

/// The slug a template sees: the one the front matter declares, else the
/// stem of the document's file name, else `index`.
pub open spec fn page_slug(doc: Document<PageMeta>) -> Seq<char> {
    match doc.front_matter {
        Some(PageMeta { slug: Some(slug), .. }) => slug@,
        _ => match path_file_stem(doc.path@) {
            Some(stem) => stem,
            None => "index"@,
        },
    }
}

/// The template of a page: the one its front matter declares, else
/// `post.html`.
pub open spec fn page_template(doc: Document<PageMeta>) -> Seq<char> {
    match doc.front_matter {
        Some(PageMeta { template: Some(template), .. }) => template@,
        _ => "post.html"@,
    }
}

/// The tags of a page: those of its front matter, or none.
pub open spec fn page_tags(doc: Document<PageMeta>) -> Seq<Seq<char>> {
    match doc.front_matter {
        Some(meta) => views(meta.tags@),
        None => Seq::empty(),
    }
}

/// The date of a page, if its front matter declares one.
pub open spec fn page_date(doc: Document<PageMeta>) -> Option<Seq<char>> {
    match doc.front_matter {
        Some(meta) => opt_view(meta.date),
        None => None,
    }
}

/// Whether a page is a draft: only if its front matter says so.
pub open spec fn page_draft(doc: Document<PageMeta>) -> bool {
    match doc.front_matter {
        Some(meta) => meta.draft,
        None => false,
    }
}

/// What the site shows to a template.
pub fn site_context(cfg: &SiteConfig) -> (site: SiteContext)
    ensures
        site.title@ == cfg@.title,
        site.base_url@ == cfg@.base_url,
        site.theme@ == cfg@.theme,
        opt_view(site.description) == cfg@.description,
        opt_view(site.author) == cfg@.author,
{
    SiteContext {
        title: cfg.title.clone(),
        base_url: cfg.base_url.clone(),
        theme: cfg.theme.clone(),
        description: clone_opt(&cfg.description),
        author: clone_opt(&cfg.author),
    }
}

/// The template that renders `doc`; see [`page_template`].
pub fn template_for(doc: &Document<PageMeta>) -> (name: String)
    ensures
        name@ == page_template(*doc),
{
    match &doc.front_matter {
        Some(meta) => match &meta.template {
            Some(t) => t.clone(),
            None => "post.html".to_owned(),
        },
        None => "post.html".to_owned(),
    }
}

fn stem_or_index(path: &str) -> (s: String)
    ensures
        s@ == (match path_file_stem(path@) {
            Some(stem) => stem,
            None => "index"@,
        }),
{
    match crate::paths::file_stem(path) {
        Some(stem) => stem,
        None => "index".to_owned(),
    }
}

/// What `doc` shows to a template: its metadata with the defaults filled in,
/// and its body as cleaned HTML.
pub fn page_context(doc: &Document<PageMeta>) -> (page: PageContext)
    ensures
        page.title@ == page_title(*doc),
        page.slug@ == page_slug(*doc),
        views(page.tags@) == page_tags(*doc),
        opt_view(page.date) == page_date(*doc),
        page.draft == page_draft(*doc),
        page.content@ == cleaned_html(body_html(doc.body@)),
{
    let content = render_html_sanitized(doc);
    match &doc.front_matter {
        Some(meta) => {
            let title = match &meta.title {
                Some(t) => t.clone(),
                None => "Untitled".to_owned(),
            };
            let slug = match &meta.slug {
                Some(s) => s.clone(),
                None => stem_or_index(doc.path.as_str()),
            };
            PageContext {
                title,
                slug,
                tags: clone_strings(&meta.tags),
                date: clone_opt(&meta.date),
                draft: meta.draft,
                content,
            }
        },
        None => {
            let tags: Vec<String> = Vec::new();
            assert(views(tags@) =~= Seq::empty());
            PageContext {
                title: "Untitled".to_owned(),
                slug: stem_or_index(doc.path.as_str()),
                tags,
                date: None,
                draft: false,
                content,
            }
        },
    }
}

/// The rendering of the page of `doc`: its template, and the site and the
/// page as the template sees them.
pub fn render_request(cfg: &SiteConfig, doc: &Document<PageMeta>) -> (request: RenderRequest)
    ensures
        request.template@ == page_template(*doc),
        request.site.title@ == cfg@.title,
        request.site.base_url@ == cfg@.base_url,
        request.site.theme@ == cfg@.theme,
        opt_view(request.site.description) == cfg@.description,
        opt_view(request.site.author) == cfg@.author,
        request.page.title@ == page_title(*doc),
        request.page.slug@ == page_slug(*doc),
        views(request.page.tags@) == page_tags(*doc),
        opt_view(request.page.date) == page_date(*doc),
        request.page.draft == page_draft(*doc),
        request.page.content@ == cleaned_html(body_html(doc.body@)),
{
    RenderRequest { template: template_for(doc), site: site_context(cfg), page: page_context(doc) }
}

/// The summary of the page of `doc`, written to `out_path`: its title and
/// tags as a template sees them, and the URL of its output file.
pub fn page_summary(doc: &Document<PageMeta>, out_root: &str, out_path: &str) -> (summary:
    PageSummary)
    ensures
        summary@ == (SummaryView {
            title: page_title(*doc),
            url: url_of(out_root@, out_path@),
            tags: page_tags(*doc),
        }),
{
    match &doc.front_matter {
        Some(meta) => {
            match &meta.title {
                Some(title) => summarize(doc, out_root, out_path, meta.tags.as_slice(), title.as_str()),
                None => summarize(doc, out_root, out_path, meta.tags.as_slice(), "Untitled"),
            }
        },
        None => {
            let none: Vec<String> = Vec::new();
            assert(views(none@) =~= Seq::empty());
            summarize(doc, out_root, out_path, none.as_slice(), "Untitled")
        },
    }
}

} // verus!
