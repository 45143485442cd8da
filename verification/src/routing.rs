//! From source paths to output paths and URLs.

use vstd::prelude::*;
use crate::content::{is_markdown, is_markdown_path, Document, PageMeta};
use crate::paths::{
    path_file_name, path_file_stem, path_join, path_parent, path_starts_with, path_strip_prefix,
    path_with_extension,
};
use crate::text::{
    char_is_ascii_alnum, chars_of, eq_ignore_ascii_case, is_ascii_alnum, opt_view,
    same_ignoring_ascii_case, str_eq, string_of,
};

verus! {

/// The lowercase form of a character, as `char::to_lowercase` gives it: one
/// character, or several.
pub uninterp spec fn char_lowercase(c: char) -> Seq<char>;

/// Trusted: calls `char::to_lowercase` and collects what it yields; the
/// result is the one named by [`char_lowercase`].
#[verifier::external_body]
fn lower_of(c: char) -> (lower: Vec<char>)
    ensures
        lower@ == char_lowercase(c),
{
    c.to_lowercase().collect()
}

/// The characters of `s`, each in its lowercase form.
pub open spec fn lowered(s: Seq<char>) -> Seq<char>
    decreases s.len(),
{
    if s.len() == 0 {
        Seq::empty()
    } else {
        lowered(s.drop_last()) + char_lowercase(s.last())
    }
}

/// Computes [`lowered`].
pub fn lowercase_chars(s: &str) -> (out: Vec<char>)
    ensures
        out@ == lowered(s@),
{
    let src = chars_of(s);
    let mut out: Vec<char> = Vec::new();
    let mut i: usize = 0;
    assert(src@.take(0) =~= Seq::empty());
    while i < src.len()
        invariant
            i <= src.len(),
            out@ == lowered(src@.take(i as int)),
        decreases src.len() - i,
    {
        let mut lower = lower_of(src[i]);
        proof {
            let next = src@.take(i + 1);
            assert(next.drop_last() =~= src@.take(i as int));
            assert(next.last() == src@[i as int]);
        }
        out.append(&mut lower);
        i += 1;
    }
    assert(src@.take(src.len() as int) =~= src@);
    out
}

/// The characters that a slug shows as a dash.
pub open spec fn is_slug_break(c: char) -> bool {
    c == ' ' || c == '-' || c == '_' || c == '.'
}

/// A slug in the making: what is written so far, and whether it ends in a
/// dash that stands for a break.
pub open spec fn slug_scan(chars: Seq<char>) -> (Seq<char>, bool)
    decreases chars.len(),
{
    if chars.len() == 0 {
        (Seq::empty(), false)
    } else {
        let (out, dash) = slug_scan(chars.drop_last());
        let c = chars.last();
        if is_ascii_alnum(c) {
            (out.push(c), false)
        } else if is_slug_break(c) && !dash && out.len() > 0 {
            (out.push('-'), true)
        } else {
            (out, dash)
        }
    }
}

/// The slug when nothing else is left.
pub open spec fn untitled() -> Seq<char> {
    seq!['u', 'n', 't', 'i', 't', 'l', 'e', 'd']
}

/// The slug of a text already in lowercase: its ASCII letters and digits
/// stay, each run of spaces, dashes, underscores and dots between them
/// becomes one dash, and everything else is dropped. No dash stands at either
/// end. A text that leaves nothing gets the slug `untitled`.
pub open spec fn slug_of(chars: Seq<char>) -> Seq<char> {
    let out = slug_scan(chars).0;
    let cut = if out.len() > 0 && out.last() == '-' {
        out.drop_last()
    } else {
        out
    };
    if cut.len() == 0 {
        untitled()
    } else {
        cut
    }
}

/// The shape of a slug in the making: letters, digits and single dashes, the
/// first character no dash, and the flag set exactly when the last is one.
pub proof fn lemma_slug_scan(chars: Seq<char>)
    ensures
        ({
            let (out, dash) = slug_scan(chars);
            &&& forall|i: int| 0 <= i < out.len() ==> is_ascii_alnum(#[trigger] out[i]) || out[i] == '-'
            &&& forall|i: int| 0 <= i < out.len() - 1 ==> !(#[trigger] out[i] == '-' && out[i + 1] == '-')
            &&& out.len() > 0 ==> out[0] != '-'
            &&& dash ==> out.len() > 0 && out.last() == '-'
            &&& !dash && out.len() > 0 ==> out.last() != '-'
        }),
    decreases chars.len(),
{
    if chars.len() > 0 {
        lemma_slug_scan(chars.drop_last());
    }
}

/// A slug is never empty, holds nothing but ASCII letters, digits and
/// dashes, neither begins nor ends with a dash, and has no two dashes in a
/// row.
pub proof fn law_slug_shape(chars: Seq<char>)
    ensures
        ({
            let slug = slug_of(chars);
            &&& slug.len() > 0
            &&& forall|i: int| 0 <= i < slug.len() ==> is_ascii_alnum(#[trigger] slug[i]) || slug[i] == '-'
            &&& forall|i: int| 0 <= i < slug.len() - 1 ==> !(#[trigger] slug[i] == '-' && slug[i + 1] == '-')
            &&& slug[0] != '-'
            &&& slug.last() != '-'
        }),
{
    lemma_slug_scan(chars);
    let out = slug_scan(chars).0;
    if out.len() > 0 && out.last() == '-' {
        let cut = out.drop_last();
        if cut.len() > 0 {
            assert(cut.last() == out[out.len() - 2]);
            assert(!(out[out.len() - 2] == '-' && out[out.len() - 2 + 1] == '-'));
        }
    }
}

/// The slug of a text that is already in lowercase; see [`slug_of`].
pub fn slug_from_chars(chars: &Vec<char>) -> (slug: String)
    ensures
        slug@ == slug_of(chars@),
{
    let mut out: Vec<char> = Vec::new();
    let mut dash = false;
    let mut i: usize = 0;
    assert(chars@.take(0) =~= Seq::empty());
    while i < chars.len()
        invariant
            i <= chars.len(),
            (out@, dash) == slug_scan(chars@.take(i as int)),
        decreases chars.len() - i,
    {
        let c = chars[i];
        proof {
            let next = chars@.take(i + 1);
            assert(next.drop_last() =~= chars@.take(i as int));
            assert(next.last() == c);
        }
        if char_is_ascii_alnum(c) {
            out.push(c);
            dash = false;
        } else if (c == ' ' || c == '-' || c == '_' || c == '.') && !dash && out.len() > 0 {
            out.push('-');
            dash = true;
        }
        i += 1;
    }
    assert(chars@.take(chars.len() as int) =~= chars@);
    if out.len() > 0 && out[out.len() - 1] == '-' {
        out.pop();
    }
    if out.len() == 0 {
        let slug = "untitled".to_owned();
        proof {
            reveal_strlit("untitled");
            assert(slug@ =~= untitled());
        }
        slug
    } else {
        string_of(&out)
    }
}

/// The slug of `s`: the slug of its lowercase form.
pub fn slugify(s: &str) -> (slug: String)
    ensures
        slug@ == slug_of(lowered(s@)),
{
    let lower = lowercase_chars(s);
    slug_from_chars(&lower)
}

/// `path` below `root`, or `path` itself where it does not lie below
/// `root`.
pub open spec fn relative_to(path: Seq<char>, root: Seq<char>) -> Seq<char> {
    match path_strip_prefix(path, root) {
        Some(rel) => rel,
        None => path,
    }
}

/// Computes [`relative_to`].
pub fn relative_path(path: &str, root: &str) -> (rel: String)
    ensures
        rel@ == relative_to(path@, root@),
{
    match crate::paths::strip_prefix(path, root) {
        Some(rel) => rel,
        None => path.to_owned(),
    }
}

/// What a source file becomes in the output tree.
#[derive(Debug, PartialEq, Eq)]
pub enum Route {
    /// An index file: it keeps its name and its place.
    Index,
    /// A page in a directory of its own, named by the slug of this text.
    Page(String),
}

/// The content of a [`Route`].
pub enum RouteView {
    Index,
    Page(Seq<char>),
}

impl View for Route {
    type V = RouteView;

    open spec fn view(&self) -> RouteView {
        match self {
            Route::Index => RouteView::Index,
            Route::Page(text) => RouteView::Page(text@),
        }
    }
}

/// The route of a file with the given stem, whose front matter declares the
/// given slug: a file with the stem `index` is an index file, whatever slug
/// it declares; any other file is a page, named by the declared slug, else
/// by its stem, else `untitled`.
pub open spec fn route(stem: Option<Seq<char>>, declared: Option<Seq<char>>) -> RouteView {
    if stem == Some("index"@) {
        RouteView::Index
    } else {
        RouteView::Page(
            match declared {
                Some(slug) => slug,
                None => match stem {
                    Some(stem) => stem,
                    None => "untitled"@,
                },
            },
        )
    }
}

/// Decides the route of a file; see [`route`].
pub fn route_for(stem: Option<&str>, declared: Option<&str>) -> (r: Route)
    ensures
        r@ == route(
            match stem {
                Some(s) => Some(s@),
                None => None,
            },
            match declared {
                Some(s) => Some(s@),
                None => None,
            },
        ),
{
    let is_index = match stem {
        Some(s) => str_eq(s, "index"),
        None => false,
    };
    if is_index {
        return Route::Index;
    }
    match declared {
        Some(slug) => Route::Page(slug.to_owned()),
        None => match stem {
            Some(stem) => Route::Page(stem.to_owned()),
            None => Route::Page("untitled".to_owned()),
        },
    }
}

/// Where the page of a source file is written.
///
/// An index file keeps its place below the output root and gets the
/// extension `html`. A page becomes a directory of its own, named by its
/// slug, with an `index.html` in it.
pub open spec fn out_path(
    src_root: Seq<char>,
    out_root: Seq<char>,
    md_path: Seq<char>,
    slug: Option<Seq<char>>,
) -> Seq<char> {
    let rel = relative_to(md_path, src_root);
    match route(path_file_stem(rel), slug) {
        RouteView::Index => path_with_extension(path_join(out_root, rel), "html"@),
        RouteView::Page(text) => {
            let dir = match path_parent(rel) {
                Some(dir) => dir,
                None => Seq::empty(),
            };
            path_join(
                path_join(path_join(out_root, dir), slug_of(lowered(text))),
                "index.html"@,
            )
        },
    }
}

/// The slug that a document's front matter asks for.
pub open spec fn declared_slug(doc: Document<PageMeta>) -> Option<Seq<char>> {
    match doc.front_matter {
        Some(meta) => opt_view(meta.slug),
        None => None,
    }
}

/// The output path of the document read from `md_path`; see [`out_path`].
pub fn out_path_for(src_root: &str, out_root: &str, md_path: &str, doc: &Document<PageMeta>) -> (dest:
    String)
    ensures
        dest@ == out_path(src_root@, out_root@, md_path@, declared_slug(*doc)),
{
    let rel = relative_path(md_path, src_root);
    let stem = crate::paths::file_stem(rel.as_str());
    let declared: Option<&str> = match &doc.front_matter {
        Some(meta) => match &meta.slug {
            Some(s) => Some(s.as_str()),
            None => None,
        },
        None => None,
    };
    let stem_text: Option<&str> = match &stem {
        Some(s) => Some(s.as_str()),
        None => None,
    };
    match route_for(stem_text, declared) {
        Route::Index => {
            let dest = crate::paths::join(out_root, rel.as_str());
            proof {
                reveal_strlit("html");
            }
            crate::paths::with_extension(dest.as_str(), "html")
        },
        Route::Page(text) => {
            let slug = slugify(text.as_str());
            let dir = match crate::paths::parent(rel.as_str()) {
                Some(d) => d,
                None => String::new(),
            };
            let below = crate::paths::join(out_root, dir.as_str());
            let page_dir = crate::paths::join(below.as_str(), slug.as_str());
            crate::paths::join(page_dir.as_str(), "index.html")
        },
    }
}

/// `s` with every backslash turned into a slash.
pub open spec fn slashed(s: Seq<char>) -> Seq<char> {
    Seq::new(s.len(), |i: int| if s[i] == '\\' { '/' } else { s[i] })
}

/// The URL of an output file, given its path below the output root and the
/// file name and the parent directory of that path.
///
/// The URL is the path, behind a slash, with slashes for separators. An
/// `index.html`, in any case, stands for its directory: its URL is the
/// directory's, closed by a slash, and `/` at the root.
pub open spec fn url_from(rel: Seq<char>, name: Option<Seq<char>>, dir: Option<Seq<char>>) -> Seq<
    char,
> {
    let is_index = match name {
        Some(name) => same_ignoring_ascii_case(name, "index.html"@),
        None => false,
    };
    if is_index {
        let dir = match dir {
            Some(dir) => dir,
            None => Seq::empty(),
        };
        if dir.len() == 0 {
            seq!['/']
        } else {
            seq!['/'] + slashed(dir) + seq!['/']
        }
    } else {
        seq!['/'] + slashed(rel)
    }
}

/// The URL of the output file at `out_path`; see [`url_from`].
pub open spec fn url_of(out_root: Seq<char>, out_path: Seq<char>) -> Seq<char> {
    let rel = relative_to(out_path, out_root);
    url_from(rel, path_file_name(rel), path_parent(rel))
}

fn with_slashes(s: &str) -> (out: Vec<char>)
    ensures
        out@ == seq!['/'] + slashed(s@),
{
    let src = chars_of(s);
    let mut out: Vec<char> = Vec::new();
    out.push('/');
    let mut i: usize = 0;
    while i < src.len()
        invariant
            i <= src.len(),
            out@.len() == i + 1,
            out@[0] == '/',
            forall|j: int| 0 <= j < i ==> out@[j + 1] == slashed(src@)[j],
        decreases src.len() - i,
    {
        let c = src[i];
        out.push(if c == '\\' { '/' } else { c });
        i += 1;
    }
    assert(out@ =~= seq!['/'] + slashed(s@));
    out
}

/// Computes [`url_from`].
pub fn url_from_parts(rel: &str, name: Option<&str>, dir: Option<&str>) -> (url: String)
    ensures
        url@ == url_from(
            rel@,
            match name {
                Some(s) => Some(s@),
                None => None,
            },
            match dir {
                Some(s) => Some(s@),
                None => None,
            },
        ),
{
    let is_index = match name {
        Some(name) => eq_ignore_ascii_case(name, "index.html"),
        None => false,
    };
    if is_index {
        let mut url = match dir {
            Some(d) => with_slashes(d),
            None => {
                let none = String::new();
                with_slashes(none.as_str())
            },
        };
        if url.len() > 1 {
            url.push('/');
        }
        let r = string_of(&url);
        assert(r@ =~= url_from(
            rel@,
            match name {
                Some(s) => Some(s@),
                None => None,
            },
            match dir {
                Some(s) => Some(s@),
                None => None,
            },
        ));
        r
    } else {
        let url = with_slashes(rel);
        string_of(&url)
    }
}

/// The URL under which the output file at `out_path` is served; see
/// [`url_of`].
pub fn url_for_out_path(out_root: &str, out_path: &str) -> (url: String)
    ensures
        url@ == url_of(out_root@, out_path@),
{
    let rel = relative_path(out_path, out_root);
    let name = crate::paths::file_name(rel.as_str());
    let dir = crate::paths::parent(rel.as_str());
    url_from_parts(
        rel.as_str(),
        match &name {
            Some(s) => Some(s.as_str()),
            None => None,
        },
        match &dir {
            Some(s) => Some(s.as_str()),
            None => None,
        },
    )
}

/// Where a file of the source tree is copied to as a static asset, if it is
/// one.
///
/// Files outside the source root, files below its `templates` directory, the
/// site configuration `site.toml` and Markdown sources are no assets. Every
/// other file keeps its place below the output root.
pub open spec fn asset_target(src_root: Seq<char>, out_root: Seq<char>, path: Seq<char>) -> Option<
    Seq<char>,
> {
    match path_strip_prefix(path, src_root) {
        None => None,
        Some(rel) => if path_starts_with(rel, "templates"@) || path_file_name(rel) == Some(
            "site.toml"@,
        ) || is_markdown(path) {
            None
        } else {
            Some(path_join(out_root, rel))
        },
    }
}

/// Decides whether the file at `path` is copied as a static asset, and where
/// to; see [`asset_target`].
pub fn asset_destination(src_root: &str, out_root: &str, path: &str) -> (dest: Option<String>)
    ensures
        opt_view(dest) == asset_target(src_root@, out_root@, path@),
{
    let rel = match crate::paths::strip_prefix(path, src_root) {
        Some(rel) => rel,
        None => {
            return None;
        },
    };
    if crate::paths::starts_with(rel.as_str(), "templates") {
        return None;
    }
    let is_config = match crate::paths::file_name(rel.as_str()) {
        Some(name) => str_eq(name.as_str(), "site.toml"),
        None => false,
    };
    if is_config {
        return None;
    }
    if is_markdown_path(path) {
        return None;
    }
    Some(crate::paths::join(out_root, rel.as_str()))
}

} // verus!
