use ssg::routing::{route_for, Route};
use ssg::routing::url_from_parts;
use ssg::content::{Document, PageMeta};
use ssg::routing::{
    asset_destination, lowercase_chars, out_path_for, relative_path, slug_from_chars, slugify,
    url_for_out_path,
};

#[test]
fn slugify_basic() {
    assert_eq!(slugify("My Post!"), "my-post");
    assert_eq!(slugify("   spaces   "), "spaces");
    assert_eq!(slugify(""), "untitled");
}

#[test]
fn out_path_for_index_and_post() {
    let src = "/s";
    let out = "/o";

    let idx = "/s/index.md";
    let doc_index = Document::<PageMeta> {
        path: idx.into(),
        front_matter: None,
        body: String::new(),
    };
    let index_path = out_path_for(src, out, idx, &doc_index);
    assert_eq!(index_path, "/o/index.html");

    let post = "/s/posts/first.md";
    let doc_post = Document::<PageMeta> {
        path: post.into(),
        front_matter: None,
        body: String::new(),
    };
    let post_path = out_path_for(src, out, post, &doc_post);
    assert_eq!(post_path, "/o/posts/first/index.html");

    let with_slug = Document::<PageMeta> {
        path: post.into(),
        front_matter: Some(PageMeta {
            slug: Some("custom-slug".into()),
            ..Default::default()
        }),
        body: String::new(),
    };
    let slug_path = out_path_for(src, out, post, &with_slug);
    assert_eq!(slug_path, "/o/posts/custom-slug/index.html");
}

#[test]
fn url_for_out_path_index_rules() {
    assert_eq!(url_for_out_path("/o", "/o/index.html"), "/");
    assert_eq!(
        url_for_out_path("/o", "/o/posts/first/index.html"),
        "/posts/first/"
    );
    assert_eq!(url_for_out_path("/o", "/o/raw.html"), "/raw.html");
}

#[test]
fn slug_collapses_runs_of_breaks() {
    assert_eq!(slugify("a - b"), "a-b");
    assert_eq!(slugify("a._ -b"), "a-b");
    assert_eq!(slugify("a!b"), "ab");
    assert_eq!(slugify("a! b"), "a-b");
}

#[test]
fn slug_has_no_dash_at_either_end() {
    assert_eq!(slugify("--a--"), "a");
    assert_eq!(slugify("a."), "a");
    assert_eq!(slugify(". a"), "a");
}

#[test]
fn slug_of_nothing_usable_is_untitled() {
    assert_eq!(slugify("!!!"), "untitled");
    assert_eq!(slugify(" - "), "untitled");
    assert_eq!(slugify("\u{00e9}\u{00e9}"), "untitled");
}

#[test]
fn slug_keeps_digits_and_drops_other_letters() {
    assert_eq!(slugify("Caf\u{00e9} 24"), "caf-24");
    assert_eq!(slugify("2024.01.15"), "2024-01-15");
}

#[test]
fn slug_lowers_letters_outside_ascii() {
    // The Kelvin sign has the ASCII letter k as its lowercase form.
    assert_eq!(slugify("\u{212A}elvin"), "kelvin");
    // A capital I with a dot above lowers to i and a combining dot.
    assert_eq!(slugify("\u{0130}zmir"), "izmir");
}

#[test]
fn lowercase_chars_may_grow() {
    assert_eq!(lowercase_chars("A\u{0130}"), vec!['a', 'i', '\u{0307}']);
    assert_eq!(lowercase_chars(""), Vec::<char>::new());
}

#[test]
fn slug_from_chars_keeps_capitals_it_is_given() {
    let chars: Vec<char> = "Ab c".chars().collect();
    assert_eq!(slug_from_chars(&chars), "Ab-c");
}

#[test]
fn relative_path_strips_whole_components_only() {
    assert_eq!(relative_path("/s/posts/a.md", "/s"), "posts/a.md");
    assert_eq!(relative_path("/site/a.md", "/s"), "/site/a.md");
    assert_eq!(relative_path("/s", "/s"), "");
}

#[test]
fn out_path_for_file_outside_the_source_root() {
    let doc = Document::<PageMeta> {
        path: "other/page.md".into(),
        front_matter: None,
        body: String::new(),
    };
    assert_eq!(
        out_path_for("/s", "/o", "other/page.md", &doc),
        "/o/other/page/index.html"
    );
}

#[test]
fn out_path_for_nested_index_keeps_its_directory() {
    let doc = Document::<PageMeta> {
        path: "/s/docs/index.md".into(),
        front_matter: Some(PageMeta {
            slug: Some("ignored".into()),
            ..Default::default()
        }),
        body: String::new(),
    };
    assert_eq!(
        out_path_for("/s", "/o", "/s/docs/index.md", &doc),
        "/o/docs/index.html"
    );
}

#[test]
fn out_path_for_slugs_the_stem() {
    let doc = Document::<PageMeta> {
        path: "/s/My First Post.md".into(),
        front_matter: None,
        body: String::new(),
    };
    assert_eq!(
        out_path_for("/s", "/o", "/s/My First Post.md", &doc),
        "/o/my-first-post/index.html"
    );
}

#[test]
fn out_path_for_slugs_the_declared_slug() {
    let doc = Document::<PageMeta> {
        path: "/s/a.md".into(),
        front_matter: Some(PageMeta {
            slug: Some("Hello World".into()),
            ..Default::default()
        }),
        body: String::new(),
    };
    assert_eq!(out_path_for("/s", "/o", "/s/a.md", &doc), "/o/hello-world/index.html");
}

#[test]
fn url_for_index_in_any_case() {
    assert_eq!(url_for_out_path("/o", "/o/a/INDEX.HTML"), "/a/");
    assert_eq!(url_for_out_path("/o", "/o/Index.Html"), "/");
}

#[test]
fn url_turns_backslashes_into_slashes() {
    assert_eq!(url_for_out_path("/o", "/o/a\\b.html"), "/a/b.html");
}

#[test]
fn url_for_path_outside_the_output_root() {
    assert_eq!(url_for_out_path("/o", "x/y.html"), "/x/y.html");
}

#[test]
fn assets_keep_their_place() {
    assert_eq!(
        asset_destination("/s", "/o", "/s/css/site.css"),
        Some("/o/css/site.css".to_string())
    );
    assert_eq!(
        asset_destination("/s", "/o", "/s/logo.png"),
        Some("/o/logo.png".to_string())
    );
}

#[test]
fn templates_config_and_sources_are_no_assets() {
    assert_eq!(asset_destination("/s", "/o", "/s/templates/base.html"), None);
    assert_eq!(asset_destination("/s", "/o", "/s/site.toml"), None);
    assert_eq!(asset_destination("/s", "/o", "/s/sub/site.toml"), None);
    assert_eq!(asset_destination("/s", "/o", "/s/posts/a.md"), None);
    assert_eq!(asset_destination("/s", "/o", "/s/posts/a.MD"), None);
    assert_eq!(asset_destination("/s", "/o", "/elsewhere/a.css"), None);
}

#[test]
fn a_name_that_only_begins_like_templates_is_an_asset() {
    assert_eq!(
        asset_destination("/s", "/o", "/s/templates2/a.css"),
        Some("/o/templates2/a.css".to_string())
    );
    assert_eq!(
        asset_destination("/s", "/o", "/s/sub/templates/a.css"),
        Some("/o/sub/templates/a.css".to_string())
    );
}

#[test]
fn route_of_a_file() {
    assert_eq!(route_for(Some("index"), None), Route::Index);
    assert_eq!(route_for(Some("index"), Some("custom")), Route::Index);
    assert_eq!(route_for(Some("first"), None), Route::Page("first".into()));
    assert_eq!(route_for(Some("first"), Some("custom")), Route::Page("custom".into()));
    assert_eq!(route_for(Some("Index"), None), Route::Page("Index".into()));
    assert_eq!(route_for(None, None), Route::Page("untitled".into()));
    assert_eq!(route_for(None, Some("s")), Route::Page("s".into()));
}

#[test]
fn url_from_the_parts_of_a_path() {
    assert_eq!(url_from_parts("index.html", Some("index.html"), Some("")), "/");
    assert_eq!(url_from_parts("index.html", Some("index.html"), None), "/");
    assert_eq!(url_from_parts("a/b/index.html", Some("INDEX.html"), Some("a/b")), "/a/b/");
    assert_eq!(url_from_parts("a\\index.html", Some("index.html"), Some("a\\b")), "/a/b/");
    assert_eq!(url_from_parts("a/raw.html", Some("raw.html"), Some("a")), "/a/raw.html");
    assert_eq!(url_from_parts("", None, None), "/");
}
