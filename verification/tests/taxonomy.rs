use ssg::taxonomy::group_by_keys;
use ssg::content::Document;
use ssg::taxonomy::{group_by_tag, plan_tag_pages, summarize, PageSummary};

fn page(title: &str, url: &str, tags: &[&str]) -> PageSummary {
    PageSummary {
        title: title.into(),
        url: url.into(),
        tags: tags.iter().map(|t| t.to_string()).collect(),
    }
}

#[test]
fn groups_pages_by_tag() {
    let pages = vec![
        PageSummary {
            title: "A".into(),
            url: "/a/".into(),
            tags: vec!["rust".into(), "ssg".into()],
        },
        PageSummary {
            title: "B".into(),
            url: "/b/".into(),
            tags: vec!["rust".into()],
        },
        PageSummary {
            title: "C".into(),
            url: "/c/".into(),
            tags: vec!["cli".into()],
        },
    ];

    let g = group_by_tag(&pages);
    assert_eq!(g.get("rust").unwrap().len(), 2);
    assert_eq!(g.get("ssg").unwrap().len(), 1);
    assert_eq!(g.get("cli").unwrap().len(), 1);
}

#[test]
fn groups_come_in_order_of_first_use() {
    let pages = vec![page("A", "/a/", &["rust", "ssg"]), page("B", "/b/", &["cli", "rust"])];
    let g = group_by_tag(&pages);
    assert_eq!(g.len(), 3);
    assert_eq!(g.group(0).name, "rust");
    assert_eq!(g.group(1).name, "ssg");
    assert_eq!(g.group(2).name, "cli");
    let rust: Vec<&str> = g.group(0).pages.iter().map(|p| p.title.as_str()).collect();
    assert_eq!(rust, vec!["A", "B"]);
    assert!(g.get("web").is_none());
}

#[test]
fn tags_are_grouped_in_lowercase() {
    let pages = vec![page("A", "/a/", &["Rust"]), page("B", "/b/", &["RUST", "rust"])];
    let g = group_by_tag(&pages);
    assert_eq!(g.len(), 1);
    assert!(g.get("Rust").is_none());
    let titles: Vec<&str> = g.get("rust").unwrap().iter().map(|p| p.title.as_str()).collect();
    assert_eq!(titles, vec!["A", "B", "B"]);
}

#[test]
fn no_pages_no_groups() {
    let g = group_by_tag(&[]);
    assert_eq!(g.len(), 0);
    assert!(g.get("rust").is_none());
    let untagged = vec![page("A", "/a/", &[])];
    assert_eq!(group_by_tag(&untagged).len(), 0);
}

#[test]
fn summary_has_the_url_of_the_output_file() {
    let doc = Document::<u8> { path: "/s/posts/first.md".into(), front_matter: None, body: String::new() };
    let tags = vec!["rust".to_string(), "ssg".to_string()];
    let s = summarize(&doc, "/o", "/o/posts/first/index.html", &tags, "First");
    assert_eq!(s.title, "First");
    assert_eq!(s.url, "/posts/first/");
    assert_eq!(s.tags, tags);
}

#[test]
fn tag_pages_are_laid_out_below_tags() {
    let pages = vec![page("A", "/a/", &["Rust Lang", "ssg"]), page("B", "/b/", &["cli", "ssg"])];
    let site = plan_tag_pages("/o", &pages);
    assert_eq!(site.index_path, "/o/tags/index.html");
    assert_eq!(site.pages.len(), 3);
    assert_eq!(site.pages[0].name, "rust lang");
    assert_eq!(site.pages[0].slug, "rust-lang");
    assert_eq!(site.pages[0].url, "/tags/rust-lang/");
    assert_eq!(site.pages[0].out_path, "/o/tags/rust-lang/index.html");
    assert_eq!(site.pages[0].pages.len(), 1);
    assert_eq!(site.pages[1].name, "ssg");
    assert_eq!(site.pages[1].pages.len(), 2);
    assert_eq!(site.pages[1].pages[1].title, "B");
    assert_eq!(site.pages[2].out_path, "/o/tags/cli/index.html");
}

#[test]
fn tag_index_is_ordered_by_name() {
    let pages = vec![page("A", "/a/", &["ssg", "rust"]), page("B", "/b/", &["cli", "ssg", "Zed"])];
    let site = plan_tag_pages("/o", &pages);
    let names: Vec<&str> = site.index.iter().map(|t| t.name.as_str()).collect();
    assert_eq!(names, vec!["cli", "rust", "ssg", "zed"]);
    let counts: Vec<usize> = site.index.iter().map(|t| t.count).collect();
    assert_eq!(counts, vec![1, 1, 2, 1]);
    assert_eq!(site.index[2].url, "/tags/ssg/");
}

#[test]
fn site_without_tags_has_an_empty_index() {
    let site = plan_tag_pages("out", &[]);
    assert!(site.pages.is_empty());
    assert!(site.index.is_empty());
    assert_eq!(site.index_path, "out/tags/index.html");
}

#[test]
fn summaries_are_ordered_by_url_then_title() {
    let a = page("B", "/a/", &[]);
    let b = page("A", "/a/", &[]);
    let c = page("Z", "/", &[]);
    assert!(c.order_key() < b.order_key());
    assert!(b.order_key() < a.order_key());
    assert_eq!(a.clone().title, "B");
}

#[test]
fn pages_are_grouped_by_the_keys_given() {
    let pages = vec![page("A", "/a/", &["ignored"]), page("B", "/b/", &[]), page("C", "/c/", &[])];
    let keys = vec![vec!["x".to_string(), "y".to_string()], vec!["y".to_string()]];
    let g = group_by_keys(&pages, &keys);
    assert_eq!(g.len(), 2);
    assert_eq!(g.group(0).name, "x");
    assert_eq!(g.group(1).name, "y");
    let y: Vec<&str> = g.get("y").unwrap().iter().map(|p| p.title.as_str()).collect();
    assert_eq!(y, vec!["A", "B"]);
    assert!(g.get("ignored").is_none());
}

#[test]
fn summaries_that_agree_in_url_and_title_are_ordered_by_tags() {
    let a = page("T", "/a/", &["x"]);
    let b = page("T", "/a/", &["x", "y"]);
    let c = page("T", "/a/", &["y"]);
    let d = page("T", "/a/", &[]);
    assert!(d.order_key() < a.order_key());
    assert!(a.order_key() < b.order_key());
    assert!(b.order_key() < c.order_key());
    assert_eq!(a.order_key(), page("T", "/a/", &["x"]).order_key());
    // A tag is not mistaken for the end of the title.
    assert_ne!(page("Tx", "/a/", &[]).order_key(), page("T", "/a/", &["x"]).order_key());
    assert_ne!(page("T", "/a/", &["xy"]).order_key(), page("T", "/a/", &["x", "y"]).order_key());
    assert_eq!(page("B", "/", &["t"]).order_key(), vec![48, 0, 67, 0, 117, 0]);
}
