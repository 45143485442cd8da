use ssg::content::Document;
use ssg::render::{render_html, render_html_sanitized};

fn doc(body: &str) -> Document<()> {
    Document { path: "x.md".into(), front_matter: None, body: body.into() }
}

#[test]
fn renders_markdown_to_html() {
    assert_eq!(render_html(&doc("# Hi\nBody")), "<h1>Hi</h1>\n<p>Body</p>\n");
    assert_eq!(render_html(&doc("")), "");
}

#[test]
fn renders_the_four_extensions() {
    let table = render_html(&doc("|h|h|\n|-|-|\n|a|b|\n"));
    assert!(table.contains("<table>"), "{table}");
    let strike = render_html(&doc("~~gone~~"));
    assert!(strike.contains("<del>gone</del>"), "{strike}");
    let tasks = render_html(&doc("- [x] done\n- [ ] open\n"));
    assert!(tasks.contains("type=\"checkbox\""), "{tasks}");
    let notes = render_html(&doc("Footnote.[^1]\n\n[^1]: hi\n"));
    assert!(notes.contains("footnote"), "{notes}");
}

#[test]
fn raw_html_passes_the_renderer_and_not_the_cleaner() {
    let source = doc("XSS<script>attack()</script>\n");
    assert!(render_html(&source).contains("<script>"));
    let clean = render_html_sanitized(&source);
    assert!(!clean.contains("script"), "{clean}");
    assert!(clean.contains("XSS"));
}

#[test]
fn cleaner_keeps_ordinary_markup() {
    assert_eq!(render_html_sanitized(&doc("# Hi\nBody")), "<h1>Hi</h1>\n<p>Body</p>\n");
    let link = render_html_sanitized(&doc("[a](https://example.com/)"));
    assert!(link.contains("href=\"https://example.com/\""), "{link}");
    assert!(link.contains("rel=\"noopener noreferrer\""), "{link}");
}
