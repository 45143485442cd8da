use ssg::cache::{
    file_hash, path_order_key, templates_hash, BuildCache, TreeFile, UnitSignature,
};

fn file(path: &str, content: &str) -> TreeFile {
    TreeFile { path: path.into(), content: Some(content.as_bytes().to_vec()) }
}

#[test]
fn file_hash_changes_when_file_changes() {
    let h1 = file_hash(b"hello");
    let h2 = file_hash(b"hello!");
    assert_ne!(h1, h2);
}

#[test]
fn templates_hash_changes_on_update() {
    let h1 = templates_hash(&vec![file("templates/base.html", "<title>{{ page.title }}</title>")]);
    let h2 = templates_hash(&vec![file("templates/base.html", "<title>{{ page.title }} X</title>")]);
    assert_ne!(h1, h2);
}

#[test]
fn file_hash_is_the_blake3_digest_in_hex() {
    assert_eq!(
        file_hash(b""),
        "af1349b9f5f9a1a6a0404dea36dcc9499bcb25c9adc112b7cc9a93cae41f3262"
    );
    assert_eq!(file_hash(b"hello"), blake3::hash(b"hello").to_hex().to_string());
}

#[test]
fn signatures_have_sixty_four_hex_digits() {
    for data in [&b""[..], &b"a"[..], &[0u8; 5000][..]] {
        let h = file_hash(data);
        assert_eq!(h.len(), 64);
        assert!(h.chars().all(|c| c.is_ascii_digit() || ('a'..='f').contains(&c)));
    }
    let tree = templates_hash(&Vec::new());
    assert_eq!(tree.len(), 64);
    assert!(tree.chars().all(|c| matches!(c, '0'..='9' | 'a'..='f')));
}

#[test]
fn tree_signature_folds_path_then_content() {
    let files = vec![file("a", "x"), file("b", "y")];
    assert_eq!(templates_hash(&files), file_hash(b"axby"));
    assert_eq!(templates_hash(&Vec::new()), file_hash(b""));
}

#[test]
fn tree_signature_does_not_depend_on_listing_order() {
    let one = vec![file("t/b.html", "B"), file("t/a.html", "A"), file("t/sub/c.html", "C")];
    let two = vec![file("t/sub/c.html", "C"), file("t/b.html", "B"), file("t/a.html", "A")];
    assert_eq!(templates_hash(&one), templates_hash(&two));
    assert_eq!(templates_hash(&one), file_hash(b"t/a.htmlAt/b.htmlBt/sub/c.htmlC"));
}

#[test]
fn tree_signature_orders_paths_by_component() {
    // "a/b" comes before "a.b" although '.' is less than '/' as a character.
    let files = vec![file("a.b", "1"), file("a/b", "2"), file("a", "3")];
    assert_eq!(templates_hash(&files), file_hash(b"a3a/b2a.b1"));
}

#[test]
fn unreadable_file_enters_with_its_path_alone() {
    let files = vec![TreeFile { path: "a".into(), content: None }, file("b", "y")];
    assert_eq!(templates_hash(&files), file_hash(b"aby"));
}

#[test]
fn tree_signature_sees_a_renamed_file() {
    let one = vec![file("a.html", "same")];
    let two = vec![file("b.html", "same")];
    assert_ne!(templates_hash(&one), templates_hash(&two));
}

#[test]
fn path_keys_put_the_separator_first() {
    assert_eq!(path_order_key("a/b"), vec![98, 0, 99]);
    assert_eq!(path_order_key(""), Vec::<u32>::new());
    assert_eq!(path_order_key("\u{10FFFF}"), vec![0x110000]);
}

#[test]
fn new_cache_is_empty() {
    let c = BuildCache::new();
    assert_eq!(c.templates_hash(), "");
    assert_eq!(c.len(), 0);
    assert!(c.entries().is_empty());
    assert!(c.get("a.md").is_none());
    let d = BuildCache::default();
    assert_eq!(d.templates_hash(), "");
    assert_eq!(d.len(), 0);
}

#[test]
fn cache_keeps_the_last_signature_of_a_path() {
    let mut c = BuildCache::new();
    c.insert("a.md".into(), "h1".into());
    c.insert("b.md".into(), "h2".into());
    c.insert("a.md".into(), "h3".into());
    assert_eq!(c.len(), 2);
    assert_eq!(c.get("a.md").unwrap(), "h3");
    assert_eq!(c.get("b.md").unwrap(), "h2");
    assert_eq!(
        c.entries(),
        vec![
            UnitSignature { rel: "a.md".into(), hash: "h3".into() },
            UnitSignature { rel: "b.md".into(), hash: "h2".into() },
        ]
    );
}

#[test]
fn setting_the_template_signature_keeps_the_pages() {
    let mut c = BuildCache::new();
    c.insert("a.md".into(), "h1".into());
    c.set_templates_hash("t1".into());
    assert_eq!(c.templates_hash(), "t1");
    assert_eq!(c.get("a.md").unwrap(), "h1");
    assert!(!c.templates_changed("t1"));
    assert!(c.templates_changed("t2"));
}

#[test]
fn staleness_rule() {
    let mut c = BuildCache::new();
    c.insert("a.md".into(), "h1".into());
    // Fresh: templates unchanged, entry present, signature equal.
    assert!(!c.is_stale(false, "a.md", "h1"));
    // Stale: templates changed.
    assert!(c.is_stale(true, "a.md", "h1"));
    // Stale: no prior entry.
    assert!(c.is_stale(false, "b.md", "h1"));
    // Stale: signature differs.
    assert!(c.is_stale(false, "a.md", "h2"));
}

#[test]
fn recovered_cache_is_the_parsed_one_or_empty() {
    let mut c = BuildCache::new();
    c.set_templates_hash("t".into());
    c.insert("a.md".into(), "h".into());
    let kept = BuildCache::recover(Some(c));
    assert_eq!(kept.templates_hash(), "t");
    assert_eq!(kept.get("a.md").unwrap(), "h");
    let empty = BuildCache::recover(None);
    assert_eq!(empty.templates_hash(), "");
    assert_eq!(empty.len(), 0);
}
