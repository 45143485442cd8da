use ssg::order::{key_le, sort_positions};
use ssg::text::{
    char_is_whitespace, chars_of, glue, eq_ignore_ascii_case, str_eq, string_of, to_ascii_lower,
    trim_bounds, trim_leading,
};

#[test]
fn keys_compare_lexicographically() {
    assert!(key_le(&vec![], &vec![]));
    assert!(key_le(&vec![], &vec![0]));
    assert!(!key_le(&vec![0], &vec![]));
    assert!(key_le(&vec![1, 2], &vec![1, 2]));
    assert!(key_le(&vec![1, 2], &vec![1, 3]));
    assert!(!key_le(&vec![1, 3], &vec![1, 2]));
    assert!(key_le(&vec![1], &vec![1, 0]));
    assert!(key_le(&vec![1, 9, 9], &vec![2]));
}

#[test]
fn positions_are_sorted_by_key() {
    let keys = vec![vec![3], vec![1], vec![2], vec![1, 0], vec![]];
    assert_eq!(sort_positions(&keys), vec![4, 1, 3, 2, 0]);
    assert_eq!(sort_positions(&Vec::new()), Vec::<usize>::new());
}

#[test]
fn equal_keys_keep_their_order() {
    let keys = vec![vec![5], vec![1], vec![5], vec![1], vec![5]];
    assert_eq!(sort_positions(&keys), vec![1, 3, 0, 2, 4]);
}

#[test]
fn strings_and_characters_convert_both_ways() {
    assert_eq!(chars_of("a\u{00e9}\u{1F600}"), vec!['a', '\u{00e9}', '\u{1F600}']);
    assert_eq!(string_of(&vec!['a', '\u{00e9}']), "a\u{00e9}");
    assert_eq!(string_of(&chars_of("")), "");
    assert_eq!(glue("ab", "cd"), "abcd");
}

#[test]
fn strings_compare() {
    assert!(str_eq("abc", "abc"));
    assert!(!str_eq("abc", "abd"));
    assert!(!str_eq("abc", "ab"));
    assert!(eq_ignore_ascii_case("Index.HTML", "index.html"));
    assert!(!eq_ignore_ascii_case("index.htm", "index.html"));
    // Only ASCII letters are folded.
    assert!(!eq_ignore_ascii_case("\u{00c9}", "\u{00e9}"));
    assert!(!eq_ignore_ascii_case("@", "`"));
    assert_eq!(to_ascii_lower('Z'), 'z');
    assert_eq!(to_ascii_lower('['), '[');
}

#[test]
fn whitespace_is_the_unicode_set() {
    for c in ['\t', '\n', '\u{000B}', '\u{000C}', '\r', ' ', '\u{0085}', '\u{00A0}', '\u{1680}',
        '\u{2000}', '\u{200A}', '\u{2028}', '\u{2029}', '\u{202F}', '\u{205F}', '\u{3000}']
    {
        assert!(char_is_whitespace(c), "{:?}", c);
    }
    for code in 0u32..0x3100 {
        if let Some(c) = char::from_u32(code) {
            assert_eq!(char_is_whitespace(c), c.is_whitespace(), "{:?}", c);
        }
    }
}

#[test]
fn trimming() {
    let v = chars_of("  a b \t");
    assert_eq!(trim_bounds(&v), (2, 5));
    let blank = chars_of(" \t ");
    let (from, to) = trim_bounds(&blank);
    assert_eq!(from, to);
    assert_eq!(trim_bounds(&Vec::new()), (0, 0));
    assert_eq!(trim_leading("///a/b/", '/'), "a/b/");
    assert_eq!(trim_leading("///", '/'), "");
    assert_eq!(trim_leading("a", '/'), "a");
}
