//! File-system paths as text.
//!
//! A path is held as a `String`. What a path means (its components, its file
//! name, what joining does) is decided by `std::path` for the platform the
//! crate is built for; this module names each of those results and hands them
//! to verified code. The stem and the extension of a file name are cut from
//! the name here, at its last dot. None of these functions touches the disk.

use vstd::prelude::*;
use crate::text::{chars_of, opt_view, string_of};

verus! {

/// What `Path::strip_prefix` returns for `path` and `base`: the rest of
/// `path` after the components of `base`, or `None` where `path` does not
/// start with them.
pub uninterp spec fn path_strip_prefix(path: Seq<char>, base: Seq<char>) -> Option<Seq<char>>;

/// What `Path::file_name` returns for `path`: its last component, where that
/// is an ordinary name.
pub uninterp spec fn path_file_name(path: Seq<char>) -> Option<Seq<char>>;

/// What `Path::parent` returns for `path`: the path without its last
/// component.
pub uninterp spec fn path_parent(path: Seq<char>) -> Option<Seq<char>>;

/// What `Path::join` returns for `base` and `tail`.
pub uninterp spec fn path_join(base: Seq<char>, tail: Seq<char>) -> Seq<char>;

/// What `Path::with_extension` returns for `path` and `ext`.
pub uninterp spec fn path_with_extension(path: Seq<char>, ext: Seq<char>) -> Seq<char>;

/// What `Path::starts_with` returns for `path` and `base`: whether the
/// components of `base` are the first components of `path`.
pub uninterp spec fn path_starts_with(path: Seq<char>, base: Seq<char>) -> bool;

/// What `Path::is_absolute` returns for `path`.
pub uninterp spec fn path_is_absolute(path: Seq<char>) -> bool;

/// The position of the last dot in a file name, or -1 where it has none.
pub open spec fn last_dot(name: Seq<char>) -> int
    decreases name.len(),
{
    if name.len() == 0 {
        -1
    } else if name.last() == '.' {
        name.len() - 1
    } else {
        last_dot(name.drop_last())
    }
}

/// The stem of a file name: the name up to its last dot; the whole name
/// where it has no dot, or none but the one it begins with.
pub open spec fn stem_of(name: Seq<char>) -> Seq<char> {
    if last_dot(name) <= 0 {
        name
    } else {
        name.take(last_dot(name))
    }
}

/// The extension of a file name: what follows its last dot; none where it
/// has no dot, or none but the one it begins with.
pub open spec fn extension_of(name: Seq<char>) -> Option<Seq<char>> {
    if last_dot(name) <= 0 {
        None
    } else {
        Some(name.skip(last_dot(name) + 1))
    }
}

/// The stem of the file name of `path`, if it has a file name.
pub open spec fn path_file_stem(path: Seq<char>) -> Option<Seq<char>> {
    match path_file_name(path) {
        Some(name) => Some(stem_of(name)),
        None => None,
    }
}

/// The extension of the file name of `path`, if it has both.
pub open spec fn path_extension(path: Seq<char>) -> Option<Seq<char>> {
    match path_file_name(path) {
        Some(name) => extension_of(name),
        None => None,
    }
}

/// The characters that separate components on some platform.
pub open spec fn is_separator(c: char) -> bool {
    c == '/' || c == '\\'
}

/// Trusted: calls `Path::strip_prefix`; the result is the one named by
/// [`path_strip_prefix`]. A mismatch is reported as `None`.
#[verifier::external_body]
pub(crate) fn strip_prefix(path: &str, base: &str) -> (rest: Option<String>)
    ensures
        opt_view(rest) == path_strip_prefix(path@, base@),
{
    let stripped = std::path::Path::new(path).strip_prefix(base).ok();
    stripped.map(|p| p.to_string_lossy().into_owned())
}

/// Trusted: calls `Path::file_name`; the result is the one named by
/// [`path_file_name`].
#[verifier::external_body]
pub(crate) fn file_name(path: &str) -> (name: Option<String>)
    ensures
        opt_view(name) == path_file_name(path@),
{
    let name = std::path::Path::new(path).file_name();
    name.map(|s| s.to_string_lossy().into_owned())
}

/// Trusted: calls `Path::parent`; the result is the one named by
/// [`path_parent`].
#[verifier::external_body]
pub(crate) fn parent(path: &str) -> (dir: Option<String>)
    ensures
        opt_view(dir) == path_parent(path@),
{
    let dir = std::path::Path::new(path).parent();
    dir.map(|p| p.to_string_lossy().into_owned())
}

/// Trusted: calls `Path::join`; the result is the one named by
/// [`path_join`].
#[verifier::external_body]
pub(crate) fn join(base: &str, tail: &str) -> (joined: String)
    ensures
        joined@ == path_join(base@, tail@),
{
    std::path::Path::new(base).join(tail).to_string_lossy().into_owned()
}

/// Trusted: calls `Path::with_extension`; the result is the one named by
/// [`path_with_extension`]. The std function panics on an extension that
/// holds a separator, so none is admitted.
#[verifier::external_body]
pub(crate) fn with_extension(path: &str, ext: &str) -> (changed: String)
    requires
        forall|i: int| 0 <= i < ext@.len() ==> !is_separator(#[trigger] ext@[i]),
    ensures
        changed@ == path_with_extension(path@, ext@),
{
    std::path::Path::new(path).with_extension(ext).to_string_lossy().into_owned()
}

/// Trusted: calls `Path::starts_with`; the result is the one named by
/// [`path_starts_with`].
#[verifier::external_body]
pub(crate) fn starts_with(path: &str, base: &str) -> (yes: bool)
    ensures
        yes == path_starts_with(path@, base@),
{
    std::path::Path::new(path).starts_with(base)
}

/// Trusted: calls `Path::is_absolute`; the result is the one named by
/// [`path_is_absolute`].
#[verifier::external_body]
pub(crate) fn is_absolute(path: &str) -> (yes: bool)
    ensures
        yes == path_is_absolute(path@),
{
    std::path::Path::new(path).is_absolute()
}

fn find_last_dot(name: &Vec<char>) -> (at: Option<usize>)
    ensures
        match at {
            Some(i) => last_dot(name@) == i && i < name@.len(),
            None => last_dot(name@) == -1,
        },
{
    let mut i: usize = name.len();
    assert(name@.take(i as int) == name@);
    while i > 0 && name[i - 1] != '.'
        invariant
            i <= name.len(),
            last_dot(name@) == last_dot(name@.take(i as int)),
        decreases i,
    {
        assert(name@.take(i as int).drop_last() == name@.take(i - 1));
        i -= 1;
    }
    if i == 0 {
        None
    } else {
        Some(i - 1)
    }
}

/// The stem of a file name; see [`stem_of`].
pub fn name_stem(name: &str) -> (stem: String)
    ensures
        stem@ == stem_of(name@),
{
    let chars = chars_of(name);
    match find_last_dot(&chars) {
        Some(at) => {
            if at == 0 {
                name.to_owned()
            } else {
                let mut head = chars;
                head.truncate(at);
                assert(head@ == name@.take(at as int));
                string_of(&head)
            }
        },
        None => name.to_owned(),
    }
}

/// The extension of a file name; see [`extension_of`].
pub fn name_extension(name: &str) -> (ext: Option<String>)
    ensures
        opt_view(ext) == extension_of(name@),
{
    let chars = chars_of(name);
    match find_last_dot(&chars) {
        Some(at) => {
            if at == 0 {
                None
            } else {
                let mut tail: Vec<char> = Vec::new();
                let len = chars.len();
                assert(at < len);
                let mut i: usize = at + 1;
                while i < chars.len()
                    invariant
                        at + 1 <= i <= chars.len(),
                        tail@ == chars@.subrange(at + 1, i as int),
                    decreases chars.len() - i,
                {
                    tail.push(chars[i]);
                    i += 1;
                }
                assert(chars@.subrange(at + 1, chars.len() as int) == chars@.skip(at + 1));
                Some(string_of(&tail))
            }
        },
        None => None,
    }
}

/// The stem of the file name of `path`; see [`path_file_stem`].
pub(crate) fn file_stem(path: &str) -> (stem: Option<String>)
    ensures
        opt_view(stem) == path_file_stem(path@),
{
    match file_name(path) {
        Some(name) => Some(name_stem(name.as_str())),
        None => None,
    }
}

/// The extension of the file name of `path`; see [`path_extension`].
pub(crate) fn extension(path: &str) -> (ext: Option<String>)
    ensures
        opt_view(ext) == path_extension(path@),
{
    match file_name(path) {
        Some(name) => name_extension(name.as_str()),
        None => None,
    }
}

} // verus!
