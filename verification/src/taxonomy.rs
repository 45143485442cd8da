//! Page summaries and the tag pages derived from them.

use vstd::prelude::*;
use vstd::hash_map::StringHashMap;
use crate::content::Document;
use crate::order::{is_arranged, key_views, lemma_sorted_order, sort_positions, sorted_order};
use crate::paths::path_join;
use crate::routing::{lowered, slug_of, slugify, url_for_out_path, url_of};
use crate::text::{
    chars_of, clone_strings, first_where, glue, lemma_first_where, lemma_first_where_found, views,
};

verus! {

/// What the aggregate pages know of one rendered page.
#[derive(Debug, PartialEq, Eq)]
pub struct PageSummary {
    pub title: String,
    pub url: String,
    pub tags: Vec<String>,
}

/// The content of a [`PageSummary`].
pub struct SummaryView {
    pub title: Seq<char>,
    pub url: Seq<char>,
    pub tags: Seq<Seq<char>>,
}

impl View for PageSummary {
    type V = SummaryView;

    open spec fn view(&self) -> SummaryView {
        SummaryView { title: self.title@, url: self.url@, tags: views(self.tags@) }
    }
}

impl Clone for PageSummary {
    fn clone(&self) -> (copy: PageSummary)
        ensures
            copy@ == self@,
    {
        PageSummary {
            title: self.title.clone(),
            url: self.url.clone(),
            tags: clone_strings(&self.tags),
        }
    }
}

/// The views of a list of summaries.
pub open spec fn summary_views(list: Seq<PageSummary>) -> Seq<SummaryView> {
    Seq::new(list.len(), |i: int| list[i]@)
}

/// A text as part of an ordering key: each character's code, raised by one,
/// so that zero can close the part.
pub open spec fn text_key(s: Seq<char>) -> Seq<u32> {
    Seq::new(s.len(), |i: int| (s[i] as u32 + 1) as u32)
}

/// The key of a list of texts: the key of each, closed by a zero, one after
/// the other.
pub open spec fn words_key(words: Seq<Seq<char>>) -> Seq<u32>
    decreases words.len(),
{
    if words.len() == 0 {
        Seq::empty()
    } else {
        words_key(words.drop_last()) + text_key(words.last()) + seq![0u32]
    }
}

/// What a summary holds, as a list of texts: its URL, its title, its tags.
pub open spec fn summary_words(s: SummaryView) -> Seq<Seq<char>> {
    seq![s.url, s.title] + s.tags
}

/// The key that orders summaries: by URL, by title where URLs agree, and by
/// tags where both agree. Summaries with one key are the same summary.
pub open spec fn summary_key(s: SummaryView) -> Seq<u32> {
    words_key(summary_words(s))
}

/// The keys of a list of summaries.
pub open spec fn summary_keys(list: Seq<SummaryView>) -> Seq<Seq<u32>> {
    Seq::new(list.len(), |i: int| summary_key(list[i]))
}

/// Different texts have different keys.
pub proof fn lemma_text_key_injective(a: Seq<char>, b: Seq<char>)
    requires
        text_key(a) == text_key(b),
    ensures
        a == b,
{
    assert(a.len() == text_key(a).len());
    assert(b.len() == text_key(b).len());
    assert forall|i: int| 0 <= i < a.len() implies a[i] == b[i] by {
        assert(text_key(a)[i] == (a[i] as u32 + 1) as u32);
        assert(text_key(b)[i] == (b[i] as u32 + 1) as u32);
        vstd::utf8::char_is_scalar(a[i]);
        vstd::utf8::char_is_scalar(b[i]);
        assert(a[i] as u32 == b[i] as u32);
        vstd::utf8::char_u32_cast(a[i], a[i] as u32);
        vstd::utf8::char_u32_cast(b[i], b[i] as u32);
    }
    assert(a =~= b);
}

proof fn lemma_words_key_shape(words: Seq<Seq<char>>)
    requires
        words.len() > 0,
    ensures
        ({
            let e = words_key(words);
            let head = words_key(words.drop_last());
            let w = words.last();
            &&& e.len() == head.len() + w.len() + 1
            &&& e.last() == 0
            &&& e.take(head.len() as int) == head
            &&& e.subrange(head.len() as int, e.len() - 1) == text_key(w)
            &&& forall|k: int| head.len() <= k < e.len() - 1 ==> #[trigger] e[k] != 0
            &&& words.len() > 1 ==> head.len() > 0 && e[head.len() - 1] == 0
        }),
{
    let e = words_key(words);
    let head = words_key(words.drop_last());
    let w = words.last();
    assert(e.take(head.len() as int) =~= head);
    assert(e.subrange(head.len() as int, e.len() - 1) =~= text_key(w));
    assert forall|k: int| head.len() <= k < e.len() - 1 implies #[trigger] e[k] != 0 by {
        assert(e[k] == text_key(w)[k - head.len()]);
        vstd::utf8::char_is_scalar(w[k - head.len()]);
    }
    if words.len() > 1 {
        let init = words.drop_last();
        assert(head == words_key(init.drop_last()) + text_key(init.last()) + seq![0u32]);
        assert(head.last() == 0);
        assert(e[head.len() - 1] == head[head.len() - 1]);
    }
}

/// Different lists of texts have different keys.
pub proof fn lemma_words_key_injective(a: Seq<Seq<char>>, b: Seq<Seq<char>>)
    requires
        words_key(a) == words_key(b),
    ensures
        a == b,
    decreases a.len(),
{
    if a.len() == 0 {
        if b.len() > 0 {
            lemma_words_key_shape(b);
        }
        assert(a =~= b);
    } else {
        lemma_words_key_shape(a);
        if b.len() == 0 {
            assert(words_key(b).len() == 0);
        } else {
            lemma_words_key_shape(b);
            let e = words_key(a);
            let ha = words_key(a.drop_last());
            let hb = words_key(b.drop_last());
            let la = a.last().len();
            let lb = b.last().len();
            if la < lb {
                let p = e.len() - 2 - la;
                assert(hb.len() <= p < e.len() - 1);
                assert(e[p] != 0);
                if a.len() > 1 {
                    assert(e[ha.len() - 1] == 0);
                }
            } else if lb < la {
                let p = e.len() - 2 - lb;
                assert(ha.len() <= p < e.len() - 1);
                assert(e[p] != 0);
                if b.len() > 1 {
                    assert(e[hb.len() - 1] == 0);
                }
            }
            assert(la == lb);
            assert(ha.len() == hb.len());
            lemma_text_key_injective(a.last(), b.last());
            lemma_words_key_injective(a.drop_last(), b.drop_last());
            assert(a =~= a.drop_last().push(a.last()));
            assert(b =~= b.drop_last().push(b.last()));
        }
    }
}

/// Summaries with one key are the same summary.
pub proof fn lemma_summary_key_injective(a: SummaryView, b: SummaryView)
    requires
        summary_key(a) == summary_key(b),
    ensures
        a == b,
{
    lemma_words_key_injective(summary_words(a), summary_words(b));
    let wa = summary_words(a);
    let wb = summary_words(b);
    assert(wa[0] == a.url && wa[1] == a.title);
    assert(wb[0] == b.url && wb[1] == b.title);
    assert(a.tags =~= wa.skip(2));
    assert(b.tags =~= wb.skip(2));
}

fn push_text_key(key: &mut Vec<u32>, s: &str)
    ensures
        final(key)@ == old(key)@ + text_key(s@) + seq![0u32],
{
    let chars = chars_of(s);
    let mut i: usize = 0;
    while i < chars.len()
        invariant
            i <= chars.len(),
            chars@ == s@,
            key@ == old(key)@ + text_key(s@).take(i as int),
        decreases chars.len() - i,
    {
        let c = chars[i];
        assert(c as u32 <= 0x10FFFF) by {
            vstd::utf8::char_is_scalar(c);
        }
        key.push(c as u32 + 1);
        assert(text_key(s@).take(i + 1) == text_key(s@).take(i as int).push(text_key(s@)[i as int]));
        i += 1;
    }
    assert(text_key(s@).take(chars.len() as int) == text_key(s@));
    key.push(0);
}

impl PageSummary {
    /// Computes [`summary_key`].
    pub fn order_key(&self) -> (key: Vec<u32>)
        ensures
            key@ == summary_key(self@),
    {
        let ghost words = summary_words(self@);
        let mut key: Vec<u32> = Vec::new();
        push_text_key(&mut key, self.url.as_str());
        push_text_key(&mut key, self.title.as_str());
        proof {
            assert(words.take(1).drop_last() =~= Seq::<Seq<char>>::empty());
            assert(words.take(2).drop_last() =~= words.take(1));
            assert(words.take(1).last() == self.url@);
            assert(words.take(2).last() == self.title@);
            assert(words_key(words.take(1).drop_last()) =~= Seq::<u32>::empty());
            assert(words_key(words.take(1)) =~= text_key(self.url@) + seq![0u32]);
            assert(key@ =~= words_key(words.take(2)));
        }
        let mut i: usize = 0;
        while i < self.tags.len()
            invariant
                i <= self.tags.len(),
                words == summary_words(self@),
                words.len() == self.tags.len() + 2,
                key@ == words_key(words.take(2 + i)),
            decreases self.tags.len() - i,
        {
            let ghost before = key@;
            push_text_key(&mut key, self.tags[i].as_str());
            proof {
                let next = words.take(3 + i);
                assert(next.drop_last() =~= words.take(2 + i));
                assert(next.last() == self.tags@[i as int]@);
            }
            i += 1;
        }
        assert(words.take(words.len() as int) =~= words);
        key
    }
}

/// The summary of a page: its title, the URL of its output file, its tags.
pub fn summarize<M>(
    _doc: &Document<M>,
    out_root: &str,
    out_path: &str,
    tags: &[String],
    title: &str,
) -> (summary: PageSummary)
    ensures
        summary@ == (SummaryView {
            title: title@,
            url: url_of(out_root@, out_path@),
            tags: views(tags@),
        }),
{
    let mut copy: Vec<String> = Vec::new();
    let mut i: usize = 0;
    while i < tags.len()
        invariant
            i <= tags.len(),
            copy@.len() == i,
            forall|j: int| 0 <= j < i ==> copy@[j]@ == tags@[j]@,
        decreases tags.len() - i,
    {
        copy.push(tags[i].clone());
        i += 1;
    }
    assert(views(copy@) =~= views(tags@));
    PageSummary { title: title.to_owned(), url: url_for_out_path(out_root, out_path), tags: copy }
}

/// The lowercase form of a text, as `str::to_lowercase` gives it.
pub uninterp spec fn str_lowercase(s: Seq<char>) -> Seq<char>;

/// Trusted: calls `str::to_lowercase`; the result is the one named by
/// [`str_lowercase`].
#[verifier::external_body]
fn lowercase_of(s: &str) -> (lower: String)
    ensures
        lower@ == str_lowercase(s@),
{
    s.to_lowercase()
}

/// The pages that carry one tag.
#[derive(Debug)]
pub struct TagGroup {
    /// The tag, in lowercase.
    pub name: String,
    /// The pages, in the order in which they were given; a page that names
    /// the tag twice is listed twice.
    pub pages: Vec<PageSummary>,
}

/// The content of a [`TagGroup`].
pub struct GroupView {
    pub name: Seq<char>,
    pub pages: Seq<SummaryView>,
}

impl View for TagGroup {
    type V = GroupView;

    open spec fn view(&self) -> GroupView {
        GroupView { name: self.name@, pages: summary_views(self.pages@) }
    }
}

/// The views of a list of groups.
pub open spec fn group_views(groups: Seq<TagGroup>) -> Seq<GroupView> {
    Seq::new(groups.len(), |i: int| groups[i]@)
}

/// The groups named `name`.
pub open spec fn named(name: Seq<char>) -> spec_fn(GroupView) -> bool {
    |g: GroupView| g.name == name
}

/// The position of the group named `name`, or the number of groups where
/// there is none.
pub open spec fn position_of(groups: Seq<GroupView>, name: Seq<char>) -> int {
    first_where(groups, named(name))
}

/// `groups` with `page` added to the group named `name`, which is opened at
/// the end where it does not exist yet.
pub open spec fn with_member(groups: Seq<GroupView>, name: Seq<char>, page: SummaryView) -> Seq<
    GroupView,
> {
    let at = position_of(groups, name);
    if 0 <= at < groups.len() {
        groups.update(at, GroupView { name, pages: groups[at].pages.push(page) })
    } else {
        groups.push(GroupView { name, pages: seq![page] })
    }
}

/// `groups` with `page` added under each of the first `n` of `keys`.
pub open spec fn with_keys(
    groups: Seq<GroupView>,
    page: SummaryView,
    keys: Seq<Seq<char>>,
    n: int,
) -> Seq<GroupView>
    decreases n,
{
    if n <= 0 {
        groups
    } else {
        with_member(with_keys(groups, page, keys, n - 1), keys[n - 1], page)
    }
}

/// The keys of page `i`; none where `keys` ends before it.
pub open spec fn keys_at(keys: Seq<Seq<Seq<char>>>, i: int) -> Seq<Seq<char>> {
    if 0 <= i < keys.len() {
        keys[i]
    } else {
        Seq::empty()
    }
}

/// The first `n` pages grouped by their keys: the groups in the order in
/// which their keys first occur, each with its pages in the order given.
pub open spec fn grouped_by(pages: Seq<SummaryView>, keys: Seq<Seq<Seq<char>>>, n: int) -> Seq<
    GroupView,
>
    decreases n,
{
    if n <= 0 {
        Seq::empty()
    } else {
        with_keys(
            grouped_by(pages, keys, n - 1),
            pages[n - 1],
            keys_at(keys, n - 1),
            keys_at(keys, n - 1).len() as int,
        )
    }
}

/// The keys under which a page is grouped: its tags in lowercase.
pub open spec fn tag_keys(page: SummaryView) -> Seq<Seq<char>> {
    Seq::new(page.tags.len(), |t: int| str_lowercase(page.tags[t]))
}

/// The keys of each page of a list.
pub open spec fn all_tag_keys(pages: Seq<SummaryView>) -> Seq<Seq<Seq<char>>> {
    Seq::new(pages.len(), |i: int| tag_keys(pages[i]))
}

/// The pages grouped by tag, tags compared in lowercase: the groups in the
/// order in which their tags first occur, each with its pages in the order
/// given.
pub open spec fn grouped(pages: Seq<SummaryView>) -> Seq<GroupView> {
    grouped_by(pages, all_tag_keys(pages), pages.len() as int)
}

/// The views of a list of key lists.
pub open spec fn key_lists(keys: Seq<Vec<String>>) -> Seq<Seq<Seq<char>>> {
    Seq::new(keys.len(), |i: int| views(keys[i]@))
}

/// Whether a group is named `name`.
pub open spec fn has_group(groups: Seq<GroupView>, name: Seq<char>) -> bool {
    exists|j: int| 0 <= j < groups.len() && (#[trigger] groups[j]).name == name
}

/// Whether `name` is the key at place `t` of page `i`.
pub open spec fn is_key_at(keys: Seq<Seq<Seq<char>>>, i: int, t: int, name: Seq<char>) -> bool {
    0 <= t < keys_at(keys, i).len() && keys_at(keys, i)[t] == name
}

/// Whether one of the first `n` pages has the key `name`.
pub open spec fn has_key(keys: Seq<Seq<Seq<char>>>, n: int, name: Seq<char>) -> bool {
    exists|i: int, t: int| 0 <= i < n && #[trigger] is_key_at(keys, i, t, name)
}

/// No two groups have the same name.
pub open spec fn distinct_names(groups: Seq<GroupView>) -> bool {
    forall|a: int, b: int|
        0 <= a < b < groups.len() ==> (#[trigger] groups[a]).name != (#[trigger] groups[b]).name
}

proof fn lemma_with_member(groups: Seq<GroupView>, name: Seq<char>, page: SummaryView)
    requires
        distinct_names(groups),
    ensures
        distinct_names(with_member(groups, name, page)),
        forall|x: Seq<char>| #[trigger]
            has_group(with_member(groups, name, page), x) <==> has_group(groups, x) || x == name,
{
    let out = with_member(groups, name, page);
    let at = position_of(groups, name);
    lemma_first_where_found(groups, named(name));
    if at < groups.len() {
        assert forall|j: int| 0 <= j < out.len() implies (#[trigger] out[j]).name
            == groups[j].name by {}
        assert forall|a: int, b: int| 0 <= a < b < out.len() implies (#[trigger] out[a]).name != (
        #[trigger] out[b]).name by {
            assert(groups[a].name != groups[b].name);
        }
        assert forall|x: Seq<char>| #[trigger]
            has_group(out, x) <==> has_group(groups, x) || x == name by {
            if has_group(out, x) {
                let j = choose|j: int| 0 <= j < out.len() && (#[trigger] out[j]).name == x;
                assert(groups[j].name == x);
            }
            if has_group(groups, x) {
                let j = choose|j: int| 0 <= j < groups.len() && (#[trigger] groups[j]).name == x;
                assert(out[j].name == x);
            }
            if x == name {
                assert(out[at].name == x);
            }
        }
    } else {
        assert forall|j: int| 0 <= j < groups.len() implies (#[trigger] groups[j]).name != name by {
            assert(!named(name)(groups[j]));
        }
        assert forall|a: int, b: int| 0 <= a < b < out.len() implies (#[trigger] out[a]).name != (
        #[trigger] out[b]).name by {
            if b < groups.len() {
                assert(groups[a].name != groups[b].name);
            } else {
                assert(out[a] == groups[a]);
            }
        }
        assert forall|x: Seq<char>| #[trigger]
            has_group(out, x) <==> has_group(groups, x) || x == name by {
            if has_group(out, x) {
                let j = choose|j: int| 0 <= j < out.len() && (#[trigger] out[j]).name == x;
                if j < groups.len() {
                    assert(groups[j].name == x);
                }
            }
            if has_group(groups, x) {
                let j = choose|j: int| 0 <= j < groups.len() && (#[trigger] groups[j]).name == x;
                assert(out[j].name == x);
            }
            if x == name {
                assert(out[groups.len() as int].name == x);
            }
        }
    }
}

proof fn lemma_with_keys(groups: Seq<GroupView>, page: SummaryView, keys: Seq<Seq<char>>, n: int)
    requires
        distinct_names(groups),
        0 <= n <= keys.len(),
    ensures
        distinct_names(with_keys(groups, page, keys, n)),
        forall|x: Seq<char>| #[trigger]
            has_group(with_keys(groups, page, keys, n), x) <==> has_group(groups, x) || exists|
                t: int,
            |
                0 <= t < n && #[trigger] keys[t] == x,
    decreases n,
{
    if n > 0 {
        lemma_with_keys(groups, page, keys, n - 1);
        let before = with_keys(groups, page, keys, n - 1);
        lemma_with_member(before, keys[n - 1], page);
        let out = with_keys(groups, page, keys, n);
        assert forall|x: Seq<char>| #[trigger]
            has_group(out, x) <==> has_group(groups, x) || exists|t: int|
                0 <= t < n && #[trigger] keys[t] == x by {
            if has_group(before, x) && !has_group(groups, x) {
                let t = choose|t: int| 0 <= t < n - 1 && #[trigger] keys[t] == x;
                assert(0 <= t < n && keys[t] == x);
            }
            if exists|t: int| 0 <= t < n && #[trigger] keys[t] == x {
                let t = choose|t: int| 0 <= t < n && #[trigger] keys[t] == x;
                if t < n - 1 {
                    assert(0 <= t < n - 1 && keys[t] == x);
                }
            }
        }
    }
}

/// Grouping is complete and free of repetition: no two groups have the same
/// name, and a name has a group exactly if some page has it as a key.
pub proof fn law_groups_match_keys(pages: Seq<SummaryView>, keys: Seq<Seq<Seq<char>>>, n: int)
    requires
        0 <= n,
    ensures
        distinct_names(grouped_by(pages, keys, n)),
        forall|x: Seq<char>| #[trigger] has_group(grouped_by(pages, keys, n), x) <==> has_key(keys, n, x),
    decreases n,
{
    if n > 0 {
        law_groups_match_keys(pages, keys, n - 1);
        let before = grouped_by(pages, keys, n - 1);
        let mine = keys_at(keys, n - 1);
        lemma_with_keys(before, pages[n - 1], mine, mine.len() as int);
        let out = grouped_by(pages, keys, n);
        assert forall|x: Seq<char>| #[trigger] has_group(out, x) <==> has_key(keys, n, x) by {
            if has_group(out, x) {
                if has_group(before, x) {
                    let (i, t) = choose|i: int, t: int|
                        0 <= i < n - 1 && #[trigger] is_key_at(keys, i, t, x);
                    assert(0 <= i < n && is_key_at(keys, i, t, x));
                } else {
                    let t = choose|t: int| 0 <= t < mine.len() && #[trigger] mine[t] == x;
                    assert(is_key_at(keys, n - 1, t, x));
                }
            }
            if has_key(keys, n, x) {
                let (i, t) = choose|i: int, t: int| 0 <= i < n && #[trigger] is_key_at(keys, i, t, x);
                if i < n - 1 {
                    assert(is_key_at(keys, i, t, x));
                    assert(has_key(keys, n - 1, x));
                } else {
                    assert(0 <= t < mine.len() && mine[t] == x);
                }
            }
        }
    } else {
        assert forall|x: Seq<char>| #[trigger]
            has_group(grouped_by(pages, keys, n), x) <==> has_key(keys, n, x) by {}
    }
}

/// The pages listed under `name`, if it names a group.
pub open spec fn pages_of(groups: Seq<GroupView>, name: Seq<char>) -> Option<Seq<SummaryView>> {
    let at = position_of(groups, name);
    if 0 <= at < groups.len() {
        Some(groups[at].pages)
    } else {
        None
    }
}

/// The pages listed under `name`; none where it names no group.
pub open spec fn listed(groups: Seq<GroupView>, name: Seq<char>) -> Seq<SummaryView> {
    match pages_of(groups, name) {
        Some(pages) => pages,
        None => Seq::empty(),
    }
}

/// How often `name` is among the first `n` of `keys`.
pub open spec fn occurrences(keys: Seq<Seq<char>>, name: Seq<char>, n: int) -> nat
    decreases n,
{
    if n <= 0 {
        0
    } else {
        occurrences(keys, name, n - 1) + (if keys[n - 1] == name {
            1nat
        } else {
            0nat
        })
    }
}

/// `page`, `count` times.
pub open spec fn copies(page: SummaryView, count: nat) -> Seq<SummaryView> {
    Seq::new(count, |i: int| page)
}

/// The pages among the first `n` that have the key `name`, in the order
/// given, each as often as it has the key.
pub open spec fn members(
    pages: Seq<SummaryView>,
    keys: Seq<Seq<Seq<char>>>,
    name: Seq<char>,
    n: int,
) -> Seq<SummaryView>
    decreases n,
{
    if n <= 0 {
        Seq::empty()
    } else {
        members(pages, keys, name, n - 1) + copies(
            pages[n - 1],
            occurrences(keys_at(keys, n - 1), name, keys_at(keys, n - 1).len() as int),
        )
    }
}

proof fn lemma_listed_with_member(
    groups: Seq<GroupView>,
    name: Seq<char>,
    page: SummaryView,
    x: Seq<char>,
)
    ensures
        listed(with_member(groups, name, page), x) == (if x == name {
            listed(groups, x).push(page)
        } else {
            listed(groups, x)
        }),
{
    let out = with_member(groups, name, page);
    let at = position_of(groups, name);
    let at_x = position_of(groups, x);
    lemma_first_where_found(groups, named(name));
    lemma_first_where_found(groups, named(x));
    if at < groups.len() {
        assert forall|j: int| 0 <= j < out.len() implies (#[trigger] out[j]).name
            == groups[j].name by {}
        assert forall|j: int| 0 <= j < at_x implies !named(x)(#[trigger] out[j]) by {
            assert(!named(x)(groups[j]));
        }
        lemma_first_where(out, named(x), at_x);
    } else {
        assert forall|j: int| 0 <= j < groups.len() implies (#[trigger] groups[j]).name != name by {
            assert(!named(name)(groups[j]));
        }
        if at_x < groups.len() {
            assert forall|j: int| 0 <= j < at_x implies !named(x)(#[trigger] out[j]) by {
                assert(!named(x)(groups[j]));
            }
            assert(out[at_x] == groups[at_x]);
            lemma_first_where(out, named(x), at_x);
        } else if x == name {
            assert forall|j: int| 0 <= j < groups.len() implies !named(x)(#[trigger] out[j]) by {
                assert(out[j] == groups[j]);
            }
            lemma_first_where(out, named(x), groups.len() as int);
            assert(listed(groups, x).push(page) =~= seq![page]);
        } else {
            assert forall|j: int| 0 <= j < out.len() implies !named(x)(#[trigger] out[j]) by {
                if j < groups.len() {
                    assert(out[j] == groups[j]);
                    assert(!named(x)(groups[j]));
                }
            }
            lemma_first_where(out, named(x), out.len() as int);
        }
    }
}

proof fn lemma_listed_with_keys(
    groups: Seq<GroupView>,
    page: SummaryView,
    keys: Seq<Seq<char>>,
    n: int,
    x: Seq<char>,
)
    requires
        0 <= n <= keys.len(),
    ensures
        listed(with_keys(groups, page, keys, n), x) == listed(groups, x) + copies(
            page,
            occurrences(keys, x, n),
        ),
    decreases n,
{
    if n > 0 {
        lemma_listed_with_keys(groups, page, keys, n - 1, x);
        lemma_listed_with_member(with_keys(groups, page, keys, n - 1), keys[n - 1], page, x);
        let before = copies(page, occurrences(keys, x, n - 1));
        if keys[n - 1] == x {
            assert(copies(page, occurrences(keys, x, n)) =~= before.push(page));
            assert((listed(groups, x) + before).push(page) =~= listed(groups, x) + before.push(
                page,
            ));
        }
    } else {
        assert(listed(groups, x) + copies(page, 0) =~= listed(groups, x));
    }
}

/// What a group holds. The pages listed under a name are the pages that
/// have the name as a key: in the order given, each as often as it has the
/// key.
pub proof fn law_groups_hold_their_pages(
    pages: Seq<SummaryView>,
    keys: Seq<Seq<Seq<char>>>,
    n: int,
    name: Seq<char>,
)
    requires
        0 <= n,
    ensures
        listed(grouped_by(pages, keys, n), name) == members(pages, keys, name, n),
    decreases n,
{
    if n > 0 {
        law_groups_hold_their_pages(pages, keys, n - 1, name);
        let mine = keys_at(keys, n - 1);
        lemma_listed_with_keys(
            grouped_by(pages, keys, n - 1),
            pages[n - 1],
            mine,
            mine.len() as int,
            name,
        );
    } else {
        lemma_first_where_found(grouped_by(pages, keys, n), named(name));
    }
}

/// Pages grouped by tag.
pub struct TagGroups {
    groups: Vec<TagGroup>,
    index: StringHashMap<usize>,
}

/// `index` finds each group of `groups` by its name, and nothing else.
pub open spec fn indexes(index: Map<Seq<char>, usize>, groups: Seq<GroupView>) -> bool {
    &&& forall|k: Seq<char>| #[trigger]
        index.contains_key(k) ==> index[k] < groups.len() && groups[index[k] as int].name == k
    &&& forall|i: int|
        0 <= i < groups.len() ==> index.contains_key((#[trigger] groups[i]).name)
            && index[groups[i].name] == i
}

proof fn lemma_indexed_position(index: Map<Seq<char>, usize>, groups: Seq<GroupView>, name: Seq<char>)
    requires
        indexes(index, groups),
    ensures
        position_of(groups, name) == (if index.contains_key(name) {
            index[name] as int
        } else {
            groups.len() as int
        }),
{
    let at = if index.contains_key(name) {
        index[name] as int
    } else {
        groups.len() as int
    };
    assert forall|i: int| 0 <= i < at implies !(#[trigger] groups[i].name == name) by {
        assert(index.contains_key(groups[i].name));
    }
    lemma_first_where(groups, named(name), at);
}

impl View for TagGroups {
    type V = Seq<GroupView>;

    closed spec fn view(&self) -> Seq<GroupView> {
        group_views(self.groups@)
    }
}

impl TagGroups {
    #[verifier::type_invariant]
    spec fn inv(&self) -> bool {
        indexes(self.index@, group_views(self.groups@))
    }

    /// The number of groups.
    pub fn len(&self) -> (n: usize)
        ensures
            n == self@.len(),
    {
        self.groups.len()
    }

    /// The group at position `i`.
    pub fn group(&self, i: usize) -> (g: &TagGroup)
        requires
            i < self@.len(),
        ensures
            g@ == self@[i as int],
    {
        &self.groups[i]
    }

    /// The pages of the group named `name`, if there is one.
    pub fn get(&self, name: &str) -> (pages: Option<&Vec<PageSummary>>)
        ensures
            (match pages {
                Some(list) => Some(summary_views(list@)),
                None => None,
            }) == pages_of(self@, name@),
    {
        proof {
            use_type_invariant(self);
            lemma_indexed_position(self.index@, group_views(self.groups@), name@);
        }
        match self.index.get(name) {
            Some(at) => Some(&self.groups[*at].pages),
            None => None,
        }
    }
}

/// Groups the pages by tag; see [`grouped`].
pub fn group_by_tag(pages: &[PageSummary]) -> (groups: TagGroups)
    ensures
        groups@ == grouped(summary_views(pages@)),
{
    let ghost pv = summary_views(pages@);
    let mut keys: Vec<Vec<String>> = Vec::new();
    let mut i: usize = 0;
    while i < pages.len()
        invariant
            i <= pages.len(),
            pv == summary_views(pages@),
            keys@.len() == i,
            forall|j: int| 0 <= j < i ==> views((#[trigger] keys@[j])@) == tag_keys(pv[j]),
        decreases pages.len() - i,
    {
        let page = &pages[i];
        let mut lower: Vec<String> = Vec::new();
        let mut t: usize = 0;
        while t < page.tags.len()
            invariant
                t <= page.tags.len(),
                lower@.len() == t,
                forall|u: int| 0 <= u < t ==> (#[trigger] lower@[u])@ == str_lowercase(page.tags@[u]@),
            decreases page.tags.len() - t,
        {
            lower.push(lowercase_of(page.tags[t].as_str()));
            t += 1;
        }
        assert(views(lower@) =~= tag_keys(page@));
        keys.push(lower);
        i += 1;
    }
    assert(key_lists(keys@) =~= all_tag_keys(pv));
    group_by_keys(pages, keys.as_slice())
}

/// Groups the pages by the keys given for each: page `i` is listed under
/// each of `keys[i]`; see [`grouped_by`].
pub fn group_by_keys(pages: &[PageSummary], keys: &[Vec<String>]) -> (groups: TagGroups)
    ensures
        groups@ == grouped_by(summary_views(pages@), key_lists(keys@), pages@.len() as int),
{
    let ghost pv = summary_views(pages@);
    let ghost kv = key_lists(keys@);
    let mut groups: Vec<TagGroup> = Vec::new();
    let mut index: StringHashMap<usize> = StringHashMap::new();
    let mut i: usize = 0;
    assert(group_views(groups@) =~= Seq::empty());
    while i < pages.len()
        invariant
            i <= pages.len(),
            pv == summary_views(pages@),
            kv == key_lists(keys@),
            indexes(index@, group_views(groups@)),
            group_views(groups@) == grouped_by(pv, kv, i as int),
        decreases pages.len() - i,
    {
        let page = &pages[i];
        let ghost before = group_views(groups@);
        let count: usize = if i < keys.len() {
            keys[i].len()
        } else {
            0
        };
        let ghost mine = keys_at(kv, i as int);
        let mut t: usize = 0;
        while t < count
            invariant
                t <= count,
                i < pages.len(),
                page@ == pv[i as int],
                kv == key_lists(keys@),
                mine == keys_at(kv, i as int),
                count == mine.len(),
                count > 0 ==> i < keys.len(),
                indexes(index@, group_views(groups@)),
                group_views(groups@) == with_keys(before, page@, mine, t as int),
            decreases count - t,
        {
            let name = keys[i][t].clone();
            let ghost gv = group_views(groups@);
            let ghost old_index = index@;
            proof {
                lemma_indexed_position(index@, gv, name@);
                assert(mine[t as int] == name@);
            }
            let known: Option<usize> = match index.get(name.as_str()) {
                Some(at) => Some(*at),
                None => None,
            };
            match known {
                Some(at) => {
                    let ghost old_pages = summary_views(groups@[at as int].pages@);
                    groups[at].pages.push(page.clone());
                    proof {
                        let now = group_views(groups@);
                        assert(summary_views(groups@[at as int].pages@) =~= old_pages.push(page@));
                        assert(now =~= with_member(gv, name@, page@));
                        assert(indexes(index@, now)) by {
                            assert forall|k: Seq<char>| #[trigger]
                                index@.contains_key(k) implies index@[k] < now.len()
                                && now[index@[k] as int].name == k by {
                                assert(gv[index@[k] as int].name == k);
                            }
                            assert forall|j: int| 0 <= j < now.len() implies index@.contains_key(
                                (#[trigger] now[j]).name,
                            ) && index@[now[j].name] == j by {
                                assert(gv[j].name == now[j].name);
                            }
                        }
                    }
                },
                None => {
                    let at = groups.len();
                    let mut members: Vec<PageSummary> = Vec::new();
                    members.push(page.clone());
                    assert(summary_views(members@) =~= seq![page@]);
                    index.insert(name.clone(), at);
                    groups.push(TagGroup { name, pages: members });
                    proof {
                        let now = group_views(groups@);
                        assert(now =~= with_member(gv, name@, page@));
                        assert(indexes(index@, now)) by {
                            assert forall|k: Seq<char>| #[trigger]
                                index@.contains_key(k) implies index@[k] < now.len()
                                && now[index@[k] as int].name == k by {
                                if k != name@ {
                                    assert(old_index.contains_key(k));
                                    assert(gv[old_index[k] as int].name == k);
                                }
                            }
                            assert forall|j: int| 0 <= j < now.len() implies index@.contains_key(
                                (#[trigger] now[j]).name,
                            ) && index@[now[j].name] == j by {
                                if j < gv.len() {
                                    assert(gv[j].name == now[j].name);
                                    assert(old_index.contains_key(gv[j].name));
                                }
                            }
                        }
                    }
                },
            }
            t += 1;
        }
        i += 1;
    }
    TagGroups { groups, index }
}

/// The page of one tag, ready to be rendered and written.
#[derive(Debug)]
pub struct TagPage {
    pub name: String,
    pub slug: String,
    pub url: String,
    pub out_path: String,
    pub pages: Vec<PageSummary>,
}

/// The content of a [`TagPage`].
pub struct TagPageView {
    pub name: Seq<char>,
    pub slug: Seq<char>,
    pub url: Seq<char>,
    pub out_path: Seq<char>,
    pub pages: Seq<SummaryView>,
}

impl View for TagPage {
    type V = TagPageView;

    open spec fn view(&self) -> TagPageView {
        TagPageView {
            name: self.name@,
            slug: self.slug@,
            url: self.url@,
            out_path: self.out_path@,
            pages: summary_views(self.pages@),
        }
    }
}

/// One line of the index of all tags.
#[derive(Debug)]
pub struct TagSummary {
    pub name: String,
    pub count: usize,
    pub url: String,
}

/// The content of a [`TagSummary`].
pub struct TagSummaryView {
    pub name: Seq<char>,
    pub count: nat,
    pub url: Seq<char>,
}

impl View for TagSummary {
    type V = TagSummaryView;

    open spec fn view(&self) -> TagSummaryView {
        TagSummaryView { name: self.name@, count: self.count as nat, url: self.url@ }
    }
}

/// The tag pages of a site and the index of its tags.
#[derive(Debug)]
pub struct TagSite {
    /// One page for each tag, in the order in which the tags first occur.
    pub pages: Vec<TagPage>,
    /// One line for each tag, ordered by name.
    pub index: Vec<TagSummary>,
    /// Where the index is written.
    pub index_path: String,
}

/// The URL of the page of the tag with this slug.
pub open spec fn tag_url(slug: Seq<char>) -> Seq<char> {
    "/tags/"@ + slug + "/"@
}

/// The directory of the tag pages.
pub open spec fn tags_dir(out_root: Seq<char>) -> Seq<char> {
    path_join(out_root, "tags"@)
}

/// The slug of a tag.
pub open spec fn tag_slug(name: Seq<char>) -> Seq<char> {
    slug_of(lowered(name))
}

/// The page of one group: below `tags`, in a directory named by the tag's
/// slug.
pub open spec fn tag_page_of(out_root: Seq<char>, group: GroupView) -> TagPageView {
    TagPageView {
        name: group.name,
        slug: tag_slug(group.name),
        url: tag_url(tag_slug(group.name)),
        out_path: path_join(path_join(tags_dir(out_root), tag_slug(group.name)), "index.html"@),
        pages: group.pages,
    }
}

/// The index line of one group.
pub open spec fn tag_summary_of(group: GroupView) -> TagSummaryView {
    TagSummaryView {
        name: group.name,
        count: group.pages.len(),
        url: tag_url(tag_slug(group.name)),
    }
}

/// The key that orders tags by name: the codes of its characters.
pub open spec fn name_key(name: Seq<char>) -> Seq<u32> {
    Seq::new(name.len(), |i: int| name[i] as u32)
}

/// The keys of a list of groups.
pub open spec fn name_keys(groups: Seq<GroupView>) -> Seq<Seq<u32>> {
    Seq::new(groups.len(), |i: int| name_key(groups[i].name))
}

/// The index lines of `groups`, ordered by name.
pub open spec fn tag_index_of(groups: Seq<GroupView>) -> Seq<TagSummaryView> {
    let order = sorted_order(name_keys(groups));
    Seq::new(order.len(), |i: int| tag_summary_of(groups[order[i]]))
}

/// The index of the tags lists each tag once, every tag before all that have
/// a greater name.
pub proof fn law_tag_index_is_ordered(groups: Seq<GroupView>)
    ensures
        tag_index_of(groups).len() == groups.len(),
        is_arranged(name_keys(groups), sorted_order(name_keys(groups)), groups.len() as int),
{
    lemma_sorted_order(name_keys(groups));
}

/// The views of a list of tag pages.
pub open spec fn tag_page_views(list: Seq<TagPage>) -> Seq<TagPageView> {
    Seq::new(list.len(), |i: int| list[i]@)
}

/// The views of a list of index lines.
pub open spec fn tag_summary_views(list: Seq<TagSummary>) -> Seq<TagSummaryView> {
    Seq::new(list.len(), |i: int| list[i]@)
}

fn name_order_key(name: &str) -> (key: Vec<u32>)
    ensures
        key@ == name_key(name@),
{
    let chars = chars_of(name);
    let mut key: Vec<u32> = Vec::new();
    let mut i: usize = 0;
    while i < chars.len()
        invariant
            i <= chars.len(),
            key@.len() == i,
            forall|j: int| 0 <= j < i ==> key@[j] == chars@[j] as u32,
        decreases chars.len() - i,
    {
        key.push(chars[i] as u32);
        i += 1;
    }
    assert(key@ =~= name_key(name@));
    key
}

fn clone_summaries(list: &Vec<PageSummary>) -> (copy: Vec<PageSummary>)
    ensures
        summary_views(copy@) == summary_views(list@),
{
    let mut copy: Vec<PageSummary> = Vec::new();
    let mut i: usize = 0;
    while i < list.len()
        invariant
            i <= list.len(),
            copy@.len() == i,
            forall|j: int| 0 <= j < i ==> copy@[j]@ == list@[j]@,
        decreases list.len() - i,
    {
        copy.push(list[i].clone());
        i += 1;
    }
    assert(summary_views(copy@) =~= summary_views(list@));
    copy
}

fn url_for_tag(slug: &str) -> (url: String)
    ensures
        url@ == tag_url(slug@),
{
    let head = glue("/tags/", slug);
    glue(head.as_str(), "/")
}

/// Lays out the tag pages of a site: the page of each tag of `pages`, and the
/// index of the tags ordered by name.
pub fn plan_tag_pages(out_root: &str, pages: &[PageSummary]) -> (site: TagSite)
    ensures
        tag_page_views(site.pages@) == Seq::new(
            grouped(summary_views(pages@)).len(),
            |i: int| tag_page_of(out_root@, grouped(summary_views(pages@))[i]),
        ),
        tag_summary_views(site.index@) == tag_index_of(grouped(summary_views(pages@))),
        site.index_path@ == path_join(tags_dir(out_root@), "index.html"@),
{
    let groups = group_by_tag(pages);
    let ghost gv = groups@;
    let dir = crate::paths::join(out_root, "tags");
    let mut tag_pages: Vec<TagPage> = Vec::new();
    let mut lines: Vec<TagSummary> = Vec::new();
    let mut keys: Vec<Vec<u32>> = Vec::new();
    let count = groups.len();
    let mut i: usize = 0;
    while i < count
        invariant
            i <= count,
            count == gv.len(),
            gv == groups@,
            dir@ == tags_dir(out_root@),
            tag_pages@.len() == i,
            lines@.len() == i,
            keys@.len() == i,
            forall|j: int| 0 <= j < i ==> (#[trigger] tag_pages@[j])@ == tag_page_of(out_root@, gv[j]),
            forall|j: int| 0 <= j < i ==> (#[trigger] lines@[j])@ == tag_summary_of(gv[j]),
            forall|j: int| 0 <= j < i ==> (#[trigger] keys@[j])@ == name_key(gv[j].name),
        decreases count - i,
    {
        let g = groups.group(i);
        let slug = slugify(g.name.as_str());
        let page_dir = crate::paths::join(dir.as_str(), slug.as_str());
        let out_path = crate::paths::join(page_dir.as_str(), "index.html");
        let url = url_for_tag(slug.as_str());
        keys.push(name_order_key(g.name.as_str()));
        lines.push(TagSummary { name: g.name.clone(), count: g.pages.len(), url: url.clone() });
        tag_pages.push(
            TagPage { name: g.name.clone(), slug, url, out_path, pages: clone_summaries(&g.pages) },
        );
        i += 1;
    }
    assert(key_views(keys@) =~= name_keys(gv));
    let order = sort_positions(&keys);
    let mut index: Vec<TagSummary> = Vec::new();
    let mut n: usize = 0;
    while n < order.len()
        invariant
            n <= order.len(),
            order@.len() == lines@.len(),
            lines@.len() == gv.len(),
            forall|j: int| 0 <= j < order@.len() ==> #[trigger] order@[j] < lines@.len(),
            forall|j: int| 0 <= j < lines@.len() ==> (#[trigger] lines@[j])@ == tag_summary_of(gv[j]),
            index@.len() == n,
            forall|j: int|
                0 <= j < n ==> (#[trigger] index@[j])@ == tag_summary_of(gv[order@[j] as int]),
        decreases order.len() - n,
    {
        let line = &lines[order[n]];
        index.push(TagSummary { name: line.name.clone(), count: line.count, url: line.url.clone() });
        n += 1;
    }
    proof {
        let positions = order@.map_values(|p: usize| p as int);
        assert(tag_summary_views(index@) =~= tag_index_of(gv)) by {
            assert forall|j: int| 0 <= j < index@.len() implies tag_summary_views(index@)[j]
                == tag_index_of(gv)[j] by {
                assert(positions[j] == order@[j] as int);
            }
        }
        assert(tag_page_views(tag_pages@) =~= Seq::new(
            gv.len(),
            |i: int| tag_page_of(out_root@, gv[i]),
        ));
    }
    let index_path = crate::paths::join(dir.as_str(), "index.html");
    TagSite { pages: tag_pages, index, index_path }
}

} // verus!
