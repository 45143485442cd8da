//! Content signatures and the build cache that remembers them.
//!
//! A signature is the BLAKE3 digest of some bytes, written as 64 digits of
//! lowercase hexadecimal. A file's signature covers its content. A tree's signature covers
//! the path and the content of each of its files, taken in path order. The
//! build cache holds the signatures of the last build; a unit whose signature
//! it does not hold, or holds differently, is stale.

use vstd::prelude::*;
use vstd::hash_map::StringHashMap;
use vstd::utf8::encode_utf8;
use vstd::string::StringSliceAdditionalSpecFns;
use crate::order::{
    distinct_keys, is_rearrangement, key_views, lemma_sorted_order_of_rearrangement, rearranged,
    sort_positions, sorted_order,
};
use crate::text::{chars_of, views};

verus! {

/// The BLAKE3 digest of `data`, in lowercase hexadecimal.
pub uninterp spec fn blake3_hex(data: Seq<u8>) -> Seq<char>;

/// The digits of lowercase hexadecimal.
pub open spec fn is_hex_digit(c: char) -> bool {
    ('0' <= c && c <= '9') || ('a' <= c && c <= 'f')
}

/// The shape of a signature: 64 digits of lowercase hexadecimal.
pub open spec fn is_signature(hex: Seq<char>) -> bool {
    &&& hex.len() == 64
    &&& forall|i: int| 0 <= i < hex.len() ==> is_hex_digit(#[trigger] hex[i])
}

/// Trusted: calls `blake3::hash` and writes the digest with `Hash::to_hex`.
/// The result is the one named by [`blake3_hex`]; it has two digits, each
/// one of `0` to `9` and `a` to `f`, for each of the digest's 32 bytes.
#[verifier::external_body]
fn hex_digest(data: &[u8]) -> (hex: String)
    ensures
        hex@ == blake3_hex(data@),
        is_signature(hex@),
{
    blake3::hash(data).to_hex().to_string()
}

/// The signature of a file with content `data`.
pub open spec fn file_signature(data: Seq<u8>) -> Seq<char> {
    blake3_hex(data)
}

/// The signature of a file's content.
pub fn file_hash(data: &[u8]) -> (hex: String)
    ensures
        hex@ == file_signature(data@),
        is_signature(hex@),
{
    hex_digest(data)
}

/// One file of a tree: its path, and its content where it could be read.
pub struct TreeFile {
    pub path: String,
    pub content: Option<Vec<u8>>,
}

/// What the signature of a tree reads of one file.
pub struct TreeFileView {
    pub path: Seq<char>,
    pub content: Option<Seq<u8>>,
}

impl View for TreeFile {
    type V = TreeFileView;

    open spec fn view(&self) -> TreeFileView {
        TreeFileView {
            path: self.path@,
            content: match self.content {
                Some(c) => Some(c@),
                None => None,
            },
        }
    }
}

/// The views of a list of files.
pub open spec fn tree_views(files: Seq<TreeFile>) -> Seq<TreeFileView> {
    Seq::new(files.len(), |i: int| files[i]@)
}

/// The rank of a character when paths are ordered: the separator comes
/// before every other character, so that paths compare component by
/// component.
pub open spec fn path_rank(c: char) -> u32 {
    if c == '/' {
        0
    } else {
        (c as u32 + 1) as u32
    }
}

/// The key by which a path is ordered.
pub open spec fn path_key(path: Seq<char>) -> Seq<u32> {
    Seq::new(path.len(), |i: int| path_rank(path[i]))
}

/// The keys of a list of files.
pub open spec fn tree_keys(files: Seq<TreeFileView>) -> Seq<Seq<u32>> {
    Seq::new(files.len(), |i: int| path_key(files[i].path))
}

/// What one file adds to the bytes of a tree: its path in UTF-8, then its
/// content. A file that could not be read adds its path alone.
pub open spec fn file_bytes(f: TreeFileView) -> Seq<u8> {
    encode_utf8(f.path) + match f.content {
        Some(c) => c,
        None => Seq::empty(),
    }
}

/// The bytes of the files at the positions `order`, one after the other.
pub open spec fn tree_bytes(files: Seq<TreeFileView>, order: Seq<int>) -> Seq<u8>
    decreases order.len(),
{
    if order.len() == 0 {
        Seq::empty()
    } else {
        tree_bytes(files, order.drop_last()) + file_bytes(files[order.last()])
    }
}

/// The signature of a tree: the digest of the bytes of its files in path
/// order.
pub open spec fn tree_signature(files: Seq<TreeFileView>) -> Seq<char> {
    blake3_hex(tree_bytes(files, sorted_order(tree_keys(files))))
}

/// No two files have the same path, as in any listing of a tree.
pub open spec fn distinct_tree_paths(files: Seq<TreeFileView>) -> bool {
    forall|i: int, j: int|
        0 <= i < j < files.len() ==> (#[trigger] files[i]).path != (#[trigger] files[j]).path
}

/// The same files listed in another order: position `i` holds the file that
/// was at `at[i]`.
pub open spec fn relisted(files: Seq<TreeFileView>, at: Seq<int>) -> Seq<TreeFileView> {
    Seq::new(at.len(), |i: int| files[at[i]])
}

/// Different paths have different keys.
pub proof fn lemma_path_key_injective(p: Seq<char>, q: Seq<char>)
    requires
        path_key(p) == path_key(q),
    ensures
        p == q,
{
    assert(p.len() == path_key(p).len());
    assert(q.len() == path_key(q).len());
    assert forall|i: int| 0 <= i < p.len() implies p[i] == q[i] by {
        assert(path_key(p)[i] == path_rank(p[i]));
        assert(path_key(q)[i] == path_rank(q[i]));
        vstd::utf8::char_is_scalar(p[i]);
        vstd::utf8::char_is_scalar(q[i]);
        assert(p[i] as u32 == q[i] as u32);
        vstd::utf8::char_u32_cast(p[i], p[i] as u32);
        vstd::utf8::char_u32_cast(q[i], q[i] as u32);
    }
    assert(p =~= q);
}

proof fn lemma_tree_bytes_agree(
    a: Seq<TreeFileView>,
    oa: Seq<int>,
    b: Seq<TreeFileView>,
    ob: Seq<int>,
)
    requires
        oa.len() == ob.len(),
        forall|i: int| 0 <= i < oa.len() ==> a[#[trigger] oa[i]] == b[ob[i]],
    ensures
        tree_bytes(a, oa) == tree_bytes(b, ob),
    decreases oa.len(),
{
    if oa.len() > 0 {
        let n = oa.len() - 1;
        assert(a[oa[n]] == b[ob[n]]);
        assert forall|i: int| 0 <= i < n implies a[#[trigger] oa.drop_last()[i]]
            == b[ob.drop_last()[i]] by {
            assert(a[oa[i]] == b[ob[i]]);
        }
        lemma_tree_bytes_agree(a, oa.drop_last(), b, ob.drop_last());
    }
}

/// Reproducibility. The signature of a tree does not depend on the order in
/// which its files are listed.
pub proof fn law_signature_ignores_listing_order(files: Seq<TreeFileView>, at: Seq<int>)
    requires
        distinct_tree_paths(files),
        is_rearrangement(at, files.len() as int),
    ensures
        tree_signature(relisted(files, at)) == tree_signature(files),
{
    let keys = tree_keys(files);
    let other = relisted(files, at);
    assert(tree_keys(other) =~= rearranged(keys, at));
    assert(distinct_keys(keys)) by {
        assert forall|i: int, j: int| 0 <= i < j < keys.len() implies #[trigger] keys[i]
            != #[trigger] keys[j] by {
            if keys[i] == keys[j] {
                lemma_path_key_injective(files[i].path, files[j].path);
            }
        }
    }
    lemma_sorted_order_of_rearrangement(keys, at);
    let oa = sorted_order(keys);
    let ob = sorted_order(tree_keys(other));
    assert forall|i: int| 0 <= i < ob.len() implies other[#[trigger] ob[i]] == files[oa[i]] by {
        assert(at[ob[i]] == oa[i]);
    }
    lemma_tree_bytes_agree(other, ob, files, oa);
}

/// Computes [`path_key`].
pub fn path_order_key(path: &str) -> (key: Vec<u32>)
    ensures
        key@ == path_key(path@),
{
    let chars = chars_of(path);
    let mut key: Vec<u32> = Vec::new();
    let mut i: usize = 0;
    while i < chars.len()
        invariant
            i <= chars.len(),
            key@.len() == i,
            forall|j: int| 0 <= j < i ==> key@[j] == path_rank(chars@[j]),
        decreases chars.len() - i,
    {
        let c = chars[i];
        assert(c as u32 <= 0x10FFFF) by {
            vstd::utf8::char_is_scalar(c);
        }
        let rank: u32 = if c == '/' { 0 } else { c as u32 + 1 };
        key.push(rank);
        i += 1;
    }
    assert(key@ =~= path_key(path@));
    key
}

fn push_bytes(buf: &mut Vec<u8>, data: &[u8])
    ensures
        final(buf)@ == old(buf)@ + data@,
{
    let mut i: usize = 0;
    while i < data.len()
        invariant
            i <= data.len(),
            buf@ == old(buf)@ + data@.take(i as int),
        decreases data.len() - i,
    {
        buf.push(data[i]);
        assert(data@.take(i + 1) == data@.take(i as int).push(data@[i as int]));
        i += 1;
    }
    assert(data@.take(data.len() as int) == data@);
}

/// The signature of a tree of files, whatever the order they are listed in:
/// the files are put in path order, and for each its path and then its
/// content enter the digest. A file without content enters with its path
/// alone.
pub fn templates_hash(files: &Vec<TreeFile>) -> (hex: String)
    ensures
        hex@ == tree_signature(tree_views(files@)),
        is_signature(hex@),
{
    let ghost fv = tree_views(files@);
    let mut keys: Vec<Vec<u32>> = Vec::new();
    let mut i: usize = 0;
    while i < files.len()
        invariant
            i <= files.len(),
            fv == tree_views(files@),
            keys@.len() == i,
            forall|j: int| 0 <= j < i ==> keys@[j]@ == path_key(fv[j].path),
        decreases files.len() - i,
    {
        keys.push(path_order_key(files[i].path.as_str()));
        i += 1;
    }
    assert(key_views(keys@) =~= tree_keys(fv));
    let order = sort_positions(&keys);
    let ghost positions = order@.map_values(|p: usize| p as int);
    let mut buf: Vec<u8> = Vec::new();
    let mut n: usize = 0;
    while n < order.len()
        invariant
            n <= order.len(),
            fv == tree_views(files@),
            order@.len() == files@.len(),
            positions == order@.map_values(|p: usize| p as int),
            forall|i: int| 0 <= i < order@.len() ==> #[trigger] order@[i] < files@.len(),
            buf@ == tree_bytes(fv, positions.take(n as int)),
        decreases order.len() - n,
    {
        let f = &files[order[n]];
        let ghost before = buf@;
        push_bytes(&mut buf, f.path.as_str().as_bytes());
        match &f.content {
            Some(c) => {
                push_bytes(&mut buf, c.as_slice());
            },
            None => {},
        }
        proof {
            let next = positions.take(n + 1);
            assert(next.drop_last() == positions.take(n as int));
            assert(next.last() == order@[n as int] as int);
            assert(buf@ == before + file_bytes(fv[order@[n as int] as int]));
        }
        n += 1;
    }
    assert(positions.take(order.len() as int) == positions);
    hex_digest(buf.as_slice())
}

/// A unit that was discovered and read: its path below the source root, and
/// the signature of its content.
#[derive(Debug, PartialEq, Eq)]
pub struct UnitSignature {
    pub rel: String,
    pub hash: String,
}

/// The content of a [`UnitSignature`].
pub struct UnitView {
    pub rel: Seq<char>,
    pub hash: Seq<char>,
}

impl View for UnitSignature {
    type V = UnitView;

    open spec fn view(&self) -> UnitView {
        UnitView { rel: self.rel@, hash: self.hash@ }
    }
}

/// The views of a list of units.
pub open spec fn unit_views(units: Seq<UnitSignature>) -> Seq<UnitView> {
    Seq::new(units.len(), |i: int| units[i]@)
}

/// The signatures of a list of units by path; of two units with one path the
/// later counts.
pub open spec fn signatures(units: Seq<UnitView>) -> Map<Seq<char>, Seq<char>>
    decreases units.len(),
{
    if units.len() == 0 {
        Map::empty()
    } else {
        signatures(units.drop_last()).insert(units.last().rel, units.last().hash)
    }
}

/// No two units have the same path, as in any listing of a tree.
pub open spec fn distinct_paths(units: Seq<UnitView>) -> bool {
    forall|i: int, j: int| 0 <= i < j < units.len() ==> (#[trigger] units[i]).rel != (
    #[trigger] units[j]).rel
}

/// Every path of `units`, and no other, has a signature.
pub proof fn lemma_signatures_domain(units: Seq<UnitView>, path: Seq<char>)
    ensures
        signatures(units).contains_key(path) <==> exists|i: int|
            0 <= i < units.len() && (#[trigger] units[i]).rel == path,
    decreases units.len(),
{
    if units.len() > 0 {
        let rest = units.drop_last();
        lemma_signatures_domain(rest, path);
        if signatures(units).contains_key(path) {
            if units.last().rel == path {
                assert(units[units.len() - 1].rel == path);
            } else {
                let i = choose|i: int| 0 <= i < rest.len() && (#[trigger] rest[i]).rel == path;
                assert(units[i].rel == path);
            }
        }
        if exists|i: int| 0 <= i < units.len() && (#[trigger] units[i]).rel == path {
            let i = choose|i: int| 0 <= i < units.len() && (#[trigger] units[i]).rel == path;
            if i < units.len() - 1 {
                assert(rest[i].rel == path);
            }
        }
    }
}

/// Where paths are distinct, each unit's path has that unit's signature.
pub proof fn lemma_signatures_value(units: Seq<UnitView>, i: int)
    requires
        distinct_paths(units),
        0 <= i < units.len(),
    ensures
        signatures(units).contains_key(units[i].rel),
        signatures(units)[units[i].rel] == units[i].hash,
    decreases units.len(),
{
    let rest = units.drop_last();
    if i < units.len() - 1 {
        assert(distinct_paths(rest)) by {
            assert forall|a: int, b: int| 0 <= a < b < rest.len() implies (#[trigger] rest[a]).rel
                != (#[trigger] rest[b]).rel by {
                assert(units[a].rel != units[b].rel);
            }
        }
        lemma_signatures_value(rest, i);
        assert(rest[i] == units[i]);
        assert(units[i].rel != units[units.len() - 1].rel);
    }
}

/// What a build cache records: the signature of the template set, and the
/// signature of each unit by its path.
pub struct CacheView {
    pub templates_hash: Seq<char>,
    pub pages: Map<Seq<char>, Seq<char>>,
}

/// The signatures of the last successful build.
pub struct BuildCache {
    templates_hash: String,
    keys: Vec<String>,
    pages: StringHashMap<String>,
}

/// The cache of a tree that was never built: no template signature, no unit.
pub open spec fn empty_cache() -> CacheView {
    CacheView { templates_hash: Seq::empty(), pages: Map::empty() }
}

/// Whether a unit must be rendered again: the template set changed since
/// the cached build, or the cache has no signature for the unit's path, or
/// has another one.
pub open spec fn stale(
    cache: CacheView,
    templates_hash: Seq<char>,
    rel: Seq<char>,
    hash: Seq<char>,
) -> bool {
    ||| cache.templates_hash != templates_hash
    ||| !cache.pages.contains_key(rel)
    ||| cache.pages[rel] != hash
}

impl View for BuildCache {
    type V = CacheView;

    closed spec fn view(&self) -> CacheView {
        CacheView {
            templates_hash: self.templates_hash@,
            pages: Map::new(
                |k: Seq<char>| self.pages@.contains_key(k),
                |k: Seq<char>| self.pages@[k]@,
            ),
        }
    }
}

impl BuildCache {
    #[verifier::type_invariant]
    spec fn inv(&self) -> bool {
        &&& views(self.keys@).no_duplicates()
        &&& forall|k: Seq<char>| #[trigger]
            views(self.keys@).contains(k) <==> self.pages@.contains_key(k)
    }

    /// A cache without any signature.
    pub fn new() -> (c: BuildCache)
        ensures
            c@ == empty_cache(),
    {
        let c = BuildCache {
            templates_hash: String::new(),
            keys: Vec::new(),
            pages: StringHashMap::new(),
        };
        assert(c@.pages =~= Map::empty());
        c
    }

    /// The cache to build against, given what could be read of the cache
    /// file: the cache that was read, or the empty one where the file was
    /// missing or did not parse.
    pub fn recover(parsed: Option<BuildCache>) -> (c: BuildCache)
        ensures
            c@ == (match parsed {
                Some(cache) => cache@,
                None => empty_cache(),
            }),
    {
        match parsed {
            Some(cache) => cache,
            None => BuildCache::new(),
        }
    }

    /// The signature of the template set at the cached build.
    pub fn templates_hash(&self) -> (h: &String)
        ensures
            h@ == self@.templates_hash,
    {
        &self.templates_hash
    }

    /// Records the signature of the template set.
    pub fn set_templates_hash(&mut self, hash: String)
        ensures
            final(self)@.templates_hash == hash@,
            final(self)@.pages == old(self)@.pages,
    {
        let mut taken = BuildCache::new();
        std::mem::swap(self, &mut taken);
        *self = taken.with_templates_hash(hash);
    }

    /// This cache with `hash` as the signature of the template set.
    fn with_templates_hash(self, hash: String) -> (c: BuildCache)
        ensures
            c@.templates_hash == hash@,
            c@.pages == self@.pages,
    {
        proof {
            use_type_invariant(&self);
        }
        let BuildCache { templates_hash: _, keys, pages } = self;
        BuildCache { templates_hash: hash, keys, pages }
    }

    /// The number of units with a signature.
    pub fn len(&self) -> (n: usize)
        ensures
            n == self@.pages.len(),
            self@.pages.dom().finite(),
    {
        proof {
            use_type_invariant(self);
            self.lemma_dom();
            self.lemma_key_count();
        }
        self.pages.len()
    }

    proof fn lemma_dom(&self)
        ensures
            self@.pages.dom() == self.pages@.dom(),
    {
        assert(self@.pages.dom() =~= self.pages@.dom());
    }

    /// The cached signature of the unit at `rel`, if there is one.
    pub fn get(&self, rel: &str) -> (h: Option<&String>)
        ensures
            h.is_some() == self@.pages.contains_key(rel@),
            h matches Some(s) ==> s@ == self@.pages[rel@],
    {
        self.pages.get(rel)
    }

    /// Records `hash` as the signature of the unit at `rel`, in place of any
    /// earlier one.
    pub fn insert(&mut self, rel: String, hash: String)
        ensures
            final(self)@.pages == old(self)@.pages.insert(rel@, hash@),
            final(self)@.templates_hash == old(self)@.templates_hash,
    {
        let mut taken = BuildCache::new();
        std::mem::swap(self, &mut taken);
        *self = taken.with_entry(rel, hash);
    }

    /// This cache with `hash` recorded for `rel`.
    fn with_entry(self, rel: String, hash: String) -> (c: BuildCache)
        ensures
            c@.pages == self@.pages.insert(rel@, hash@),
            c@.templates_hash == self@.templates_hash,
    {
        proof {
            use_type_invariant(&self);
        }
        let ghost before = self@;
        let BuildCache { templates_hash, mut keys, mut pages } = self;
        let ghost old_keys = keys@;
        let ghost old_pages = pages@;
        let known = pages.contains_key(rel.as_str());
        let ghost r = rel@;
        if !known {
            keys.push(rel.clone());
        }
        pages.insert(rel, hash);
        proof {
            let names = views(keys@);
            let old_names = views(old_keys);
            if known {
                assert(names =~= old_names);
            } else {
                assert(names =~= old_names.push(r));
                assert(!old_names.contains(r));
            }
            assert forall|k: Seq<char>| #[trigger] names.contains(k) <==> pages@.contains_key(
                k,
            ) by {
                if k != r {
                    assert(old_names.contains(k) <==> old_pages.contains_key(k));
                    if names.contains(k) {
                        let i = choose|i: int| 0 <= i < names.len() && names[i] == k;
                        assert(old_names[i] == k);
                    }
                    if old_names.contains(k) {
                        let i = choose|i: int| 0 <= i < old_names.len() && old_names[i] == k;
                        assert(names[i] == k);
                    }
                } else {
                    if known {
                        assert(old_names.contains(k));
                    } else {
                        assert(names[old_names.len() as int] == k);
                    }
                }
            }
        }
        let c = BuildCache { templates_hash, keys, pages };
        assert(c@.pages =~= before.pages.insert(r, hash@));
        c
    }

    /// Whether the template set differs from the one of the cached build.
    pub fn templates_changed(&self, templates_hash: &str) -> (changed: bool)
        ensures
            changed == (self@.templates_hash != templates_hash@),
    {
        !crate::text::str_eq(self.templates_hash.as_str(), templates_hash)
    }

    /// Whether the unit at `rel`, whose signature is now `hash`, must be
    /// rendered again, given whether the template set changed.
    pub fn is_stale(&self, templates_changed: bool, rel: &str, hash: &str) -> (yes: bool)
        ensures
            yes == (templates_changed || !self@.pages.contains_key(rel@) || self@.pages[rel@]
                != hash@),
    {
        if templates_changed {
            return true;
        }
        match self.pages.get(rel) {
            Some(h) => !crate::text::str_eq(h.as_str(), hash),
            None => true,
        }
    }

    /// The cached signatures, each path once, in the order in which the paths
    /// were first recorded. A cache made of them again is this cache.
    pub fn entries(&self) -> (list: Vec<UnitSignature>)
        ensures
            list@.len() == self@.pages.len(),
            self@.pages.dom().finite(),
            distinct_paths(unit_views(list@)),
            signatures(unit_views(list@)) == self@.pages,
    {
        proof {
            use_type_invariant(self);
            self.lemma_dom();
            self.lemma_key_count();
        }
        let mut list: Vec<UnitSignature> = Vec::new();
        let mut i: usize = 0;
        while i < self.keys.len()
            invariant
                i <= self.keys@.len(),
                list@.len() == i,
                forall|k: Seq<char>| #[trigger]
                    views(self.keys@).contains(k) <==> self.pages@.contains_key(k),
                forall|j: int|
                    0 <= j < i ==> (#[trigger] list@[j]).rel@ == self.keys@[j]@ && list@[j].hash@
                        == self.pages@[self.keys@[j]@]@,
            decreases self.keys@.len() - i,
        {
            let key = &self.keys[i];
            assert(views(self.keys@)[i as int] == key@);
            assert(views(self.keys@).contains(key@));
            let value = self.pages.get(key.as_str());
            match value {
                Some(v) => {
                    list.push(UnitSignature { rel: key.clone(), hash: v.clone() });
                },
                None => {
                    assert(false);
                },
            }
            i += 1;
        }
        proof {
            let names = views(self.keys@);
            let units = unit_views(list@);
            assert forall|a: int, b: int| 0 <= a < b < units.len() implies (#[trigger] units[a]).rel
                != (#[trigger] units[b]).rel by {
                assert(names[a] == units[a].rel);
                assert(names[b] == units[b].rel);
            }
            assert forall|k: Seq<char>| signatures(units).contains_key(k)
                <==> self@.pages.contains_key(k) by {
                lemma_signatures_domain(units, k);
                if signatures(units).contains_key(k) {
                    let j = choose|j: int| 0 <= j < units.len() && (#[trigger] units[j]).rel == k;
                    assert(names[j] == k);
                    assert(names.contains(k));
                }
                if self@.pages.contains_key(k) {
                    assert(names.contains(k));
                    let j = choose|j: int| 0 <= j < names.len() && names[j] == k;
                    assert(units[j].rel == k);
                }
            }
            assert forall|k: Seq<char>| signatures(units).contains_key(k) implies signatures(
                units,
            )[k] == self@.pages[k] by {
                lemma_signatures_domain(units, k);
                let j = choose|j: int| 0 <= j < units.len() && (#[trigger] units[j]).rel == k;
                lemma_signatures_value(units, j);
                assert(names[j] == k);
            }
            assert(signatures(units) =~= self@.pages);
        }
        list
    }

    proof fn lemma_key_count(&self)
        requires
            self.inv(),
        ensures
            self.pages@.dom().finite(),
            self.pages@.dom().len() == self.keys@.len(),
    {
        let names = views(self.keys@);
        names.unique_seq_to_set();
        assert(names.to_set() =~= self.pages@.dom());
    }
}

impl Default for BuildCache {
    fn default() -> (c: BuildCache)
        ensures
            c@ == empty_cache(),
    {
        BuildCache::new()
    }
}

} // verus!
