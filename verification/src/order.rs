//! Ordering by keys: a lexicographic order on sequences of numbers, and the
//! stable arrangement of a list of keys in that order.

use vstd::prelude::*;

verus! {

/// Lexicographic "less than or equal": the first position at which the two
/// sequences differ decides; a proper prefix comes first.
pub open spec fn lex_le(a: Seq<u32>, b: Seq<u32>) -> bool
    decreases a.len(),
{
    if a.len() == 0 {
        true
    } else if b.len() == 0 {
        false
    } else if a[0] != b[0] {
        a[0] < b[0]
    } else {
        lex_le(a.skip(1), b.skip(1))
    }
}

/// Any sequence is at most itself.
pub proof fn lemma_lex_reflexive(a: Seq<u32>)
    ensures
        lex_le(a, a),
    decreases a.len(),
{
    if a.len() > 0 {
        lemma_lex_reflexive(a.skip(1));
    }
}

/// Of two sequences one is at most the other.
pub proof fn lemma_lex_total(a: Seq<u32>, b: Seq<u32>)
    ensures
        lex_le(a, b) || lex_le(b, a),
    decreases a.len(),
{
    if a.len() > 0 && b.len() > 0 && a[0] == b[0] {
        lemma_lex_total(a.skip(1), b.skip(1));
    }
}

/// Two sequences that are each at most the other are equal.
pub proof fn lemma_lex_antisymmetric(a: Seq<u32>, b: Seq<u32>)
    requires
        lex_le(a, b),
        lex_le(b, a),
    ensures
        a == b,
    decreases a.len(),
{
    if a.len() > 0 {
        lemma_lex_antisymmetric(a.skip(1), b.skip(1));
        assert(a =~= seq![a[0]] + a.skip(1));
        assert(b =~= seq![b[0]] + b.skip(1));
    } else {
        assert(a =~= b);
    }
}

/// The order is transitive.
pub proof fn lemma_lex_transitive(a: Seq<u32>, b: Seq<u32>, c: Seq<u32>)
    requires
        lex_le(a, b),
        lex_le(b, c),
    ensures
        lex_le(a, c),
    decreases a.len(),
{
    if a.len() > 0 && a[0] == b[0] && b[0] == c[0] {
        lemma_lex_transitive(a.skip(1), b.skip(1), c.skip(1));
    }
}

/// Decides [`lex_le`].
pub fn key_le(a: &Vec<u32>, b: &Vec<u32>) -> (r: bool)
    ensures
        r == lex_le(a@, b@),
{
    let mut i: usize = 0;
    assert(a@.skip(0) == a@ && b@.skip(0) == b@);
    while i < a.len() && i < b.len()
        invariant
            i <= a.len(),
            i <= b.len(),
            lex_le(a@, b@) == lex_le(a@.skip(i as int), b@.skip(i as int)),
        decreases a.len() - i,
    {
        if a[i] != b[i] {
            return a[i] < b[i];
        }
        assert(a@.skip(i as int).skip(1) == a@.skip(i + 1));
        assert(b@.skip(i as int).skip(1) == b@.skip(i + 1));
        i += 1;
    }
    i == a.len()
}

/// The views of a list of keys.
pub open spec fn key_views(keys: Seq<Vec<u32>>) -> Seq<Seq<u32>> {
    Seq::new(keys.len(), |i: int| keys[i]@)
}

/// `order`, a list of positions into `keys` arranged by key, with position
/// `k` put in: behind every entry whose key is at most that of `k`.
pub open spec fn insert_by_key(order: Seq<int>, keys: Seq<Seq<u32>>, k: int) -> Seq<int>
    decreases order.len(),
{
    if order.len() == 0 {
        seq![k]
    } else if lex_le(keys[order.last()], keys[k]) {
        order.push(k)
    } else {
        insert_by_key(order.drop_last(), keys, k).push(order.last())
    }
}

/// The first `n` positions of `keys`, arranged by key; positions with equal
/// keys stay in the order given.
pub open spec fn sorted_prefix(keys: Seq<Seq<u32>>, n: int) -> Seq<int>
    decreases n,
{
    if n <= 0 {
        Seq::empty()
    } else {
        insert_by_key(sorted_prefix(keys, n - 1), keys, n - 1)
    }
}

/// All positions of `keys`, arranged by key; positions with equal keys stay
/// in the order given.
pub open spec fn sorted_order(keys: Seq<Seq<u32>>) -> Seq<int> {
    sorted_prefix(keys, keys.len() as int)
}

/// Position `a` comes before position `b`: its key is smaller, or the keys
/// are equal and `a` is the earlier position.
pub open spec fn comes_before(keys: Seq<Seq<u32>>, a: int, b: int) -> bool {
    lex_le(keys[a], keys[b]) && (keys[a] == keys[b] ==> a < b)
}

/// `order` lists each of the positions `0..n` of `keys` once, every entry
/// before all that follow it.
pub open spec fn is_arranged(keys: Seq<Seq<u32>>, order: Seq<int>, n: int) -> bool {
    &&& order.len() == n
    &&& forall|i: int| 0 <= i < n ==> 0 <= #[trigger] order[i] < n
    &&& forall|k: int| 0 <= k < n ==> #[trigger] order.contains(k)
    &&& forall|i: int, j: int|
        0 <= i < j < n ==> comes_before(keys, #[trigger] order[i], #[trigger] order[j])
}

proof fn lemma_insert_at(order: Seq<int>, keys: Seq<Seq<u32>>, k: int, p: int)
    requires
        0 <= p <= order.len(),
        p > 0 ==> lex_le(keys[order[p - 1]], keys[k]),
        forall|j: int| p <= j < order.len() ==> !lex_le(keys[#[trigger] order[j]], keys[k]),
    ensures
        insert_by_key(order, keys, k) == order.insert(p, k),
    decreases order.len(),
{
    if order.len() == 0 {
        assert(order.insert(p, k) =~= seq![k]);
    } else if p == order.len() {
        assert(order.insert(p, k) =~= order.push(k));
    } else {
        assert(!lex_le(keys[order[order.len() - 1]], keys[k]));
        let rest = order.drop_last();
        lemma_insert_at(rest, keys, k, p);
        assert(rest.insert(p, k).push(order.last()) =~= order.insert(p, k));
    }
}

proof fn lemma_insert_arranged(order: Seq<int>, keys: Seq<Seq<u32>>, n: int)
    requires
        0 <= n < keys.len(),
        is_arranged(keys, order, n),
    ensures
        is_arranged(keys, insert_by_key(order, keys, n), n + 1),
    decreases order.len(),
{
    let p = choose_slot(order, keys, n);
    lemma_insert_at(order, keys, n, p);
    let out = order.insert(p, n);
    assert forall|k: int| 0 <= k < n + 1 implies #[trigger] out.contains(k) by {
        if k == n {
            assert(out[p] == n);
        } else {
            assert(order.contains(k));
            let i = choose|i: int| 0 <= i < order.len() && order[i] == k;
            if i < p {
                assert(out[i] == k);
            } else {
                assert(out[i + 1] == k);
            }
        }
    }
    assert forall|i: int, j: int| 0 <= i < j < n + 1 implies comes_before(
        keys,
        #[trigger] out[i],
        #[trigger] out[j],
    ) by {
        if j == p {
            // out[i] = order[i] with i < p: its key is at most that of order[p-1]
            if i < p - 1 {
                assert(comes_before(keys, order[i], order[p - 1]));
                lemma_lex_transitive(keys[order[i]], keys[order[p - 1]], keys[n]);
            }
            assert(lex_le(keys[order[i]], keys[n]));
        } else if i == p {
            assert(out[j] == order[j - 1]);
            assert(!lex_le(keys[order[j - 1]], keys[n]));
            lemma_lex_total(keys[order[j - 1]], keys[n]);
            if keys[n] == keys[order[j - 1]] {
                lemma_lex_reflexive(keys[n]);
            }
        } else {
            let a = if i < p { i } else { i - 1 };
            let b = if j < p { j } else { j - 1 };
            assert(out[i] == order[a] && out[j] == order[b]);
            assert(comes_before(keys, order[a], order[b]));
        }
    }
}

proof fn choose_slot(order: Seq<int>, keys: Seq<Seq<u32>>, k: int) -> (p: int)
    ensures
        0 <= p <= order.len(),
        p > 0 ==> lex_le(keys[order[p - 1]], keys[k]),
        forall|j: int| p <= j < order.len() ==> !lex_le(keys[#[trigger] order[j]], keys[k]),
    decreases order.len(),
{
    if order.len() == 0 || lex_le(keys[order.last()], keys[k]) {
        order.len() as int
    } else {
        let p = choose_slot(order.drop_last(), keys, k);
        assert forall|j: int| p <= j < order.len() implies !lex_le(
            keys[#[trigger] order[j]],
            keys[k],
        ) by {
            if j < order.len() - 1 {
                assert(order[j] == order.drop_last()[j]);
            }
        }
        if p > 0 {
            assert(order[p - 1] == order.drop_last()[p - 1]);
        }
        p
    }
}

/// Putting a position in by key puts it in at some place and moves nothing
/// else.
pub proof fn lemma_insert_by_key_inserts(order: Seq<int>, keys: Seq<Seq<u32>>, k: int) -> (p: int)
    ensures
        0 <= p <= order.len(),
        insert_by_key(order, keys, k) == order.insert(p, k),
{
    let p = choose_slot(order, keys, k);
    lemma_insert_at(order, keys, k, p);
    p
}

/// [`sorted_prefix`] lists each of the first `n` positions once, ordered by
/// key, equal keys in the order given.
pub proof fn lemma_sorted_prefix(keys: Seq<Seq<u32>>, n: int)
    requires
        0 <= n <= keys.len(),
    ensures
        is_arranged(keys, sorted_prefix(keys, n), n),
    decreases n,
{
    if n > 0 {
        lemma_sorted_prefix(keys, n - 1);
        lemma_insert_arranged(sorted_prefix(keys, n - 1), keys, n - 1);
    }
}

/// [`sorted_order`] lists every position once, ordered by key, equal keys in
/// the order given.
pub proof fn lemma_sorted_order(keys: Seq<Seq<u32>>)
    ensures
        is_arranged(keys, sorted_order(keys), keys.len() as int),
{
    lemma_sorted_prefix(keys, keys.len() as int);
}

/// `at` lists each of the positions `0..n` exactly once.
pub open spec fn is_rearrangement(at: Seq<int>, n: int) -> bool {
    &&& at.len() == n
    &&& forall|i: int| 0 <= i < n ==> 0 <= #[trigger] at[i] < n
    &&& forall|k: int| 0 <= k < n ==> #[trigger] at.contains(k)
    &&& forall|i: int, j: int| 0 <= i < j < n ==> #[trigger] at[i] != #[trigger] at[j]
}

/// No key occurs twice.
pub open spec fn distinct_keys(keys: Seq<Seq<u32>>) -> bool {
    forall|i: int, j: int| 0 <= i < j < keys.len() ==> #[trigger] keys[i] != #[trigger] keys[j]
}

/// `keys` listed in another order: position `i` holds the key that was at
/// `at[i]`.
pub open spec fn rearranged(keys: Seq<Seq<u32>>, at: Seq<int>) -> Seq<Seq<u32>> {
    Seq::new(at.len(), |i: int| keys[at[i]])
}

/// Each key is at most every later one, and equal to none of them.
spec fn strictly_increasing(r: Seq<Seq<u32>>) -> bool {
    forall|i: int, j: int|
        0 <= i < j < r.len() ==> lex_le(#[trigger] r[i], #[trigger] r[j]) && r[i] != r[j]
}

proof fn lemma_increasing_agree(r1: Seq<Seq<u32>>, r2: Seq<Seq<u32>>, upto: int)
    requires
        strictly_increasing(r1),
        strictly_increasing(r2),
        r1.len() == r2.len(),
        forall|i: int| 0 <= i < r1.len() ==> r2.contains(#[trigger] r1[i]),
        forall|i: int| 0 <= i < r2.len() ==> r1.contains(#[trigger] r2[i]),
        0 <= upto <= r1.len(),
    ensures
        forall|i: int| 0 <= i < upto ==> #[trigger] r1[i] == r2[i],
    decreases upto,
{
    if upto > 0 {
        lemma_increasing_agree(r1, r2, upto - 1);
        let i = upto - 1;
        let x = r1[i];
        let y = r2[i];
        if x != y {
            lemma_lex_total(x, y);
            if lex_le(x, y) {
                assert(r2.contains(x));
                let m = choose|m: int| 0 <= m < r2.len() && r2[m] == x;
                if m < i {
                    assert(r1[m] == r2[m]);
                    assert(r1[m] != r1[i]);
                } else if m > i {
                    assert(lex_le(r2[i], r2[m]));
                    lemma_lex_antisymmetric(x, y);
                }
            } else {
                assert(r1.contains(y));
                let m = choose|m: int| 0 <= m < r1.len() && r1[m] == y;
                if m < i {
                    assert(r1[m] == r2[m]);
                    assert(r2[m] != r2[i]);
                } else if m > i {
                    assert(lex_le(r1[i], r1[m]));
                    lemma_lex_antisymmetric(x, y);
                }
            }
        }
    }
}

proof fn lemma_arranged_increasing(keys: Seq<Seq<u32>>, order: Seq<int>)
    requires
        distinct_keys(keys),
        is_arranged(keys, order, keys.len() as int),
    ensures
        strictly_increasing(rearranged(keys, order)),
        forall|k: int| 0 <= k < keys.len() ==> rearranged(keys, order).contains(#[trigger] keys[k]),
{
    let r = rearranged(keys, order);
    assert forall|i: int, j: int| 0 <= i < j < r.len() implies lex_le(
        #[trigger] r[i],
        #[trigger] r[j],
    ) && r[i] != r[j] by {
        assert(comes_before(keys, order[i], order[j]));
        if order[i] < order[j] {
            assert(keys[order[i]] != keys[order[j]]);
        } else if order[j] < order[i] {
            assert(keys[order[j]] != keys[order[i]]);
        }
    }
    assert forall|k: int| 0 <= k < keys.len() implies r.contains(#[trigger] keys[k]) by {
        assert(order.contains(k));
        let i = choose|i: int| 0 <= i < order.len() && order[i] == k;
        assert(r[i] == keys[k]);
    }
}

/// Order independence. Where no key occurs twice, listing the keys in
/// another order does not change how they are arranged: the entry that
/// comes `i`-th is the same, wherever it stood in the listing.
pub proof fn lemma_sorted_order_of_rearrangement(keys: Seq<Seq<u32>>, at: Seq<int>)
    requires
        distinct_keys(keys),
        is_rearrangement(at, keys.len() as int),
    ensures
        sorted_order(rearranged(keys, at)).len() == keys.len(),
        sorted_order(keys).len() == keys.len(),
        forall|i: int|
            0 <= i < keys.len() ==> {
                &&& 0 <= #[trigger] sorted_order(rearranged(keys, at))[i] < keys.len()
                &&& at[sorted_order(rearranged(keys, at))[i]] == sorted_order(keys)[i]
            },
{
    let n = keys.len() as int;
    let moved = rearranged(keys, at);
    let oa = sorted_order(keys);
    let ob = sorted_order(moved);
    lemma_sorted_order(keys);
    lemma_sorted_order(moved);
    assert(distinct_keys(moved)) by {
        assert forall|i: int, j: int| 0 <= i < j < moved.len() implies #[trigger] moved[i]
            != #[trigger] moved[j] by {
            if at[i] < at[j] {
                assert(keys[at[i]] != keys[at[j]]);
            } else {
                assert(keys[at[j]] != keys[at[i]]);
            }
        }
    }
    lemma_arranged_increasing(keys, oa);
    lemma_arranged_increasing(moved, ob);
    let ra = rearranged(keys, oa);
    let rb = rearranged(moved, ob);
    assert forall|i: int| 0 <= i < ra.len() implies rb.contains(#[trigger] ra[i]) by {
        let p = oa[i];
        assert(at.contains(p));
        let q = choose|q: int| 0 <= q < at.len() && at[q] == p;
        assert(moved[q] == keys[p]);
        assert(rb.contains(moved[q]));
    }
    assert forall|i: int| 0 <= i < rb.len() implies ra.contains(#[trigger] rb[i]) by {
        let p = at[ob[i]];
        assert(rb[i] == keys[p]);
        assert(ra.contains(keys[p]));
    }
    lemma_increasing_agree(ra, rb, n);
    assert forall|i: int| 0 <= i < n implies at[#[trigger] ob[i]] == oa[i] by {
        assert(ra[i] == rb[i]);
        let p = at[ob[i]];
        let q = oa[i];
        assert(keys[p] == keys[q]);
        if p < q {
            assert(keys[p] != keys[q]);
        } else if q < p {
            assert(keys[q] != keys[p]);
        }
    }
}

/// The positions of `keys` arranged by key, by insertion.
pub fn sort_positions(keys: &Vec<Vec<u32>>) -> (order: Vec<usize>)
    ensures
        order@.map_values(|p: usize| p as int) == sorted_order(key_views(keys@)),
        order@.len() == keys@.len(),
        forall|i: int| 0 <= i < order@.len() ==> #[trigger] order@[i] < keys@.len(),
{
    let ghost kv = key_views(keys@);
    let mut order: Vec<usize> = Vec::new();
    let mut n: usize = 0;
    while n < keys.len()
        invariant
            n <= keys.len(),
            kv == key_views(keys@),
            order@.len() == n,
            order@.map_values(|p: usize| p as int) == sorted_prefix(kv, n as int),
            forall|i: int| 0 <= i < order@.len() ==> #[trigger] order@[i] < n,
        decreases keys.len() - n,
    {
        let ghost before = order@.map_values(|p: usize| p as int);
        let mut p: usize = order.len();
        while p > 0 && !key_le(&keys[order[p - 1]], &keys[n])
            invariant
                p <= order.len(),
                n < keys.len(),
                kv == key_views(keys@),
                before == order@.map_values(|p: usize| p as int),
                forall|i: int| 0 <= i < order@.len() ==> #[trigger] order@[i] < n,
                forall|j: int| p <= j < before.len() ==> !lex_le(kv[#[trigger] before[j]], kv[n as int]),
            decreases p,
        {
            assert(before[p - 1] == order@[p - 1] as int);
            p -= 1;
        }
        proof {
            if p > 0 {
                assert(before[p - 1] == order@[p - 1] as int);
            }
            lemma_insert_at(before, kv, n as int, p as int);
        }
        order.insert(p, n);
        assert(order@.map_values(|p: usize| p as int) =~= before.insert(p as int, n as int));
        n += 1;
    }
    order
}

} // verus!
