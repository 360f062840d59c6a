//! Lexicographic order on texts and on sequences of texts, and a stable sort by such
//! keys.
use vstd::prelude::*;
use crate::paths::views;

verus! {

/// `a` comes before `b` in lexicographic order of characters (code point by code point,
/// which is also the byte order of their UTF-8 encodings).
pub open spec fn chars_lt(a: Seq<char>, b: Seq<char>) -> bool
    decreases a.len(),
{
    if a.len() == 0 {
        b.len() > 0
    } else if b.len() == 0 {
        false
    } else if a[0] < b[0] {
        true
    } else if a[0] == b[0] {
        chars_lt(a.drop_first(), b.drop_first())
    } else {
        false
    }
}

/// `a` comes before `b` in lexicographic order of their elements, each compared with
/// `chars_lt`.
pub open spec fn keys_lt(a: Seq<Seq<char>>, b: Seq<Seq<char>>) -> bool
    decreases a.len(),
{
    if a.len() == 0 {
        b.len() > 0
    } else if b.len() == 0 {
        false
    } else if chars_lt(a[0], b[0]) {
        true
    } else if a[0] == b[0] {
        keys_lt(a.drop_first(), b.drop_first())
    } else {
        false
    }
}

/// `chars_lt` is a strict total order.
pub proof fn lemma_chars_lt_order(a: Seq<char>, b: Seq<char>, c: Seq<char>)
    ensures
        !chars_lt(a, a),
        chars_lt(a, b) ==> !chars_lt(b, a),
        chars_lt(a, b) && chars_lt(b, c) ==> chars_lt(a, c),
        a != b ==> chars_lt(a, b) || chars_lt(b, a),
    decreases a.len(),
{
    if a.len() > 0 {
        lemma_chars_lt_order(a.drop_first(), a.drop_first(), a.drop_first());
    }
    if a.len() > 0 && b.len() > 0 && c.len() > 0 {
        lemma_chars_lt_order(a.drop_first(), b.drop_first(), c.drop_first());
    }
    if a.len() > 0 && b.len() > 0 {
        lemma_chars_lt_order(a.drop_first(), b.drop_first(), b.drop_first());

        if a != b && a[0] == b[0] {
            assert(a.drop_first() != b.drop_first()) by {
                if a.drop_first() == b.drop_first() {
                    assert(a =~= seq![a[0]] + a.drop_first());
                    assert(b =~= seq![b[0]] + b.drop_first());
                }
            }
        }
    }
    if a.len() == 0 && b.len() == 0 {
        assert(a =~= b);
    }
}

/// `keys_lt` is a strict total order.
pub proof fn lemma_keys_lt_order(a: Seq<Seq<char>>, b: Seq<Seq<char>>, c: Seq<Seq<char>>)
    ensures
        !keys_lt(a, a),
        keys_lt(a, b) ==> !keys_lt(b, a),
        keys_lt(a, b) && keys_lt(b, c) ==> keys_lt(a, c),
        a != b ==> keys_lt(a, b) || keys_lt(b, a),
    decreases a.len(),
{
    if a.len() > 0 {
        lemma_chars_lt_order(a[0], a[0], a[0]);
        lemma_keys_lt_order(a.drop_first(), a.drop_first(), a.drop_first());
    }
    if a.len() > 0 && b.len() > 0 && c.len() > 0 {
        lemma_chars_lt_order(a[0], b[0], c[0]);
        lemma_chars_lt_order(b[0], a[0], c[0]);
        lemma_chars_lt_order(a[0], c[0], b[0]);
        lemma_keys_lt_order(a.drop_first(), b.drop_first(), c.drop_first());
    }
    if a.len() > 0 && b.len() > 0 {
        lemma_chars_lt_order(a[0], b[0], b[0]);
        lemma_keys_lt_order(a.drop_first(), b.drop_first(), b.drop_first());
        if a != b && a[0] == b[0] {
            assert(a.drop_first() != b.drop_first()) by {
                if a.drop_first() == b.drop_first() {
                    assert(a =~= seq![a[0]] + a.drop_first());
                    assert(b =~= seq![b[0]] + b.drop_first());
                }
            }
        }
    }
    if a.len() == 0 && b.len() == 0 {
        assert(a =~= b);
    }
}

proof fn lemma_chars_lt_skip(a: Seq<char>, b: Seq<char>, i: int)
    requires
        0 <= i <= a.len(),
        i <= b.len(),
        forall|j: int| 0 <= j < i ==> a[j] == b[j],
    ensures
        chars_lt(a, b) == chars_lt(a.skip(i), b.skip(i)),
    decreases i,
{
    if i > 0 {
        lemma_chars_lt_skip(a.drop_first(), b.drop_first(), i - 1);
        assert(a.drop_first().skip(i - 1) =~= a.skip(i));
        assert(b.drop_first().skip(i - 1) =~= b.skip(i));
    } else {
        assert(a.skip(0) =~= a);
        assert(b.skip(0) =~= b);
    }
}

proof fn lemma_keys_lt_skip(a: Seq<Seq<char>>, b: Seq<Seq<char>>, i: int)
    requires
        0 <= i <= a.len(),
        i <= b.len(),
        forall|j: int| 0 <= j < i ==> a[j] == b[j],
    ensures
        keys_lt(a, b) == keys_lt(a.skip(i), b.skip(i)),
    decreases i,
{
    if i > 0 {
        lemma_chars_lt_order(a[0], a[0], a[0]);
        lemma_keys_lt_skip(a.drop_first(), b.drop_first(), i - 1);
        assert(a.drop_first().skip(i - 1) =~= a.skip(i));
        assert(b.drop_first().skip(i - 1) =~= b.skip(i));
    } else {
        assert(a.skip(0) =~= a);
        assert(b.skip(0) =~= b);
    }
}

/// Whether `a` comes before `b` (`Ord` for `str`).
pub fn chars_less(a: &Vec<char>, b: &Vec<char>) -> (r: bool)
    ensures
        r == chars_lt(a@, b@),
{
    let mut i: usize = 0;
    while i < a.len() && i < b.len() && a[i] == b[i]
        invariant
            i <= a.len(),
            i <= b.len(),
            forall|j: int| 0 <= j < i ==> a@[j] == b@[j],
        decreases a.len() - i,
    {
        i = i + 1;
    }
    proof {
        lemma_chars_lt_skip(a@, b@, i as int);
    }
    if i == a.len() {
        i < b.len()
    } else if i == b.len() {
        false
    } else {
        assert(a@.skip(i as int)[0] == a@[i as int]);
        assert(b@.skip(i as int)[0] == b@[i as int]);
        a[i] < b[i]
    }
}

/// Whether key `a` comes before key `b`.
pub fn keys_less(a: &Vec<Vec<char>>, b: &Vec<Vec<char>>) -> (r: bool)
    ensures
        r == keys_lt(views(a@), views(b@)),
{
    let ghost va = views(a@);
    let ghost vb = views(b@);
    let mut i: usize = 0;
    while i < a.len() && i < b.len() && crate::text::chars_eq(&a[i], &b[i])
        invariant
            va == views(a@),
            vb == views(b@),
            i <= a.len(),
            i <= b.len(),
            forall|j: int| 0 <= j < i ==> va[j] == vb[j],
        decreases a.len() - i,
    {
        i = i + 1;
    }
    proof {
        lemma_keys_lt_skip(va, vb, i as int);
    }
    if i == a.len() {
        i < b.len()
    } else if i == b.len() {
        false
    } else {
        assert(va.skip(i as int)[0] == a@[i as int]@);
        assert(vb.skip(i as int)[0] == b@[i as int]@);
        chars_less(&a[i], &b[i])
    }
}

/// Whether `p` lists each of `0..n` exactly once.
pub open spec fn is_permutation(p: Seq<int>, n: int) -> bool {
    &&& p.len() == n
    &&& forall|i: int| 0 <= i < n ==> 0 <= #[trigger] p[i] < n
    &&& forall|i: int, j: int| 0 <= i < j < n ==> #[trigger] p[i] != #[trigger] p[j]
}

/// Whether `p` orders items with keys `k` by key, keeping the given order among items
/// with equal keys (what a stable sort does).
pub open spec fn sorts_stably(p: Seq<int>, k: Seq<Seq<Seq<char>>>) -> bool {
    &&& is_permutation(p, k.len() as int)
    &&& forall|i: int, j: int|
        0 <= i < j < p.len() ==> !keys_lt(k[#[trigger] p[j]], k[#[trigger] p[i]])
    &&& forall|i: int, j: int|
        0 <= i < j < p.len() && k[#[trigger] p[i]] == k[#[trigger] p[j]] ==> p[i] < p[j]
}

/// Sorts `items` by `keys` (the key of `items[i]` is `keys[i]`), stably, as
/// `slice::sort_by` does. Returns the sorted items and the position each had before.
pub fn sort_by_keys<T>(items: Vec<T>, keys: Vec<Vec<Vec<char>>>) -> (r: (
    Vec<T>,
    Ghost<Seq<int>>,
))
    requires
        items.len() == keys.len(),
    ensures
        sorts_stably(r.1@, keys@.map_values(|k: Vec<Vec<char>>| views(k@))),
        r.0@.len() == items@.len(),
        forall|i: int| 0 <= i < r.0@.len() ==> r.0@[i] == items@[#[trigger] r.1@[i]],
{
    let ghost kk = keys@.map_values(|k: Vec<Vec<char>>| views(k@));
    let ghost orig = items@;
    let n = items.len();
    let mut items = items;
    let mut keys = keys;
    let mut out: Vec<T> = Vec::new();
    let mut out_keys: Vec<Vec<Vec<char>>> = Vec::new();
    let ghost mut p: Seq<int> = Seq::empty();
    let mut i: usize = 0;
    while i < n
        invariant
            n == orig.len(),
            n == kk.len(),
            i <= n,
            items@ == orig.skip(i as int),
            keys@.len() == n - i,
            forall|a: int| 0 <= a < n - i ==> views(#[trigger] keys@[a]@) == kk[a + i],
            out@.len() == i,
            out_keys@.len() == i,
            p.len() == i,
            forall|a: int| 0 <= a < i ==> out@[a] == orig[#[trigger] p[a]],
            forall|a: int| 0 <= a < i ==> views(#[trigger] out_keys@[a]@) == kk[p[a]],
            forall|a: int| 0 <= a < i ==> 0 <= #[trigger] p[a] < i,
            forall|a: int, b: int| 0 <= a < b < i ==> #[trigger] p[a] != #[trigger] p[b],
            forall|a: int, b: int| 0 <= a < b < i ==> !keys_lt(kk[#[trigger] p[b]], kk[#[trigger] p[a]]),
            forall|a: int, b: int|
                0 <= a < b < i && kk[#[trigger] p[a]] == kk[#[trigger] p[b]] ==> p[a] < p[b],
        decreases n - i,
    {
        let item = items.remove(0);
        let key = keys.remove(0);
        assert(views(key@) == kk[i as int]);
        assert(item == orig[i as int]);
        let mut pos: usize = 0;
        while pos < out_keys.len() && !keys_less(&key, &out_keys[pos])
            invariant
                pos <= out_keys@.len(),
                out_keys@.len() == i,
                views(key@) == kk[i as int],
                forall|a: int| 0 <= a < i ==> views(#[trigger] out_keys@[a]@) == kk[p[a]],
                forall|a: int| 0 <= a < pos ==> !keys_lt(kk[i as int], kk[#[trigger] p[a]]),
            decreases out_keys@.len() - pos,
        {
            pos = pos + 1;
        }
        proof {
            let k = kk[i as int];
            if pos < i {
                assert(keys_lt(k, kk[p[pos as int]]));
                assert forall|a: int| pos <= a < i implies keys_lt(k, #[trigger] kk[p[a]]) by {
                    if a > pos {
                        lemma_keys_lt_order(k, kk[p[pos as int]], kk[p[a]]);
                        lemma_keys_lt_order(kk[p[a]], kk[p[pos as int]], kk[p[pos as int]]);
                        assert(!keys_lt(kk[p[a]], kk[p[pos as int]]));
                    }
                }
            }
        }
        let ghost old_p = p;
        let ghost old_out = out@;
        let ghost old_keys = out_keys@;
        out.insert(pos, item);
        out_keys.insert(pos, key);
        proof {
            p = old_p.insert(pos as int, i as int);
            let k = kk[i as int];
            assert forall|a: int| 0 <= a < i + 1 implies out@[a] == orig[#[trigger] p[a]] by {
                if a < pos {
                } else if a == pos {
                } else {
                    assert(out@[a] == old_out[a - 1]);
                }
            }
            assert forall|a: int| 0 <= a < i + 1 implies views(#[trigger] out_keys@[a]@) == kk[p[a]] by {
                if a < pos {
                } else if a == pos {
                } else {
                    assert(out_keys@[a] == old_keys[a - 1]);
                }
            }
            assert forall|a: int, b: int| 0 <= a < b < i + 1 implies #[trigger] p[a] != #[trigger] p[b] by {
                if a < pos && b < pos {
                } else if a < pos && b == pos {
                } else if a < pos {
                    assert(p[b] == old_p[b - 1]);
                } else if a == pos {
                    assert(p[b] == old_p[b - 1]);
                } else {
                    assert(p[a] == old_p[a - 1]);
                    assert(p[b] == old_p[b - 1]);
                }
            }
            assert forall|a: int, b: int| 0 <= a < b < i + 1 implies !keys_lt(
                kk[#[trigger] p[b]],
                kk[#[trigger] p[a]],
            ) by {
                if a < pos && b < pos {
                } else if a < pos && b == pos {
                } else if a < pos {
                    assert(p[b] == old_p[b - 1]);
                } else if a == pos {
                    assert(p[b] == old_p[b - 1]);
                    lemma_keys_lt_order(k, kk[p[b]], k);
                } else {
                    assert(p[a] == old_p[a - 1]);
                    assert(p[b] == old_p[b - 1]);
                }
            }
            assert forall|a: int, b: int|
                0 <= a < b < i + 1 && kk[#[trigger] p[a]] == kk[#[trigger] p[b]] implies p[a] < p[b] by {
                if a < pos && b < pos {
                } else if a < pos && b == pos {
                } else if a < pos {
                    assert(p[b] == old_p[b - 1]);
                } else if a == pos {
                    assert(p[b] == old_p[b - 1]);
                    lemma_keys_lt_order(k, k, k);
                } else {
                    assert(p[a] == old_p[a - 1]);
                    assert(p[b] == old_p[b - 1]);
                }
            }
        }
        assert(items@ =~= orig.skip(i + 1));
        assert forall|a: int| 0 <= a < n - (i + 1) implies views(#[trigger] keys@[a]@) == kk[a + i
            + 1] by {}
        i = i + 1;
    }
    (out, Ghost(p))
}

/// A permutation of `0..n` takes every value of `0..n`.
pub proof fn lemma_permutation_onto(p: Seq<int>, n: int, v: int)
    requires
        is_permutation(p, n),
        0 <= v < n,
    ensures
        exists|i: int| 0 <= i < n && p[i] == v,
{
    broadcast use vstd::seq_lib::seq_to_set_is_finite;

    assert(p.no_duplicates()) by {
        assert forall|i: int, j: int|
            (0 <= i < p.len() && 0 <= j < p.len() && i != j) implies p[i] != p[j] by {
            if i < j {
                assert(p[i] != p[j]);
            } else {
                assert(p[j] != p[i]);
            }
        }
    }
    p.unique_seq_to_set();
    vstd::set_lib::lemma_int_range(0, n);
    let range = vstd::set_lib::set_int_range(0, n);
    assert(p.to_set().subset_of(range)) by {
        assert forall|x: int| p.to_set().contains(x) implies range.contains(x) by {
            let i = choose|i: int| 0 <= i < p.len() && p[i] == x;
            assert(0 <= p[i] < n);
        }
    }
    vstd::set_lib::lemma_subset_equality(p.to_set(), range);
    assert(range.contains(v));
    assert(p.to_set().contains(v));
}

proof fn lemma_sorts_agree_upto(p: Seq<int>, q: Seq<int>, k: Seq<Seq<Seq<char>>>, j: int)
    requires
        sorts_stably(p, k),
        sorts_stably(q, k),
        0 <= j < p.len(),
    ensures
        forall|i: int| 0 <= i <= j ==> p[i] == q[i],
    decreases j,
{
    if j > 0 {
        lemma_sorts_agree_upto(p, q, k, j - 1);
    }
    let n = k.len() as int;
    let a = p[j];
    let b = q[j];
    if a != b {
        lemma_permutation_onto(q, n, a);
        lemma_permutation_onto(p, n, b);
        let j2 = choose|i: int| 0 <= i < n && q[i] == a;
        let j1 = choose|i: int| 0 <= i < n && p[i] == b;
        if j2 < j {
            assert(p[j2] == q[j2]);
            assert(p[j2] != p[j]);
        }
        if j1 < j {
            assert(p[j1] == q[j1]);
            assert(q[j1] != q[j]);
        }
        assert(j < j1 && j < j2);
        assert(!keys_lt(k[p[j1]], k[p[j]]));
        assert(!keys_lt(k[q[j2]], k[q[j]]));
        lemma_keys_lt_order(k[a], k[b], k[a]);
        if k[a] == k[b] {
            assert(p[j] < p[j1]);
            assert(q[j] < q[j2]);
        }
    }
}

/// Sorting is determined: two stable sorts by the same keys put the items in the same
/// order.
pub proof fn law_stable_sort_unique(p: Seq<int>, q: Seq<int>, k: Seq<Seq<Seq<char>>>)
    requires
        sorts_stably(p, k),
        sorts_stably(q, k),
    ensures
        p == q,
{
    if p.len() > 0 {
        lemma_sorts_agree_upto(p, q, k, p.len() - 1);
    }
    assert(p =~= q);
}

} // verus!
