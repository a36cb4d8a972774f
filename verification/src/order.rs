//! Stable ordering of rows by an integer key, as `sort_by_key` orders them.

use vstd::prelude::*;

verus! {

/// `ord` lists the positions `0..keys.len()` once each, by non-decreasing
/// key, and positions with equal keys in their original order.
pub open spec fn is_stable_order(keys: Seq<i32>, ord: Seq<usize>) -> bool {
    &&& ord.len() == keys.len()
    &&& forall|a: int| 0 <= a < ord.len() ==> #[trigger] ord[a] < keys.len()
    &&& forall|a: int, b: int| 0 <= a < b < ord.len() ==> ord[a] != ord[b]
    &&& forall|a: int, b: int| 0 <= a < b < ord.len() ==> keys[ord[a] as int] <= keys[ord[b] as int]
    &&& forall|a: int, b: int|
        0 <= a < b < ord.len() && keys[ord[a] as int] == keys[ord[b] as int] ==> ord[a] < ord[b]
}

/// The positions of `keys` in stably sorted order.
pub fn stable_order(keys: &[i32]) -> (r: Vec<usize>)
    ensures
        is_stable_order(keys@, r@),
{
    let n = keys.len();
    let mut ord: Vec<usize> = Vec::new();
    let mut i: usize = 0;
    while i < n
        invariant
            0 <= i <= n == keys@.len(),
            ord@.len() == i,
            forall|a: int| 0 <= a < ord@.len() ==> #[trigger] ord@[a] < i,
            forall|a: int, b: int| 0 <= a < b < ord@.len() ==> ord@[a] != ord@[b],
            forall|a: int, b: int| 0 <= a < b < ord@.len() ==> keys@[ord@[a] as int] <= keys@[ord@[b] as int],
            forall|a: int, b: int|
                0 <= a < b < ord@.len() && keys@[ord@[a] as int] == keys@[ord@[b] as int] ==> ord@[a] < ord@[b],
        decreases n - i,
    {
        let k = keys[i];
        let mut p: usize = ord.len();
        while p > 0 && keys[ord[p - 1]] > k
            invariant
                0 <= p <= ord@.len(),
                forall|a: int| 0 <= a < ord@.len() ==> #[trigger] ord@[a] < i,
                i < n == keys@.len(),
                k == keys@[i as int],
                forall|a: int| p <= a < ord@.len() ==> keys@[#[trigger] ord@[a] as int] > k,
            decreases p,
        {
            p = p - 1;
        }
        let ghost old_ord = ord@;
        assert(forall|a: int| 0 <= a < p ==> keys@[old_ord[a] as int] <= k) by {
            assert forall|a: int| 0 <= a < p implies keys@[old_ord[a] as int] <= k by {
                if p > 0 && a < p - 1 {
                    assert(keys@[old_ord[a] as int] <= keys@[old_ord[p - 1] as int]);
                }
            }
        }
        ord.insert(p, i);
        assert(ord@ == old_ord.insert(p as int, i));
        assert forall|a: int| 0 <= a < ord@.len() implies #[trigger] ord@[a] < i + 1 by {
            if a < p {
                assert(ord@[a] == old_ord[a]);
            } else if a > p {
                assert(ord@[a] == old_ord[a - 1]);
            }
        }
        assert forall|a: int, b: int| 0 <= a < b < ord@.len() implies ord@[a] != ord@[b]
            && keys@[ord@[a] as int] <= keys@[ord@[b] as int]
            && (keys@[ord@[a] as int] == keys@[ord@[b] as int] ==> ord@[a] < ord@[b]) by {
            if b < p {
                assert(ord@[a] == old_ord[a] && ord@[b] == old_ord[b]);
            } else if b == p {
                assert(ord@[a] == old_ord[a]);
                assert(old_ord[a] < i);
            } else if a == p {
                assert(ord@[b] == old_ord[b - 1]);
                assert(old_ord[b - 1] < i);
                assert(keys@[old_ord[b - 1] as int] > k);
            } else if a < p {
                assert(ord@[a] == old_ord[a] && ord@[b] == old_ord[b - 1]);
            } else {
                assert(ord@[a] == old_ord[a - 1] && ord@[b] == old_ord[b - 1]);
            }
        }
        i = i + 1;
    }
    ord
}

/// Every position of the keys appears in a stable order of them.
proof fn lemma_stable_order_covers(keys: Seq<i32>, ord: Seq<usize>, p: int)
    requires
        is_stable_order(keys, ord),
        0 <= p < keys.len(),
    ensures
        exists|i: int| 0 <= i < ord.len() && ord[i] as int == p,
{
    let n = keys.len() as int;
    let s = ord.map_values(|x: usize| x as int);
    assert(s.no_duplicates()) by {
        assert forall|i: int, j: int| 0 <= i < s.len() && 0 <= j < s.len() && i != j implies s[i] != s[j] by {
            if i < j {
                assert(ord[i] != ord[j]);
            } else {
                assert(ord[j] != ord[i]);
            }
        }
    }
    s.unique_seq_to_set();
    vstd::set_lib::lemma_int_range(0, n);
    let range = vstd::set_lib::set_int_range(0, n);
    assert(s.to_set().subset_of(range)) by {
        assert forall|x: int| s.to_set().contains(x) implies range.contains(x) by {
            let i = choose|i: int| 0 <= i < s.len() && s[i] == x;
            assert(ord[i] < keys.len());
        }
    }
    vstd::seq_lib::seq_to_set_is_finite(s);
    vstd::set_lib::lemma_subset_equality(s.to_set(), range);
    assert(range.contains(p));
    assert(s.to_set().contains(p));
    let i = choose|i: int| 0 <= i < s.len() && s[i] == p;
    assert(ord[i] as int == p);
}

/// Position `p` comes before position `q` in the stable order of `keys`.
pub open spec fn before_in_order(keys: Seq<i32>, p: int, q: int) -> bool {
    keys[p] < keys[q] || (keys[p] == keys[q] && p < q)
}

proof fn lemma_stable_order_increasing(keys: Seq<i32>, ord: Seq<usize>, i: int, j: int)
    requires
        is_stable_order(keys, ord),
        0 <= i < j < ord.len(),
    ensures
        before_in_order(keys, ord[i] as int, ord[j] as int),
{
}

proof fn lemma_stable_orders_agree_upto(keys: Seq<i32>, a: Seq<usize>, b: Seq<usize>, i: int)
    requires
        is_stable_order(keys, a),
        is_stable_order(keys, b),
        0 <= i < a.len(),
    ensures
        forall|m: int| 0 <= m <= i ==> a[m] == b[m],
    decreases i,
{
    if i > 0 {
        lemma_stable_orders_agree_upto(keys, a, b, i - 1);
    }
    if a[i] != b[i] {
        let x = a[i] as int;
        let y = b[i] as int;
        lemma_stable_order_covers(keys, b, x);
        lemma_stable_order_covers(keys, a, y);
        let j = choose|j: int| 0 <= j < b.len() && b[j] as int == x;
        let k = choose|k: int| 0 <= k < a.len() && a[k] as int == y;
        if j < i {
            assert(a[j] == b[j]);
            assert(a[j] != a[i]);
        }
        if k < i {
            assert(a[k] == b[k]);
            assert(b[k] != b[i]);
        }
        assert(j != i && k != i);
        lemma_stable_order_increasing(keys, a, i, k);
        lemma_stable_order_increasing(keys, b, i, j);
        assert(false);
    }
}

/// A list of keys has only one stable order: the positions sorted by key,
/// positions with equal keys kept in their original order.
pub proof fn lemma_stable_order_unique(keys: Seq<i32>, a: Seq<usize>, b: Seq<usize>)
    requires
        is_stable_order(keys, a),
        is_stable_order(keys, b),
    ensures
        a == b,
{
    if a.len() > 0 {
        lemma_stable_orders_agree_upto(keys, a, b, a.len() - 1);
    }
    assert(a =~= b);
}

} // verus!
