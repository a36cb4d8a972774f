//! Sorted, duplicate-free lists of strings, ordered as `String`'s `Ord`
//! orders them (lexicographically by character).

use vstd::prelude::*;
use crate::text::str_chars;

verus! {

/// `a` sorts strictly before `b`: the first differing character is smaller,
/// or `a` is a proper prefix of `b`.
pub open spec fn text_lt(a: Seq<char>, b: Seq<char>) -> bool
    decreases a.len(),
{
    if a.len() == 0 {
        b.len() > 0
    } else if b.len() == 0 {
        false
    } else if a[0] != b[0] {
        (a[0] as int) < (b[0] as int)
    } else {
        text_lt(a.drop_first(), b.drop_first())
    }
}

/// Every element sorts strictly before every later one.
pub open spec fn strictly_sorted(s: Seq<Seq<char>>) -> bool {
    forall|i: int, j: int| 0 <= i < j < s.len() ==> text_lt(s[i], s[j])
}

/// The characters of each string.
pub open spec fn texts(v: Seq<String>) -> Seq<Seq<char>> {
    v.map_values(|s: String| s@)
}

/// No text sorts before itself.
pub proof fn lemma_text_lt_irreflexive(a: Seq<char>)
    ensures
        !text_lt(a, a),
    decreases a.len(),
{
    if a.len() > 0 {
        lemma_text_lt_irreflexive(a.drop_first());
    }
}

/// Sorting before is transitive.
pub proof fn lemma_text_lt_transitive(a: Seq<char>, b: Seq<char>, c: Seq<char>)
    requires
        text_lt(a, b),
        text_lt(b, c),
    ensures
        text_lt(a, c),
    decreases a.len(),
{
    if a.len() > 0 && b.len() > 0 && c.len() > 0 {
        if a[0] == b[0] && b[0] == c[0] {
            lemma_text_lt_transitive(a.drop_first(), b.drop_first(), c.drop_first());
        }
    }
}

/// Of two different texts, one sorts before the other.
pub proof fn lemma_text_lt_total(a: Seq<char>, b: Seq<char>)
    requires
        a != b,
    ensures
        text_lt(a, b) || text_lt(b, a),
    decreases a.len(),
{
    if a.len() > 0 && b.len() > 0 && a[0] == b[0] {
        if a.drop_first() == b.drop_first() {
            assert(a =~= seq![a[0]] + a.drop_first());
            assert(b =~= seq![b[0]] + b.drop_first());
        }
        lemma_text_lt_total(a.drop_first(), b.drop_first());
    } else if a.len() > 0 && b.len() > 0 {
        assert((a[0] as int) != (b[0] as int));
    } else if a.len() == 0 && b.len() == 0 {
        assert(a =~= b);
    }
}

proof fn lemma_sorted_agree_upto(a: Seq<Seq<char>>, b: Seq<Seq<char>>, i: int)
    requires
        strictly_sorted(a),
        strictly_sorted(b),
        forall|x: Seq<char>| a.contains(x) <==> b.contains(x),
        0 <= i < a.len(),
        0 <= i < b.len(),
    ensures
        forall|m: int| 0 <= m <= i ==> a[m] == b[m],
    decreases i,
{
    if i > 0 {
        lemma_sorted_agree_upto(a, b, i - 1);
    }
    if a[i] != b[i] {
        let x = a[i];
        let y = b[i];
        assert(a.contains(x));
        assert(b.contains(y));
        let j = choose|j: int| 0 <= j < b.len() && b[j] == x;
        let k = choose|k: int| 0 <= k < a.len() && a[k] == y;
        lemma_text_lt_irreflexive(x);
        lemma_text_lt_irreflexive(y);
        if j < i {
            assert(a[j] == b[j]);
            assert(text_lt(a[j], a[i]));
        }
        if k < i {
            assert(a[k] == b[k]);
            assert(text_lt(b[k], b[i]));
        }
        assert(j != i && k != i);
        assert(text_lt(a[i], a[k]));
        assert(text_lt(b[i], b[j]));
        lemma_text_lt_transitive(x, y, x);
    }
}

/// A strictly sorted list of texts is fixed by its elements: two of them
/// holding the same texts are equal.
pub proof fn lemma_strictly_sorted_unique(a: Seq<Seq<char>>, b: Seq<Seq<char>>)
    requires
        strictly_sorted(a),
        strictly_sorted(b),
        forall|x: Seq<char>| a.contains(x) <==> b.contains(x),
    ensures
        a == b,
{
    let n = if a.len() < b.len() { a.len() as int } else { b.len() as int };
    if n > 0 {
        lemma_sorted_agree_upto(a, b, n - 1);
    }
    if a.len() < b.len() {
        let x = b[n];
        assert(b.contains(x));
        let k = choose|k: int| 0 <= k < a.len() && a[k] == x;
        assert(a[k] == b[k]);
        assert(text_lt(b[k], b[n]));
        lemma_text_lt_irreflexive(x);
    } else if b.len() < a.len() {
        let x = a[n];
        assert(a.contains(x));
        let k = choose|k: int| 0 <= k < b.len() && b[k] == x;
        assert(a[k] == b[k]);
        assert(text_lt(a[k], a[n]));
        lemma_text_lt_irreflexive(x);
    }
    assert(a =~= b);
}

/// An element is in `s.push(a)` exactly when it is in `s` or is `a`.
pub proof fn lemma_contains_push<A>(s: Seq<A>, a: A, x: A)
    ensures
        s.push(a).contains(x) <==> (s.contains(x) || x == a),
{
    if s.contains(x) {
        let j = choose|j: int| 0 <= j < s.len() && s[j] == x;
        assert(s.push(a)[j] == x);
    }
    if x == a {
        assert(s.push(a)[s.len() as int] == x);
    }
    if s.push(a).contains(x) && x != a {
        let j = choose|j: int| 0 <= j < s.push(a).len() && s.push(a)[j] == x;
        assert(s[j] == x);
    }
}

/// Executable `text_lt`, with equality: `-1`, `0` or `1`.
pub fn compare_text(a: &Vec<char>, b: &Vec<char>) -> (r: i8)
    ensures
        r == -1 <==> text_lt(a@, b@),
        r == 0 <==> a@ == b@,
        r == 1 <==> text_lt(b@, a@),
        r == -1 || r == 0 || r == 1,
{
    let mut i: usize = 0;
    assert(a@.subrange(0, a@.len() as int) == a@);
    assert(b@.subrange(0, b@.len() as int) == b@);
    while i < a.len() && i < b.len()
        invariant
            0 <= i <= a@.len(),
            i <= b@.len(),
            a@.subrange(0, i as int) == b@.subrange(0, i as int),
            text_lt(a@, b@) == text_lt(a@.subrange(i as int, a@.len() as int), b@.subrange(i as int, b@.len() as int)),
            text_lt(b@, a@) == text_lt(b@.subrange(i as int, b@.len() as int), a@.subrange(i as int, a@.len() as int)),
        decreases a@.len() - i,
    {
        let x = a[i];
        let y = b[i];
        let ghost ra = a@.subrange(i as int, a@.len() as int);
        let ghost rb = b@.subrange(i as int, b@.len() as int);
        assert(ra[0] == x && rb[0] == y);
        if x != y {
            proof {
                lemma_text_lt_total(a@, b@);
                if a@ == b@ {
                    assert(a@[i as int] == b@[i as int]);
                }
            }
            if x < y {
                return -1;
            } else {
                return 1;
            }
        }
        assert(ra.drop_first() == a@.subrange(i + 1, a@.len() as int));
        assert(rb.drop_first() == b@.subrange(i + 1, b@.len() as int));
        assert(a@.subrange(0, i + 1) == a@.subrange(0, i as int).push(x));
        assert(b@.subrange(0, i + 1) == b@.subrange(0, i as int).push(y));
        i = i + 1;
    }
    if a.len() == b.len() {
        assert(a@ == a@.subrange(0, i as int));
        assert(b@ == b@.subrange(0, i as int));
        proof {
            lemma_text_lt_irreflexive(a@);
        }
        0
    } else if a.len() < b.len() {
        proof {
            if a@ == b@ {
                assert(a@.len() == b@.len());
            }
        }
        -1
    } else {
        proof {
            if a@ == b@ {
                assert(a@.len() == b@.len());
            }
        }
        1
    }
}

/// `items` sorted and with duplicates removed: the strictly sorted list
/// of the distinct strings of `items`.
pub fn sort_dedup(items: Vec<String>) -> (r: Vec<String>)
    ensures
        strictly_sorted(texts(r@)),
        forall|x: Seq<char>| texts(r@).contains(x) <==> texts(items@).contains(x),
        r@.len() <= items@.len(),
{
    let mut out: Vec<String> = Vec::new();
    let mut keys: Vec<Vec<char>> = Vec::new();
    let mut i: usize = 0;
    while i < items.len()
        invariant
            0 <= i <= items@.len(),
            keys@.len() == out@.len(),
            forall|k: int| 0 <= k < out@.len() ==> #[trigger] keys@[k]@ == out@[k]@,
            strictly_sorted(texts(out@)),
            forall|x: Seq<char>| texts(out@).contains(x) <==> texts(items@.take(i as int)).contains(x),
            out@.len() <= i,
        decreases items@.len() - i,
    {
        let cand = str_chars(items[i].as_str());
        let mut k: usize = 0;
        while k < keys.len() && compare_text(&keys[k], &cand) == -1
            invariant
                0 <= k <= keys@.len(),
                keys@.len() == out@.len(),
                forall|m: int| 0 <= m < out@.len() ==> #[trigger] keys@[m]@ == out@[m]@,
                forall|m: int| 0 <= m < k ==> text_lt(#[trigger] keys@[m]@, cand@),
            decreases keys@.len() - k,
        {
            k = k + 1;
        }
        let ghost old_texts = texts(out@);
        assert(texts(items@.take(i + 1)) =~= texts(items@.take(i as int)).push(items@[i as int]@));
        if k < keys.len() && compare_text(&keys[k], &cand) == 0 {
            assert(old_texts[k as int] == cand@);
            assert forall|x: Seq<char>| texts(out@).contains(x) <==> texts(items@.take(i + 1)).contains(x) by {
                lemma_contains_push(texts(items@.take(i as int)), cand@, x);
                if x == cand@ {
                    assert(texts(out@)[k as int] == x);
                }
            }
        } else {
            proof {
                if k < keys@.len() {
                    lemma_text_lt_total(keys@[k as int]@, cand@);
                }
            }
            let ghost old_keys = keys@;
            assert(forall|m: int| 0 <= m < k ==> text_lt(old_texts[m], cand@)) by {
                assert forall|m: int| 0 <= m < k implies text_lt(old_texts[m], cand@) by {
                    assert(old_keys[m]@ == out@[m]@);
                }
            }
            assert(k < old_texts.len() ==> text_lt(cand@, old_texts[k as int])) by {
                if k < old_texts.len() {
                    assert(old_keys[k as int]@ == out@[k as int]@);
                }
            }
            let s = items[i].clone();
            out.insert(k, s);
            keys.insert(k, cand);
            let ghost new_texts = texts(out@);
            assert(new_texts == old_texts.insert(k as int, cand@));
            assert(strictly_sorted(new_texts)) by {
                assert forall|a: int, b: int| 0 <= a < b < new_texts.len() implies text_lt(new_texts[a], new_texts[b]) by {
                    if b < k {
                        assert(new_texts[a] == old_texts[a] && new_texts[b] == old_texts[b]);
                    } else if b == k {
                        assert(new_texts[a] == old_texts[a]);
                    } else if a == k {
                        assert(new_texts[b] == old_texts[b - 1]);
                        if b - 1 > k {
                            lemma_text_lt_transitive(cand@, old_texts[k as int], old_texts[b - 1]);
                        }
                    } else if a < k {
                        assert(new_texts[a] == old_texts[a] && new_texts[b] == old_texts[b - 1]);
                    } else {
                        assert(new_texts[a] == old_texts[a - 1] && new_texts[b] == old_texts[b - 1]);
                    }
                }
            }
            assert forall|x: Seq<char>| texts(out@).contains(x) <==> texts(items@.take(i + 1)).contains(x) by {
                lemma_contains_push(texts(items@.take(i as int)), cand@, x);
                if x == cand@ {
                    assert(new_texts[k as int] == x);
                }
                if new_texts.contains(x) && x != cand@ {
                    let j = choose|j: int| 0 <= j < new_texts.len() && #[trigger] new_texts[j] == x;
                    if j < k {
                        assert(old_texts[j] == x);
                    } else {
                        assert(old_texts[j - 1] == x);
                    }
                }
                if old_texts.contains(x) {
                    let j = choose|j: int| 0 <= j < old_texts.len() && #[trigger] old_texts[j] == x;
                    if j < k {
                        assert(new_texts[j] == x);
                    } else {
                        assert(new_texts[j + 1] == x);
                    }
                }
            }
        }
        i = i + 1;
    }
    assert(items@.take(items@.len() as int) == items@);
    out
}

} // verus!
