//! Keys made of a string and an integer, ordered as the tuple `(String, i64)`
//! is, and sequences kept strictly sorted by such keys.

use vstd::prelude::*;
use crate::text::{chars_lt, lemma_chars_lt_order};

verus! {

/// A record key: a string and an integer (0 where a record is keyed by its
/// string alone).
pub type Key = (Seq<char>, int);

/// The order of `(String, i64)` tuples: by string, then by integer.
pub open spec fn key_lt(a: Key, b: Key) -> bool {
    chars_lt(a.0, b.0) || (a.0 == b.0 && a.1 < b.1)
}

/// `key_lt` is a strict total order.
pub proof fn lemma_key_lt_order()
    ensures
        forall|a: Key| !#[trigger] key_lt(a, a),
        forall|a: Key, b: Key, c: Key| #[trigger] key_lt(a, b) && #[trigger] key_lt(b, c) ==> key_lt(a, c),
        forall|a: Key, b: Key| !#[trigger] key_lt(a, b) && !#[trigger] key_lt(b, a) ==> a == b,
{
    lemma_chars_lt_order();
}

/// Every element's key is strictly below the keys of the elements after it.
pub open spec fn sorted_by<T>(s: Seq<T>, key: spec_fn(T) -> Key) -> bool {
    forall|i: int, j: int| 0 <= i < j < s.len() ==> key_lt(key(s[i]), key(s[j]))
}

/// Two sequences hold the same elements (as sets).
pub open spec fn same_elements<T>(a: Seq<T>, b: Seq<T>) -> bool {
    forall|x: T| a.contains(x) <==> b.contains(x)
}

/// A strictly sorted sequence is determined by the set of its elements.
pub proof fn lemma_sorted_unique<T>(a: Seq<T>, b: Seq<T>, key: spec_fn(T) -> Key)
    requires
        sorted_by(a, key),
        sorted_by(b, key),
        same_elements(a, b),
    ensures
        a == b,
    decreases a.len(),
{
    lemma_key_lt_order();
    if a.len() == 0 {
        if b.len() > 0 {
            assert(b.contains(b[0]));
        }
        assert(a =~= b);
    } else {
        assert(b.len() > 0) by {
            assert(a.contains(a[0]));
        }
        assert(a[0] == b[0]) by {
            assert(a.contains(a[0]));
            assert(b.contains(b[0]));
            let k = choose|k: int| 0 <= k < a.len() && a[k] == b[0];
            let m = choose|m: int| 0 <= m < b.len() && b[m] == a[0];
            if k > 0 && m > 0 {
                assert(key_lt(key(a[0]), key(a[k])));
                assert(key_lt(key(b[0]), key(b[m])));
                assert(false);
            }
        }
        let a1 = a.drop_first();
        let b1 = b.drop_first();
        assert forall|x: T| a1.contains(x) implies b1.contains(x) by {
            let i = choose|i: int| 0 <= i < a1.len() && a1[i] == x;
            assert(a[i + 1] == x);
            assert(a.contains(x));
            assert(b.contains(x));
            let j = choose|j: int| 0 <= j < b.len() && b[j] == x;
            if j == 0 {
                assert(key_lt(key(a[0]), key(a[i + 1])));
                assert(false);
            }
            assert(b1[j - 1] == x);
        }
        assert forall|x: T| b1.contains(x) implies a1.contains(x) by {
            let i = choose|i: int| 0 <= i < b1.len() && b1[i] == x;
            assert(b[i + 1] == x);
            assert(b.contains(x));
            assert(a.contains(x));
            let j = choose|j: int| 0 <= j < a.len() && a[j] == x;
            if j == 0 {
                assert(key_lt(key(b[0]), key(b[i + 1])));
                assert(false);
            }
            assert(a1[j - 1] == x);
        }
        lemma_sorted_unique(a1, b1, key);
        assert(a =~= b) by {
            assert forall|i: int| 0 <= i < a.len() implies a[i] == b[i] by {
                if i > 0 {
                    assert(a[i] == a1[i - 1]);
                    assert(b[i] == b1[i - 1]);
                }
            }
        }
    }
}

} // verus!

verus! {

/// Three-way comparison of two keys given as a string and an integer.
pub fn compare_key(a0: &str, a1: i64, b0: &str, b1: i64) -> (r: crate::text::Rank)
    ensures
        r == crate::text::Rank::Before <==> key_lt((a0@, a1 as int), (b0@, b1 as int)),
        r == crate::text::Rank::After <==> key_lt((b0@, b1 as int), (a0@, a1 as int)),
        r == crate::text::Rank::Same <==> (a0@, a1 as int) == (b0@, b1 as int),
{
    proof {
        lemma_key_lt_order();
    }
    match crate::text::compare_str(a0, b0) {
        crate::text::Rank::Before => crate::text::Rank::Before,
        crate::text::Rank::After => crate::text::Rank::After,
        crate::text::Rank::Same => {
            if a1 < b1 {
                crate::text::Rank::Before
            } else if a1 > b1 {
                crate::text::Rank::After
            } else {
                crate::text::Rank::Same
            }
        },
    }
}


/// `v` lists the entries of the table `m`, one per key, strictly sorted by key.
pub open spec fn represents<T>(v: Seq<T>, m: Map<Key, T>, key: spec_fn(T) -> Key) -> bool {
    &&& sorted_by(v, key)
    &&& forall|i: int| 0 <= i < v.len() ==> #[trigger] m.contains_key(key(v[i])) && m[key(v[i])] == v[i]
    &&& forall|k: Key| #[trigger] m.contains_key(k) ==> exists|i: int| 0 <= i < v.len() && key(v[i]) == k
}

/// `p` is where `k` belongs in the sorted `v`: every earlier key is smaller,
/// and the key at `p`, if any, is not smaller.
pub open spec fn insertion_point<T>(v: Seq<T>, key: spec_fn(T) -> Key, k: Key, p: int) -> bool {
    &&& 0 <= p <= v.len()
    &&& forall|j: int| 0 <= j < p ==> key_lt(#[trigger] key(v[j]), k)
    &&& p < v.len() ==> !key_lt(key(v[p]), k)
}

/// At an insertion point, the table holds `k` exactly when `v[p]` has key `k`.
pub proof fn lemma_represents_lookup<T>(v: Seq<T>, m: Map<Key, T>, key: spec_fn(T) -> Key, k: Key, p: int)
    requires
        represents(v, m, key),
        insertion_point(v, key, k, p),
    ensures
        m.contains_key(k) <==> (p < v.len() && key(v[p]) == k),
        p < v.len() && key(v[p]) == k ==> m[k] == v[p],
        p < v.len() && key(v[p]) != k ==> key_lt(k, key(v[p])),
{
    lemma_key_lt_order();
    if p < v.len() {
        assert(m.contains_key(key(v[p])));
    }
    if m.contains_key(k) {
        let i = choose|i: int| 0 <= i < v.len() && key(v[i]) == k;
        if i < p {
            assert(key_lt(key(v[i]), k));
        } else if i > p {
            assert(key_lt(key(v[p]), key(v[i])));
        }
    }
}

/// Inserting a new key at its insertion point keeps the representation.
pub proof fn lemma_represents_insert<T>(v: Seq<T>, m: Map<Key, T>, key: spec_fn(T) -> Key, x: T, p: int)
    requires
        represents(v, m, key),
        insertion_point(v, key, key(x), p),
        !m.contains_key(key(x)),
    ensures
        represents(v.insert(p, x), m.insert(key(x), x), key),
{
    lemma_key_lt_order();
    lemma_represents_lookup(v, m, key, key(x), p);
    let nv = v.insert(p, x);
    let nm = m.insert(key(x), x);
    assert forall|i: int, j: int| 0 <= i < j < nv.len() implies key_lt(key(nv[i]), key(nv[j])) by {
        if j < p {
        } else if j == p {
        } else if i < p {
            assert(key_lt(key(nv[i]), key(x)));
            if j - 1 > p {
                assert(key_lt(key(v[p]), key(v[j - 1])));
            }
        } else if i == p {
            if j - 1 > p {
                assert(key_lt(key(v[p]), key(v[j - 1])));
            }
        } else {
            assert(nv[i] == v[i - 1] && nv[j] == v[j - 1]);
        }
    }
    assert forall|i: int| 0 <= i < nv.len() implies #[trigger] nm.contains_key(key(nv[i])) && nm[key(nv[i])] == nv[i] by {
        if i < p {
            assert(nv[i] == v[i]);
            assert(key_lt(key(v[i]), key(x)));
        } else if i > p {
            assert(nv[i] == v[i - 1]);
            assert(key_lt(key(x), key(v[p])));
            if i - 1 > p {
                assert(key_lt(key(v[p]), key(v[i - 1])));
            }
        }
    }
    assert forall|k: Key| #[trigger] nm.contains_key(k) implies exists|i: int| 0 <= i < nv.len() && key(nv[i]) == k by {
        if k == key(x) {
            assert(key(nv[p]) == k);
        } else {
            assert(m.contains_key(k));
            let i = choose|i: int| 0 <= i < v.len() && key(v[i]) == k;
            if i < p {
                assert(key(nv[i]) == k);
            } else {
                assert(key(nv[i + 1]) == k);
            }
        }
    }
}

/// Replacing the entry of an existing key keeps the representation.
pub proof fn lemma_represents_update<T>(v: Seq<T>, m: Map<Key, T>, key: spec_fn(T) -> Key, x: T, p: int)
    requires
        represents(v, m, key),
        0 <= p < v.len(),
        key(v[p]) == key(x),
    ensures
        represents(v.update(p, x), m.insert(key(x), x), key),
{
    lemma_key_lt_order();
    let nv = v.update(p, x);
    let nm = m.insert(key(x), x);
    assert forall|i: int, j: int| 0 <= i < j < nv.len() implies key_lt(key(nv[i]), key(nv[j])) by {
        assert(key_lt(key(v[i]), key(v[j])));
    }
    assert forall|i: int| 0 <= i < nv.len() implies #[trigger] nm.contains_key(key(nv[i])) && nm[key(nv[i])] == nv[i] by {
        if i != p {
            assert(nv[i] == v[i]);
            if i < p {
                assert(key_lt(key(v[i]), key(v[p])));
            } else {
                assert(key_lt(key(v[p]), key(v[i])));
            }
        }
    }
    assert forall|k: Key| #[trigger] nm.contains_key(k) implies exists|i: int| 0 <= i < nv.len() && key(nv[i]) == k by {
        if k == key(x) {
            assert(key(nv[p]) == k);
        } else {
            assert(m.contains_key(k));
            let i = choose|i: int| 0 <= i < v.len() && key(v[i]) == k;
            assert(key(nv[i]) == k);
        }
    }
}

/// The empty sequence represents the empty table.
pub proof fn lemma_represents_empty<T>(key: spec_fn(T) -> Key)
    ensures
        represents(Seq::<T>::empty(), Map::<Key, T>::empty(), key),
{
}

/// A table has exactly one sorted representation.
pub proof fn lemma_represents_unique<T>(a: Seq<T>, b: Seq<T>, m: Map<Key, T>, key: spec_fn(T) -> Key)
    requires
        represents(a, m, key),
        represents(b, m, key),
    ensures
        a == b,
{
    assert forall|x: T| a.contains(x) <==> b.contains(x) by {
        if a.contains(x) {
            let i = choose|i: int| 0 <= i < a.len() && a[i] == x;
            assert(m.contains_key(key(a[i])));
            let j = choose|j: int| 0 <= j < b.len() && key(b[j]) == key(a[i]);
            assert(m[key(b[j])] == b[j]);
            assert(b[j] == x);
        }
        if b.contains(x) {
            let i = choose|i: int| 0 <= i < b.len() && b[i] == x;
            assert(m.contains_key(key(b[i])));
            let j = choose|j: int| 0 <= j < a.len() && key(a[j]) == key(b[i]);
            assert(m[key(a[j])] == a[j]);
            assert(a[j] == x);
        }
    }
    lemma_sorted_unique(a, b, key);
}

} // verus!
