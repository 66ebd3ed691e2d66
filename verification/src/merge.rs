//! Merging of the records that two devices hold: usage facts by set union,
//! device and application metadata by revision, categories by
//! `(logical_revision, revision_device_id)`.

use vstd::prelude::*;
use crate::error::{format_error, SyncError, SyncErrorView};
use crate::order::{compare_key, key_lt, lemma_key_lt_order, lemma_sorted_unique, same_elements, sorted_by, Key};
use crate::records::{segment_key, segment_views, SegmentRecord, SegmentView};
use crate::text::Rank;

verus! {

pub open spec fn segment_key_fn() -> spec_fn(SegmentView) -> Key {
    |v: SegmentView| segment_key(v)
}

/// Two facts share the unique key `(origin_device_id, segment_sequence)` but
/// differ in some other field.
pub open spec fn segment_conflict(s: Seq<SegmentView>) -> bool {
    exists|i: int, j: int|
        0 <= i < s.len() && 0 <= j < s.len() && segment_key(#[trigger] s[i]) == segment_key(
            #[trigger] s[j],
        ) && s[i] != s[j]
}

/// `out` is the set of facts of `all`, sorted strictly by key.
pub open spec fn segment_union(all: Seq<SegmentView>, out: Seq<SegmentView>) -> bool {
    sorted_by(out, segment_key_fn()) && same_elements(out, all)
}

pub open spec fn segment_conflict_message() -> Seq<char> {
    "会话唯一键相同但内容不同，同步已停止"@
}

proof fn lemma_segment_conflict_push(s: Seq<SegmentView>, x: SegmentView)
    ensures
        segment_conflict(s.push(x)) <==> (segment_conflict(s) || exists|j: int|
            0 <= j < s.len() && segment_key(#[trigger] s[j]) == segment_key(x) && s[j] != x),
{
    let t = s.push(x);
    if segment_conflict(t) {
        let (i, j) = choose|i: int, j: int|
            0 <= i < t.len() && 0 <= j < t.len() && segment_key(#[trigger] t[i]) == segment_key(
                #[trigger] t[j],
            ) && t[i] != t[j];
        if i < s.len() && j < s.len() {
            assert(s[i] == t[i] && s[j] == t[j]);
        } else if i < s.len() {
            assert(s[i] == t[i]);
        } else if j < s.len() {
            assert(s[j] == t[j]);
        }
    }
    if segment_conflict(s) {
        let (i, j) = choose|i: int, j: int|
            0 <= i < s.len() && 0 <= j < s.len() && segment_key(#[trigger] s[i]) == segment_key(
                #[trigger] s[j],
            ) && s[i] != s[j];
        assert(t[i] == s[i] && t[j] == s[j]);
    }
    if exists|j: int| 0 <= j < s.len() && segment_key(#[trigger] s[j]) == segment_key(x) && s[j] != x {
        let j = choose|j: int| 0 <= j < s.len() && segment_key(#[trigger] s[j]) == segment_key(x) && s[j] != x;
        assert(t[j] == s[j] && t[s.len() as int] == x);
    }
}

proof fn lemma_segment_conflict_prefix(s: Seq<SegmentView>, k: int)
    requires
        0 <= k <= s.len(),
        segment_conflict(s.take(k)),
    ensures
        segment_conflict(s),
{
    let t = s.take(k);
    let (i, j) = choose|i: int, j: int|
        0 <= i < t.len() && 0 <= j < t.len() && segment_key(#[trigger] t[i]) == segment_key(
            #[trigger] t[j],
        ) && t[i] != t[j];
    assert(s[i] == t[i] && s[j] == t[j]);
}

/// Adds `item` to the strictly sorted `out`; refuses (and returns `false`)
/// when `out` already holds a different fact with the same key.
fn absorb_segment(out: &mut Vec<SegmentRecord>, item: &SegmentRecord) -> (ok: bool)
    requires
        sorted_by(segment_views(old(out)@), segment_key_fn()),
    ensures
        ok <==> !(exists|j: int|
            0 <= j < old(out)@.len() && segment_key(#[trigger] segment_views(old(out)@)[j])
                == segment_key(item@) && segment_views(old(out)@)[j] != item@),
        ok ==> sorted_by(segment_views(final(out)@), segment_key_fn()),
        ok ==> forall|x: SegmentView|
            #![trigger segment_views(final(out)@).contains(x)]
            segment_views(final(out)@).contains(x) <==> (segment_views(old(out)@).contains(x) || x
                == item@),
{
    let ghost old_v = segment_views(out@);
    proof {
        lemma_key_lt_order();
    }
    let mut p: usize = 0;
    while p < out.len()
        invariant
            p <= out.len(),
            out@ == old(out)@,
            old_v == segment_views(out@),
            sorted_by(old_v, segment_key_fn()),
            forall|j: int| 0 <= j < p ==> key_lt(segment_key(#[trigger] old_v[j]), segment_key(item@)),
        ensures
            p <= out.len(),
            out@ == old(out)@,
            forall|j: int| 0 <= j < p ==> key_lt(segment_key(#[trigger] old_v[j]), segment_key(item@)),
            p < out.len() ==> !key_lt(segment_key(old_v[p as int]), segment_key(item@)),
        decreases out.len() - p,
    {
        let r = compare_key(
            out[p].origin_device_id.as_str(),
            out[p].segment_sequence,
            item.origin_device_id.as_str(),
            item.segment_sequence,
        );
        assert(old_v[p as int] == out@[p as int]@);
        match r {
            Rank::Before => {},
            _ => {
                break ;
            },
        }
        p = p + 1;
    }
    if p < out.len() {
        assert(old_v[p as int] == out@[p as int]@);
        if compare_key(
            out[p].origin_device_id.as_str(),
            out[p].segment_sequence,
            item.origin_device_id.as_str(),
            item.segment_sequence,
        ) == Rank::Same {
            if out[p].same_as(item) {
                proof {
                    assert forall|j: int|
                        0 <= j < old_v.len() && segment_key(#[trigger] old_v[j]) == segment_key(
                            item@,
                        ) implies old_v[j] == item@ by {
                        if j < p {
                        } else if j > p {
                            assert(key_lt(segment_key(old_v[p as int]), segment_key(old_v[j])));
                        }
                    }
                    assert forall|x: SegmentView|
                        #![trigger segment_views(out@).contains(x)]
                        segment_views(out@).contains(x) <==> (old_v.contains(x) || x == item@) by {
                        if x == item@ {
                            assert(old_v[p as int] == x);
                        }
                    }
                }
                return true;
            } else {
                return false;
            }
        }
    }
    proof {
        assert forall|j: int|
            0 <= j < old_v.len() implies segment_key(#[trigger] old_v[j]) != segment_key(item@) by {
            if j < p {
            } else {
                assert(key_lt(segment_key(item@), segment_key(old_v[p as int])));
                if j > p {
                    assert(key_lt(segment_key(old_v[p as int]), segment_key(old_v[j])));
                }
            }
        }
    }
    out.insert(p, item.copy());
    proof {
        let nv = segment_views(out@);
        assert(nv =~= old_v.insert(p as int, item@));
        assert forall|i: int, j: int| 0 <= i < j < nv.len() implies key_lt(
            segment_key(nv[i]),
            segment_key(nv[j]),
        ) by {
            if j < p {
            } else if j == p {
            } else if i < p {
                assert(key_lt(segment_key(nv[i]), segment_key(item@)));
                assert(key_lt(segment_key(item@), segment_key(old_v[p as int])));
                if j - 1 > p {
                    assert(key_lt(segment_key(old_v[p as int]), segment_key(old_v[j - 1])));
                }
            } else if i == p {
                assert(key_lt(segment_key(item@), segment_key(old_v[p as int])));
                if j - 1 > p {
                    assert(key_lt(segment_key(old_v[p as int]), segment_key(old_v[j - 1])));
                }
            } else {
                assert(nv[i] == old_v[i - 1] && nv[j] == old_v[j - 1]);
            }
        }
        assert forall|x: SegmentView|
            #![trigger segment_views(out@).contains(x)]
            segment_views(out@).contains(x) <==> (old_v.contains(x) || x == item@) by {
            if nv.contains(x) {
                let k = choose|k: int| 0 <= k < nv.len() && nv[k] == x;
                if k < p {
                    assert(old_v[k] == x);
                } else if k > p {
                    assert(old_v[k - 1] == x);
                }
            }
            if old_v.contains(x) {
                let k = choose|k: int| 0 <= k < old_v.len() && old_v[k] == x;
                if k < p {
                    assert(nv[k] == x);
                } else {
                    assert(nv[k + 1] == x);
                }
            }
            if x == item@ {
                assert(nv[p as int] == x);
            }
        }
    }
    true
}

/// The union of two collections of usage facts, sorted by
/// `(origin_device_id, segment_sequence)`; stops with an error when two facts
/// share that key but differ.
/// One step of the union: absorbs `all[k]` into `out`, which holds the facts
/// of `all.take(k)`.
fn merge_segment_step(
    out: &mut Vec<SegmentRecord>,
    item: &SegmentRecord,
    Ghost(all): Ghost<Seq<SegmentView>>,
    Ghost(k): Ghost<int>,
) -> (ok: bool)
    requires
        0 <= k < all.len(),
        item@ == all[k],
        sorted_by(segment_views(old(out)@), segment_key_fn()),
        same_elements(segment_views(old(out)@), all.take(k)),
        !segment_conflict(all.take(k)),
    ensures
        ok ==> sorted_by(segment_views(final(out)@), segment_key_fn()),
        ok ==> same_elements(segment_views(final(out)@), all.take(k + 1)),
        ok ==> !segment_conflict(all.take(k + 1)),
        !ok ==> segment_conflict(all),
{
    let ghost before = segment_views(out@);
    let ok = absorb_segment(out, item);
    let ghost t0 = all.take(k);
    let ghost t1 = all.take(k + 1);
    proof {
        assert(t1 =~= t0.push(item@));
        lemma_segment_conflict_push(t0, item@);
    }
    if !ok {
        proof {
            let j = choose|j: int|
                0 <= j < before.len() && segment_key(#[trigger] before[j]) == segment_key(item@)
                    && before[j] != item@;
            assert(before.contains(before[j]));
            assert(t0.contains(before[j]));
            let m = choose|m: int| 0 <= m < t0.len() && t0[m] == before[j];
            assert(segment_conflict(t1));
            lemma_segment_conflict_prefix(all, k + 1);
        }
        return false;
    }
    proof {
        assert forall|j: int|
            0 <= j < t0.len() implies !(segment_key(#[trigger] t0[j]) == segment_key(item@)
                && t0[j] != item@) by {
            let x = t0[j];
            assert(t0.contains(x));
            assert(before.contains(x));
            let m = choose|m: int| 0 <= m < before.len() && before[m] == x;
        }
        assert forall|x: SegmentView|
            segment_views(out@).contains(x) <==> t1.contains(x) by {
            assert(segment_views(out@).contains(x) <==> (before.contains(x) || x == item@));
            if x == item@ {
                assert(t1[k] == x);
            }
            if t1.contains(x) {
                let m = choose|m: int| 0 <= m < t1.len() && t1[m] == x;
                if m < k {
                    assert(t0[m] == x);
                }
            }
            if t0.contains(x) {
                let m = choose|m: int| 0 <= m < t0.len() && t0[m] == x;
                assert(t1[m] == x);
            }
        }
    }
    true
}

/// The union of two collections of usage facts, sorted by
/// `(origin_device_id, segment_sequence)`; stops with an error when two facts
/// share that key but differ.
pub fn merge_segments(left: &[SegmentRecord], right: &[SegmentRecord]) -> (r: Result<
    Vec<SegmentRecord>,
    SyncError,
>)
    ensures
        match r {
            Ok(v) => !segment_conflict(segment_views(left@) + segment_views(right@))
                && segment_union(segment_views(left@) + segment_views(right@), segment_views(v@)),
            Err(e) => segment_conflict(segment_views(left@) + segment_views(right@)) && e@
                == SyncErrorView::Format(segment_conflict_message()),
        },
{
    let ghost all = segment_views(left@) + segment_views(right@);
    let mut out: Vec<SegmentRecord> = Vec::new();
    proof {
        assert(all.take(0) =~= Seq::<SegmentView>::empty());
        assert(segment_views(out@) =~= Seq::<SegmentView>::empty());
    }
    let mut i: usize = 0;
    while i < left.len()
        invariant
            all == segment_views(left@) + segment_views(right@),
            i <= left.len(),
            sorted_by(segment_views(out@), segment_key_fn()),
            same_elements(segment_views(out@), all.take(i as int)),
            !segment_conflict(all.take(i as int)),
        decreases left.len() - i,
    {
        assert(left[i as int]@ == all[i as int]);
        if !merge_segment_step(&mut out, &left[i], Ghost(all), Ghost(i as int)) {
            return Err(format_error("会话唯一键相同但内容不同，同步已停止"));
        }
        i = i + 1;
    }
    let mut j: usize = 0;
    while j < right.len()
        invariant
            all == segment_views(left@) + segment_views(right@),
            j <= right.len(),
            sorted_by(segment_views(out@), segment_key_fn()),
            same_elements(segment_views(out@), all.take(left.len() + j)),
            !segment_conflict(all.take(left.len() + j)),
        decreases right.len() - j,
    {
        assert(right[j as int]@ == all[left.len() + j]);
        if !merge_segment_step(&mut out, &right[j], Ghost(all), Ghost(left.len() + j)) {
            return Err(format_error("会话唯一键相同但内容不同，同步已停止"));
        }
        j = j + 1;
    }
    proof {
        assert(all.take(left.len() + j) =~= all);
    }
    Ok(out)
}


/// Membership in a concatenation.
pub proof fn lemma_concat_contains<T>(s: Seq<T>, t: Seq<T>)
    ensures
        forall|x: T| #[trigger] (s + t).contains(x) <==> s.contains(x) || t.contains(x),
{
    assert forall|x: T| #[trigger] (s + t).contains(x) <==> s.contains(x) || t.contains(x) by {
        if (s + t).contains(x) {
            let k = choose|k: int| 0 <= k < (s + t).len() && (s + t)[k] == x;
            if k < s.len() {
                assert(s[k] == x);
            } else {
                assert(t[k - s.len()] == x);
            }
        }
        if s.contains(x) {
            let k = choose|k: int| 0 <= k < s.len() && s[k] == x;
            assert((s + t)[k] == x);
        }
        if t.contains(x) {
            let k = choose|k: int| 0 <= k < t.len() && t[k] == x;
            assert((s + t)[k + s.len()] == x);
        }
    }
}

/// Whether facts conflict depends only on which facts there are.
pub proof fn lemma_segment_conflict_by_elements(s: Seq<SegmentView>, t: Seq<SegmentView>)
    requires
        same_elements(s, t),
    ensures
        segment_conflict(s) <==> segment_conflict(t),
{
    if segment_conflict(s) {
        let (i, j) = choose|i: int, j: int|
            0 <= i < s.len() && 0 <= j < s.len() && segment_key(#[trigger] s[i]) == segment_key(
                #[trigger] s[j],
            ) && s[i] != s[j];
        assert(s.contains(s[i]) && s.contains(s[j]));
        let a = choose|a: int| 0 <= a < t.len() && t[a] == s[i];
        let b = choose|b: int| 0 <= b < t.len() && t[b] == s[j];
        assert(segment_key(t[a]) == segment_key(t[b]));
    }
    if segment_conflict(t) {
        let (i, j) = choose|i: int, j: int|
            0 <= i < t.len() && 0 <= j < t.len() && segment_key(#[trigger] t[i]) == segment_key(
                #[trigger] t[j],
            ) && t[i] != t[j];
        assert(t.contains(t[i]) && t.contains(t[j]));
        let a = choose|a: int| 0 <= a < s.len() && s[a] == t[i];
        let b = choose|b: int| 0 <= b < s.len() && s[b] == t[j];
        assert(segment_key(s[a]) == segment_key(s[b]));
    }
}

/// Merging facts is commutative: `merge_segments(a, b)` fails exactly when
/// `merge_segments(b, a)` fails.
pub proof fn law_merge_segments_conflict_commutative(a: Seq<SegmentView>, b: Seq<SegmentView>)
    ensures
        segment_conflict(a + b) <==> segment_conflict(b + a),
{
    lemma_concat_contains(a, b);
    lemma_concat_contains(b, a);
    lemma_segment_conflict_by_elements(a + b, b + a);
}

/// Merging facts is commutative: the unions of `a` and `b` taken in either
/// order are the same sequence.
pub proof fn law_merge_segments_commutative(
    a: Seq<SegmentView>,
    b: Seq<SegmentView>,
    ab: Seq<SegmentView>,
    ba: Seq<SegmentView>,
)
    requires
        segment_union(a + b, ab),
        segment_union(b + a, ba),
    ensures
        ab == ba,
{
    lemma_concat_contains(a, b);
    lemma_concat_contains(b, a);
    lemma_sorted_unique(ab, ba, segment_key_fn());
}

/// Merging a sorted collection of facts with itself gives it back unchanged
/// and never fails.
pub proof fn law_merge_segments_idempotent(a: Seq<SegmentView>, aa: Seq<SegmentView>)
    requires
        sorted_by(a, segment_key_fn()),
        segment_union(a + a, aa),
    ensures
        aa == a,
{
    lemma_concat_contains(a, a);
    lemma_sorted_unique(aa, a, segment_key_fn());
}

/// A collection strictly sorted by key holds no conflicting facts, also
/// when merged with itself.
pub proof fn law_merge_segments_self_no_conflict(a: Seq<SegmentView>)
    requires
        sorted_by(a, segment_key_fn()),
    ensures
        !segment_conflict(a + a),
{
    lemma_key_lt_order();
    lemma_concat_contains(a, a);
    lemma_segment_conflict_by_elements(a + a, a);
    if segment_conflict(a) {
        let (i, j) = choose|i: int, j: int|
            0 <= i < a.len() && 0 <= j < a.len() && segment_key(#[trigger] a[i]) == segment_key(
                #[trigger] a[j],
            ) && a[i] != a[j];
        if i < j {
            assert(key_lt(segment_key(a[i]), segment_key(a[j])));
        } else if j < i {
            assert(key_lt(segment_key(a[j]), segment_key(a[i])));
        }
    }
}

/// Merging facts is associative: `merge(merge(a, b), c)` and
/// `merge(a, merge(b, c))` are the same sequence.
pub proof fn law_merge_segments_associative(
    a: Seq<SegmentView>,
    b: Seq<SegmentView>,
    c: Seq<SegmentView>,
    ab: Seq<SegmentView>,
    bc: Seq<SegmentView>,
    ab_c: Seq<SegmentView>,
    a_bc: Seq<SegmentView>,
)
    requires
        segment_union(a + b, ab),
        segment_union(b + c, bc),
        segment_union(ab + c, ab_c),
        segment_union(a + bc, a_bc),
    ensures
        ab_c == a_bc,
{
    lemma_concat_contains(a, b);
    lemma_concat_contains(b, c);
    lemma_concat_contains(ab, c);
    lemma_concat_contains(a, bc);
    lemma_sorted_unique(ab_c, a_bc, segment_key_fn());
}

/// Merging facts is associative in its failures too: once the inner merges
/// succeed, the outer merges fail together, exactly when all three
/// collections together hold conflicting facts.
pub proof fn law_merge_segments_conflict_associative(
    a: Seq<SegmentView>,
    b: Seq<SegmentView>,
    c: Seq<SegmentView>,
    ab: Seq<SegmentView>,
    bc: Seq<SegmentView>,
)
    requires
        segment_union(a + b, ab),
        segment_union(b + c, bc),
    ensures
        segment_conflict(ab + c) <==> segment_conflict(a + b + c),
        segment_conflict(a + bc) <==> segment_conflict(a + b + c),
{
    lemma_concat_contains(a, b);
    lemma_concat_contains(b, c);
    lemma_concat_contains(ab, c);
    lemma_concat_contains(a, bc);
    lemma_concat_contains(a + b, c);
    lemma_segment_conflict_by_elements(ab + c, a + b + c);
    lemma_segment_conflict_by_elements(a + bc, a + b + c);
}

/// A conflict among some of the facts is a conflict among all of them: an
/// inner merge that fails makes the whole three-way merge fail either way.
pub proof fn law_merge_segments_conflict_monotone(a: Seq<SegmentView>, b: Seq<SegmentView>)
    ensures
        segment_conflict(a) ==> segment_conflict(a + b),
        segment_conflict(b) ==> segment_conflict(a + b),
{
    if segment_conflict(a) {
        let (i, j) = choose|i: int, j: int|
            0 <= i < a.len() && 0 <= j < a.len() && segment_key(#[trigger] a[i]) == segment_key(
                #[trigger] a[j],
            ) && a[i] != a[j];
        assert((a + b)[i] == a[i] && (a + b)[j] == a[j]);
    }
    if segment_conflict(b) {
        let (i, j) = choose|i: int, j: int|
            0 <= i < b.len() && 0 <= j < b.len() && segment_key(#[trigger] b[i]) == segment_key(
                #[trigger] b[j],
            ) && b[i] != b[j];
        assert((a + b)[i + a.len()] == b[i] && (a + b)[j + a.len()] == b[j]);
    }
}

} // verus!
