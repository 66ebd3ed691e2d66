//! The usage chart: per-application series of seconds per bucket (hour,
//! day or month), the largest first, with the rest summed as "其他".

use vstd::prelude::*;
use crate::records::{opt_chars, opt_str_copy, opt_str_eq};

verus! {

/// One row of usage read for the chart: the lowercased process name and the
/// alias that together identify an application, its display name, the
/// bucket the time falls in and the seconds.
#[derive(Debug, Clone)]
pub struct UsageRow {
    pub process: String,
    pub alias: Option<String>,
    pub name: String,
    pub index: usize,
    pub seconds: i64,
}

/// What identifies an application in the chart.
pub type RowKey = (Seq<char>, Option<Seq<char>>);

pub open spec fn row_key(r: UsageRow) -> RowKey {
    (r.process@, opt_chars(r.alias))
}

/// The applications of the rows inside the `n` buckets, in the order of
/// their first row.
pub open spec fn first_keys(rows: Seq<UsageRow>, n: int) -> Seq<RowKey>
    decreases rows.len(),
{
    if rows.len() == 0 {
        Seq::<RowKey>::empty()
    } else {
        let ks = first_keys(rows.drop_last(), n);
        let r = rows.last();
        if r.index < n && !ks.contains(row_key(r)) {
            ks.push(row_key(r))
        } else {
            ks
        }
    }
}

/// The seconds of application `k` in bucket `i`.
pub open spec fn key_sum(rows: Seq<UsageRow>, k: RowKey, i: int) -> int
    decreases rows.len(),
{
    if rows.len() == 0 {
        0
    } else {
        key_sum(rows.drop_last(), k, i) + (if row_key(rows.last()) == k && rows.last().index == i {
            rows.last().seconds as int
        } else {
            0
        })
    }
}

/// The seconds of application `k` over the `n` buckets.
pub open spec fn key_total(rows: Seq<UsageRow>, k: RowKey, n: int) -> int
    decreases rows.len(),
{
    if rows.len() == 0 {
        0
    } else {
        key_total(rows.drop_last(), k, n) + (if row_key(rows.last()) == k && rows.last().index < n {
            rows.last().seconds as int
        } else {
            0
        })
    }
}

/// A bucket's value adds up the seconds of the application's rows in it:
/// nothing for no rows, a row's seconds for one matching row, and the two
/// values added for two lists of rows put together.
pub proof fn law_bucket_value_is_a_sum(a: Seq<UsageRow>, b: Seq<UsageRow>, r: UsageRow, k: RowKey, i: int)
    ensures
        key_sum(Seq::empty(), k, i) == 0,
        key_sum(seq![r], k, i) == (if row_key(r) == k && r.index == i { r.seconds as int } else { 0 }),
        key_sum(a + b, k, i) == key_sum(a, k, i) + key_sum(b, k, i),
        key_sum(a.push(r), k, i) == key_sum(a, k, i) + (if row_key(r) == k && r.index == i { r.seconds as int } else { 0 }),
    decreases b.len(),
{
    assert(seq![r].drop_last() =~= Seq::<UsageRow>::empty());
    assert(a.push(r).drop_last() =~= a);
    if b.len() == 0 {
        assert(a + b =~= a);
    } else {
        law_bucket_value_is_a_sum(a, b.drop_last(), r, k, i);
        assert((a + b).drop_last() =~= a + b.drop_last());
        assert((a + b).last() == b.last());
    }
}

/// An application's total adds up the seconds of its rows inside the
/// buckets: nothing for no rows, a row's seconds for one matching row, and
/// the two totals added for two lists of rows put together.
pub proof fn law_total_is_a_sum(a: Seq<UsageRow>, b: Seq<UsageRow>, r: UsageRow, k: RowKey, n: int)
    ensures
        key_total(Seq::empty(), k, n) == 0,
        key_total(seq![r], k, n) == (if row_key(r) == k && r.index < n { r.seconds as int } else { 0 }),
        key_total(a + b, k, n) == key_total(a, k, n) + key_total(b, k, n),
    decreases b.len(),
{
    assert(seq![r].drop_last() =~= Seq::<UsageRow>::empty());
    if b.len() == 0 {
        assert(a + b =~= a);
    } else {
        law_total_is_a_sum(a, b.drop_last(), r, k, n);
        assert((a + b).drop_last() =~= a + b.drop_last());
        assert((a + b).last() == b.last());
    }
}

/// The display name of application `k`: that of its first row inside the
/// buckets.
pub open spec fn key_name(rows: Seq<UsageRow>, k: RowKey, n: int) -> Seq<char>
    decreases rows.len(),
{
    if rows.len() == 0 {
        Seq::<char>::empty()
    } else {
        let prev = rows.drop_last();
        if !first_keys(prev, n).contains(k) && rows.last().index < n && row_key(rows.last()) == k {
            rows.last().name@
        } else {
            key_name(prev, k, n)
        }
    }
}

/// The seconds in bucket `i` of the applications not in `top`.
pub open spec fn others_sum(rows: Seq<UsageRow>, top: Seq<RowKey>, i: int) -> int
    decreases rows.len(),
{
    if rows.len() == 0 {
        0
    } else {
        others_sum(rows.drop_last(), top, i) + (if !top.contains(row_key(rows.last())) && rows.last().index == i {
            rows.last().seconds as int
        } else {
            0
        })
    }
}

/// The seconds of all rows.
pub open spec fn seconds_sum(rows: Seq<UsageRow>) -> int
    decreases rows.len(),
{
    if rows.len() == 0 {
        0
    } else {
        seconds_sum(rows.drop_last()) + rows.last().seconds as int
    }
}

/// No row has negative seconds, and all of them together fit in an `i64`.
pub open spec fn rows_fit(rows: Seq<UsageRow>) -> bool {
    &&& forall|j: int| 0 <= j < rows.len() ==> #[trigger] rows[j].seconds >= 0
    &&& seconds_sum(rows) <= i64::MAX
}

proof fn lemma_sums_bounded(rows: Seq<UsageRow>, k: RowKey, top: Seq<RowKey>, i: int, n: int)
    requires
        forall|j: int| 0 <= j < rows.len() ==> #[trigger] rows[j].seconds >= 0,
    ensures
        0 <= key_sum(rows, k, i) <= seconds_sum(rows),
        0 <= key_total(rows, k, n) <= seconds_sum(rows),
        0 <= others_sum(rows, top, i) <= seconds_sum(rows),
        0 <= seconds_sum(rows),
    decreases rows.len(),
{
    if rows.len() > 0 {
        let p = rows.drop_last();
        assert forall|j: int| 0 <= j < p.len() implies #[trigger] p[j].seconds >= 0 by {
            assert(p[j] == rows[j]);
        }
        assert(rows.last() == rows[rows.len() - 1]);
        lemma_sums_bounded(p, k, top, i, n);
    }
}

proof fn lemma_prefix_sum_bounded(rows: Seq<UsageRow>, j: int)
    requires
        0 <= j <= rows.len(),
        forall|m: int| 0 <= m < rows.len() ==> #[trigger] rows[m].seconds >= 0,
    ensures
        seconds_sum(rows.take(j)) <= seconds_sum(rows),
    decreases rows.len() - j,
{
    if j < rows.len() {
        lemma_prefix_sum_bounded(rows, j + 1);
        assert(rows.take(j + 1).drop_last() =~= rows.take(j));
        assert(rows.take(j + 1).last() == rows[j]);
    } else {
        assert(rows.take(j) =~= rows);
    }
}

proof fn lemma_absent_key(rows: Seq<UsageRow>, k: RowKey, n: int)
    requires
        !first_keys(rows, n).contains(k),
    ensures
        key_total(rows, k, n) == 0,
        forall|i: int| 0 <= i < n ==> #[trigger] key_sum(rows, k, i) == 0,
    decreases rows.len(),
{
    if rows.len() > 0 {
        let p = rows.drop_last();
        let ks = first_keys(p, n);
        if ks.contains(k) {
            assert(first_keys(rows, n).contains(k)) by {
                let x = choose|x: int| 0 <= x < ks.len() && ks[x] == k;
                if rows.last().index < n && !ks.contains(row_key(rows.last())) {
                    assert(first_keys(rows, n)[x] == k);
                } else {
                    assert(first_keys(rows, n)[x] == k);
                }
            }
        }
        if rows.last().index < n && row_key(rows.last()) == k {
            assert(first_keys(rows, n).contains(k)) by {
                assert(first_keys(rows, n).last() == k);
            }
        }
        lemma_absent_key(p, k, n);
        assert forall|i: int| 0 <= i < n implies #[trigger] key_sum(rows, k, i) == 0 by {
            assert(key_sum(p, k, i) == 0);
        }
    }
}

proof fn lemma_first_keys_distinct(rows: Seq<UsageRow>, n: int)
    ensures
        forall|a: int, b: int| 0 <= a < b < first_keys(rows, n).len() ==> first_keys(rows, n)[a] != first_keys(rows, n)[b],
    decreases rows.len(),
{
    if rows.len() > 0 {
        lemma_first_keys_distinct(rows.drop_last(), n);
        let ks = first_keys(rows.drop_last(), n);
        if rows.last().index < n && !ks.contains(row_key(rows.last())) {
            assert forall|a: int, b: int| 0 <= a < b < first_keys(rows, n).len() implies first_keys(rows, n)[a] != first_keys(rows, n)[b] by {
                if b == ks.len() {
                    assert(ks[a] != row_key(rows.last()));
                }
            }
        }
    }
}

/// One application's series while the rows are read.
pub struct Group {
    pub process: String,
    pub alias: Option<String>,
    pub name: String,
    pub values: Vec<i64>,
    pub total: i64,
}

pub open spec fn group_key(g: Group) -> RowKey {
    (g.process@, opt_chars(g.alias))
}

/// `groups` holds, for each application of `rows` in first-row order, its
/// name, seconds per bucket and total.
pub open spec fn groups_match(groups: Seq<Group>, rows: Seq<UsageRow>, n: int) -> bool {
    &&& groups.len() == first_keys(rows, n).len()
    &&& forall|g: int| 0 <= g < groups.len() ==> {
        let k = first_keys(rows, n)[g];
        &&& #[trigger] group_key(groups[g]) == k
        &&& groups[g].name@ == key_name(rows, k, n)
        &&& groups[g].values@.len() == n
        &&& groups[g].total == key_total(rows, k, n)
        &&& forall|i: int| 0 <= i < n ==> #[trigger] groups[g].values@[i] == key_sum(rows, k, i)
    }
}

fn locate_group(groups: &Vec<Group>, process: &String, alias: &Option<String>) -> (r: Option<usize>)
    ensures
        match r {
            Some(g) => g < groups@.len() && group_key(groups@[g as int]) == (process@, opt_chars(*alias)),
            None => forall|g: int| 0 <= g < groups@.len() ==> group_key(#[trigger] groups@[g]) != (process@, opt_chars(*alias)),
        },
{
    let mut g: usize = 0;
    while g < groups.len()
        invariant
            g <= groups@.len(),
            forall|h: int| 0 <= h < g ==> group_key(#[trigger] groups@[h]) != (process@, opt_chars(*alias)),
        decreases groups.len() - g,
    {
        if groups[g].process == *process && opt_str_eq(&groups[g].alias, alias) {
            return Some(g);
        }
        g = g + 1;
    }
    None
}

fn copy_values(v: &Vec<i64>) -> (r: Vec<i64>)
    ensures
        r@ == v@,
{
    let mut out: Vec<i64> = Vec::new();
    let mut i: usize = 0;
    while i < v.len()
        invariant
            i <= v@.len(),
            out@ == v@.take(i as int),
        decreases v.len() - i,
    {
        out.push(v[i]);
        i = i + 1;
        assert(out@ =~= v@.take(i as int));
    }
    assert(v@.take(i as int) =~= v@);
    out
}

fn zeros(n: usize) -> (r: Vec<i64>)
    ensures
        r@.len() == n,
        forall|i: int| 0 <= i < n ==> #[trigger] r@[i] == 0,
{
    let mut out: Vec<i64> = Vec::new();
    let mut i: usize = 0;
    while i < n
        invariant
            i <= n,
            out@.len() == i,
            forall|j: int| 0 <= j < i ==> #[trigger] out@[j] == 0,
        decreases n - i,
    {
        out.push(0);
        i = i + 1;
    }
    out
}

proof fn lemma_groups_match_skip(groups: Seq<Group>, before: Seq<UsageRow>, after: Seq<UsageRow>, n: int)
    requires
        groups_match(groups, before, n),
        after.len() == before.len() + 1,
        after.drop_last() == before,
        after.last().index >= n,
    ensures
        groups_match(groups, after, n),
{
    assert(first_keys(after, n) == first_keys(before, n));
    let ks = first_keys(after, n);
    assert forall|h: int| 0 <= h < groups.len() implies {
        let kk = ks[h];
        &&& #[trigger] group_key(groups[h]) == kk
        &&& groups[h].name@ == key_name(after, kk, n)
        &&& groups[h].values@.len() == n
        &&& groups[h].total == key_total(after, kk, n)
        &&& forall|i: int| 0 <= i < n ==> #[trigger] groups[h].values@[i] == key_sum(after, kk, i)
    } by {
        let kk = ks[h];
        assert(first_keys(before, n)[h] == kk);
        assert(first_keys(before, n).contains(kk));
        assert(group_key(groups[h]) == kk);
        assert forall|i: int| 0 <= i < n implies #[trigger] groups[h].values@[i] == key_sum(after, kk, i) by {
            assert(groups[h].values@[i] == key_sum(before, kk, i));
        }
    }
}

/// Groups the rows inside the `n` buckets by application.
fn group_rows(rows: &[UsageRow], n: usize) -> (r: Vec<Group>)
    requires
        rows_fit(rows@),
    ensures
        groups_match(r@, rows@, n as int),
{
    let mut groups: Vec<Group> = Vec::new();
    let mut k: usize = 0;
    while k < rows.len()
        invariant
            k <= rows@.len(),
            rows_fit(rows@),
            groups_match(groups@, rows@.take(k as int), n as int),
        decreases rows.len() - k,
    {
        let ghost before = rows@.take(k as int);
        let ghost after = rows@.take(k + 1);
        let ghost r = rows@[k as int];
        proof {
            assert(after.drop_last() =~= before);
            assert(after.last() == r);
            lemma_first_keys_distinct(before, n as int);
            lemma_prefix_sum_bounded(rows@, k + 1);
            assert forall|j: int| 0 <= j < after.len() implies #[trigger] after[j].seconds >= 0 by {
                assert(after[j] == rows@[j]);
            }
        }
        let row = &rows[k];
        if row.index < n {
            match locate_group(&groups, &row.process, &row.alias) {
                Some(g) => {
                    let ghost key = row_key(r);
                    proof {
                        assert(first_keys(before, n as int)[g as int] == key);
                        assert(first_keys(before, n as int).contains(key));
                        assert(first_keys(after, n as int) == first_keys(before, n as int));
                        lemma_sums_bounded(after, key, Seq::empty(), row.index as int, n as int);
                    }
                    let ghost old_groups = groups@;
                    let mut vals = copy_values(&groups[g].values);
                    let idx = row.index;
                    let old_v = vals[idx];
                    assert(old_v + row.seconds == key_sum(after, key, idx as int));
                    vals.set(idx, old_v + row.seconds);
                    assert(groups[g as int].total + row.seconds == key_total(after, key, n as int));
                    let updated = Group {
                        process: groups[g].process.clone(),
                        alias: opt_str_copy(&groups[g].alias),
                        name: groups[g].name.clone(),
                        values: vals,
                        total: groups[g].total + row.seconds,
                    };
                    groups.set(g, updated);
                    proof {
                        let ks = first_keys(after, n as int);
                        assert forall|h: int| 0 <= h < groups@.len() implies {
                            let kk = ks[h];
                            &&& #[trigger] group_key(groups@[h]) == kk
                            &&& groups@[h].name@ == key_name(after, kk, n as int)
                            &&& groups@[h].values@.len() == n
                            &&& groups@[h].total == key_total(after, kk, n as int)
                            &&& forall|i: int| 0 <= i < n ==> #[trigger] groups@[h].values@[i] == key_sum(after, kk, i)
                        } by {
                            let kk = ks[h];
                            assert(first_keys(before, n as int)[h] == kk);
                            assert(first_keys(before, n as int).contains(kk));
                            assert(group_key(old_groups[h]) == kk);
                            if h != g {
                                assert(kk != key);
                                assert(groups@[h] == old_groups[h]);
                            }
                            assert forall|i: int| 0 <= i < n implies #[trigger] groups@[h].values@[i] == key_sum(after, kk, i) by {
                                assert(old_groups[h].values@[i] == key_sum(before, kk, i));
                            }
                        }
                        assert(groups@.len() == ks.len());
                        assert(groups_match(groups@, after, n as int));
                    }
                },
                None => {
                    let ghost key = row_key(r);
                    proof {
                        if first_keys(before, n as int).contains(key) {
                            let x = choose|x: int| 0 <= x < first_keys(before, n as int).len() && first_keys(before, n as int)[x] == key;
                            assert(group_key(groups@[x]) == key);
                        }
                        assert(!first_keys(before, n as int).contains(key));
                        lemma_absent_key(before, key, n as int);
                        lemma_sums_bounded(after, key, Seq::empty(), row.index as int, n as int);
                        assert(first_keys(after, n as int) == first_keys(before, n as int).push(key));
                    }
                    let ghost old_groups = groups@;
                    let mut vals = zeros(n);
                    vals.set(row.index, row.seconds);
                    let fresh = Group {
                        process: row.process.clone(),
                        alias: opt_str_copy(&row.alias),
                        name: row.name.clone(),
                        values: vals,
                        total: row.seconds,
                    };
                    groups.push(fresh);
                    proof {
                        let ks = first_keys(after, n as int);
                        assert forall|h: int| 0 <= h < groups@.len() implies {
                            let kk = ks[h];
                            &&& #[trigger] group_key(groups@[h]) == kk
                            &&& groups@[h].name@ == key_name(after, kk, n as int)
                            &&& groups@[h].values@.len() == n
                            &&& groups@[h].total == key_total(after, kk, n as int)
                            &&& forall|i: int| 0 <= i < n ==> #[trigger] groups@[h].values@[i] == key_sum(after, kk, i)
                        } by {
                            let kk = ks[h];
                            if h < ks.len() - 1 {
                                assert(first_keys(before, n as int)[h] == kk);
                                assert(first_keys(before, n as int).contains(kk));
                                assert(kk != key);
                                assert(groups@[h] == old_groups[h]);
                                assert(group_key(old_groups[h]) == kk);
                                assert forall|i: int| 0 <= i < n implies #[trigger] groups@[h].values@[i] == key_sum(after, kk, i) by {
                                    assert(old_groups[h].values@[i] == key_sum(before, kk, i));
                                }
                            } else {
                                assert(kk == key);
                                assert forall|i: int| 0 <= i < n implies #[trigger] groups@[h].values@[i] == key_sum(after, kk, i) by {
                                    assert(key_sum(before, kk, i) == 0);
                                }
                            }
                        }
                        assert(groups@.len() == ks.len());
                        assert(groups_match(groups@, after, n as int));
                    }
                },
            }
        } else {
            proof {
                lemma_groups_match_skip(groups@, before, after, n as int);
            }
        }
        k = k + 1;
    }
    assert(rows@.take(k as int) =~= rows@);
    groups
}

/// An application with its total, as the chart orders them.
pub type Ranked = (RowKey, int);

pub open spec fn group_rank(g: Group) -> Ranked {
    (group_key(g), g.total as int)
}

pub open spec fn group_ranks(s: Seq<Group>) -> Seq<Ranked> {
    s.map_values(|g: Group| group_rank(g))
}

/// The applications in first-row order, with their totals.
pub open spec fn ranked_keys(rows: Seq<UsageRow>, n: int) -> Seq<Ranked> {
    first_keys(rows, n).map_values(|k: RowKey| (k, key_total(rows, k, n)))
}

/// The entries with total `t`, in order.
pub open spec fn with_total(s: Seq<Ranked>, t: int) -> Seq<Ranked> {
    s.filter(total_is(t))
}

pub open spec fn total_is(t: int) -> spec_fn(Ranked) -> bool {
    |x: Ranked| x.1 == t
}

/// Ordered by total, largest first, entries with equal totals keeping their
/// relative order: what a stable sort by descending total gives.
pub open spec fn stably_sorted_desc(input: Seq<Ranked>, output: Seq<Ranked>) -> bool {
    &&& forall|i: int, j: int| 0 <= i <= j < output.len() ==> output[i].1 >= output[j].1
    &&& forall|t: int| #[trigger] with_total(output, t) == with_total(input, t)
}

proof fn lemma_with_total_push(s: Seq<Ranked>, e: Ranked, t: int)
    ensures
        with_total(s.push(e), t) == (if e.1 == t { with_total(s, t).push(e) } else { with_total(s, t) }),
{
    let pred = total_is(t);
    s.lemma_filter_push(e, pred);
    assert(with_total(s.push(e), t) == s.push(e).filter(pred));
    assert(with_total(s, t) == s.filter(pred));
}

proof fn lemma_with_total_add(a: Seq<Ranked>, b: Seq<Ranked>, t: int)
    ensures
        with_total(a + b, t) == with_total(a, t) + with_total(b, t),
{
    let pred = total_is(t);
    Seq::filter_distributes_over_add(a, b, pred);
    assert(with_total(a + b, t) == (a + b).filter(pred));
}

proof fn lemma_with_total_none(s: Seq<Ranked>, t: int)
    requires
        forall|k: int| 0 <= k < s.len() ==> s[k].1 != t,
    ensures
        with_total(s, t) == Seq::<Ranked>::empty(),
{
    let pred = total_is(t);
    assert forall|k: int| 0 <= k < s.len() implies !pred(s[k]) by {}
    assert(s.all(|x: Ranked| !pred(x)));
    s.lemma_all_neg_filter_empty(pred);
    assert(with_total(s, t) =~= Seq::<Ranked>::empty());
}

/// A group holds the name, seconds per bucket and total of its application.
pub open spec fn group_ok(g: Group, rows: Seq<UsageRow>, n: int) -> bool {
    let k = group_key(g);
    &&& g.name@ == key_name(rows, k, n)
    &&& g.values@.len() == n
    &&& g.total == key_total(rows, k, n)
    &&& forall|i: int| 0 <= i < n ==> #[trigger] g.values@[i] == key_sum(rows, k, i)
}

/// Inserts `g` after every entry whose total is at least its own.
fn insert_by_total(out: &mut Vec<Group>, g: Group, Ghost(rows): Ghost<Seq<UsageRow>>, Ghost(n): Ghost<int>)
    requires
        forall|i: int, j: int| 0 <= i <= j < old(out)@.len() ==> old(out)@[i].total >= old(out)@[j].total,
        forall|i: int| 0 <= i < old(out)@.len() ==> group_ok(#[trigger] old(out)@[i], rows, n),
        group_ok(g, rows, n),
    ensures
        forall|i: int| 0 <= i < final(out)@.len() ==> group_ok(#[trigger] final(out)@[i], rows, n),
        forall|i: int, j: int| 0 <= i <= j < final(out)@.len() ==> final(out)@[i].total >= final(out)@[j].total,
        forall|t: int| #[trigger] with_total(group_ranks(final(out)@), t)
            == (if g.total == t {
                with_total(group_ranks(old(out)@), t).push(group_rank(g))
            } else {
                with_total(group_ranks(old(out)@), t)
            }),
{
    let ghost before = group_ranks(out@);
    let ghost gr = group_rank(g);
    let mut p: usize = out.len();
    while p > 0 && out[p - 1].total < g.total
        invariant
            p <= out@.len(),
            out@ == old(out)@,
            forall|k: int| p <= k < out@.len() ==> out@[k].total < g.total,
        decreases p,
    {
        p = p - 1;
    }
    let ghost total = g.total as int;
    let ghost gg = g;
    out.insert(p, g);
    proof {
        assert forall|i: int| 0 <= i < out@.len() implies group_ok(#[trigger] out@[i], rows, n) by {
            if i < p {
                assert(out@[i] == old(out)@[i]);
            } else if i > p {
                assert(out@[i] == old(out)@[i - 1]);
            } else {
                assert(out@[i] == gg);
            }
        }
        let a = before.subrange(0, p as int);
        let b = before.subrange(p as int, before.len() as int);
        assert(before =~= a + b);
        assert(group_ranks(out@) =~= a.push(gr) + b);
        assert forall|t: int| #[trigger] with_total(group_ranks(out@), t)
            == (if total == t { with_total(before, t).push(gr) } else { with_total(before, t) }) by {
            lemma_with_total_add(a.push(gr), b, t);
            lemma_with_total_add(a, b, t);
            lemma_with_total_push(a, gr, t);
            if total == t {
                assert forall|k: int| 0 <= k < b.len() implies b[k].1 != t by {
                    assert(b[k] == before[p + k]);
                    assert(old(out)@[p + k].total < total);
                }
                lemma_with_total_none(b, t);
                assert(with_total(a, t).push(gr) + Seq::<Ranked>::empty() =~= with_total(a, t).push(gr));
                assert(with_total(a, t) + Seq::<Ranked>::empty() =~= with_total(a, t));
            }
        }
    }
}

/// Sorts the groups by descending total, stably.
fn sort_groups(groups: Vec<Group>, Ghost(rows): Ghost<Seq<UsageRow>>, Ghost(n): Ghost<int>) -> (r: Vec<Group>)
    requires
        forall|i: int| 0 <= i < groups@.len() ==> group_ok(#[trigger] groups@[i], rows, n),
    ensures
        stably_sorted_desc(group_ranks(groups@), group_ranks(r@)),
        forall|i: int| 0 <= i < r@.len() ==> group_ok(#[trigger] r@[i], rows, n),
{
    let ghost initial_groups = groups@;
    let ghost input = group_ranks(groups@);
    assert(initial_groups.len() == groups.len());
    let mut rest = groups;
    let mut out: Vec<Group> = Vec::new();
    let mut consumed: usize = 0;
    while rest.len() > 0
        invariant
            input == group_ranks(initial_groups),
            initial_groups.len() <= usize::MAX,
            consumed <= initial_groups.len(),
            rest@ == initial_groups.subrange(consumed as int, initial_groups.len() as int),
            forall|i: int| 0 <= i < initial_groups.len() ==> group_ok(#[trigger] initial_groups[i], rows, n),
            forall|a: int, b: int| 0 <= a <= b < out@.len() ==> out@[a].total >= out@[b].total,
            forall|t: int| #[trigger] with_total(group_ranks(out@), t) == with_total(input.take(consumed as int), t),
            forall|i: int| 0 <= i < out@.len() ==> group_ok(#[trigger] out@[i], rows, n),
        decreases rest.len(),
    {
        assert(rest@.len() == initial_groups.len() - consumed);
        let g = rest.remove(0);
        proof {
            assert(g == initial_groups[consumed as int]);
            assert(input.take(consumed + 1) =~= input.take(consumed as int).push(input[consumed as int]));
        }
        insert_by_total(&mut out, g, Ghost(rows), Ghost(n));
        proof {
            assert forall|t: int| #[trigger] with_total(group_ranks(out@), t) == with_total(input.take(consumed + 1), t) by {
                lemma_with_total_push(input.take(consumed as int), input[consumed as int], t);
            }
        }
        assert(consumed < initial_groups.len());
        consumed = consumed + 1;
        assert(rest@ =~= initial_groups.subrange(consumed as int, initial_groups.len() as int));
    }
    assert(input.take(consumed as int) =~= input);
    out
}

/// How many applications get a series of their own.
pub open spec fn top_count(len: int, limit: int) -> int {
    if limit < len { limit } else { len }
}

/// The keys of the applications that get a series of their own.
pub open spec fn top_keys(sorted: Seq<Ranked>, limit: int) -> Seq<RowKey> {
    sorted.take(top_count(sorted.len() as int, limit)).map_values(|x: Ranked| x.0)
}

/// The chart for the rows, given the applications sorted by total: a series
/// (name, seconds per bucket) for each of the first `limit` applications,
/// then, when the others have any time, their sum as `其他`.
pub open spec fn chart_matches(out: Seq<(String, Vec<i64>)>, sorted: Seq<Ranked>, rows: Seq<UsageRow>, n: int, limit: int) -> bool {
    let top = top_count(sorted.len() as int, limit);
    let tops = top_keys(sorted, limit);
    &&& forall|j: int| 0 <= j < top ==> {
        &&& #[trigger] out[j].0@ == key_name(rows, sorted[j].0, n)
        &&& out[j].1@.len() == n
        &&& forall|i: int| 0 <= i < n ==> #[trigger] out[j].1@[i] == key_sum(rows, sorted[j].0, i)
    }
    &&& if exists|i: int| 0 <= i < n && #[trigger] others_sum(rows, tops, i) > 0 {
        &&& out.len() == top + 1
        &&& out[top].0@ == "其他"@
        &&& out[top].1@.len() == n
        &&& forall|i: int| 0 <= i < n ==> #[trigger] out[top].1@[i] == others_sum(rows, tops, i)
    } else {
        out.len() == top
    }
}

fn in_top(sorted: &Vec<Group>, top: usize, process: &String, alias: &Option<String>) -> (r: bool)
    requires
        top <= sorted@.len(),
    ensures
        r == group_ranks(sorted@).take(top as int).map_values(|x: Ranked| x.0).contains((process@, opt_chars(*alias))),
{
    let ghost tops = group_ranks(sorted@).take(top as int).map_values(|x: Ranked| x.0);
    let mut g: usize = 0;
    while g < top
        invariant
            top <= sorted@.len(),
            tops == group_ranks(sorted@).take(top as int).map_values(|x: Ranked| x.0),
            g <= top,
            forall|h: int| 0 <= h < g ==> tops[h] != (process@, opt_chars(*alias)),
        decreases top - g,
    {
        assert(tops[g as int] == group_key(sorted@[g as int]));
        if sorted[g].process == *process && opt_str_eq(&sorted[g].alias, alias) {
            assert(tops[g as int] == (process@, opt_chars(*alias)));
            return true;
        }
        g = g + 1;
    }
    proof {
        if tops.contains((process@, opt_chars(*alias))) {
            let x = choose|x: int| 0 <= x < tops.len() && tops[x] == (process@, opt_chars(*alias));
            assert(tops[x] != (process@, opt_chars(*alias)));
        }
    }
    false
}

/// The seconds per bucket of the applications not in the first `top`.
fn other_series(rows: &[UsageRow], n: usize, sorted: &Vec<Group>, top: usize) -> (r: Vec<i64>)
    requires
        rows_fit(rows@),
        top <= sorted@.len(),
    ensures
        r@.len() == n,
        forall|i: int| 0 <= i < n ==> #[trigger] r@[i] == others_sum(rows@, group_ranks(sorted@).take(top as int).map_values(|x: Ranked| x.0), i),
{
    let ghost tops = group_ranks(sorted@).take(top as int).map_values(|x: Ranked| x.0);
    let mut other = zeros(n);
    let mut k: usize = 0;
    while k < rows.len()
        invariant
            rows_fit(rows@),
            top <= sorted@.len(),
            tops == group_ranks(sorted@).take(top as int).map_values(|x: Ranked| x.0),
            k <= rows@.len(),
            other@.len() == n,
            forall|i: int| 0 <= i < n ==> #[trigger] other@[i] == others_sum(rows@.take(k as int), tops, i),
        decreases rows.len() - k,
    {
        let ghost before = rows@.take(k as int);
        let ghost after = rows@.take(k + 1);
        proof {
            assert(after.drop_last() =~= before);
            assert(after.last() == rows@[k as int]);
            lemma_prefix_sum_bounded(rows@, k + 1);
            assert forall|j: int| 0 <= j < after.len() implies #[trigger] after[j].seconds >= 0 by {
                assert(after[j] == rows@[j]);
            }
        }
        let row = &rows[k];
        if row.index < n && !in_top(sorted, top, &row.process, &row.alias) {
            let idx = row.index;
            proof {
                lemma_sums_bounded(after, row_key(rows@[k as int]), tops, idx as int, n as int);
            }
            let v = other[idx] + row.seconds;
            other.set(idx, v);
        }
        k = k + 1;
    }
    assert(rows@.take(k as int) =~= rows@);
    other
}

/// The usage chart: a series for each of the `limit` applications with the
/// most time inside the `n` buckets (ties in the order of their first row),
/// each with its display name and seconds per bucket, then, when the other
/// applications have any time, their sum as `其他`.
pub fn bucket_series(rows: &[UsageRow], n: usize, limit: usize) -> (r: Vec<(String, Vec<i64>)>)
    requires
        rows_fit(rows@),
    ensures
        exists|sorted: Seq<Ranked>| #[trigger] stably_sorted_desc(ranked_keys(rows@, n as int), sorted)
            && chart_matches(r@, sorted, rows@, n as int, limit as int),
{
    let groups = group_rows(rows, n);
    proof {
        assert forall|g: int| 0 <= g < groups@.len() implies group_ok(#[trigger] groups@[g], rows@, n as int) by {
            assert(group_key(groups@[g]) == first_keys(rows@, n as int)[g]);
        }
        assert(group_ranks(groups@) =~= ranked_keys(rows@, n as int)) by {
            assert forall|g: int| 0 <= g < groups@.len() implies #[trigger] group_ranks(groups@)[g] == ranked_keys(rows@, n as int)[g] by {
                assert(group_key(groups@[g]) == first_keys(rows@, n as int)[g]);
            }
        }
    }
    let sorted = sort_groups(groups, Ghost(rows@), Ghost(n as int));
    let ghost ranks = group_ranks(sorted@);
    let top: usize = if limit < sorted.len() { limit } else { sorted.len() };
    let mut out: Vec<(String, Vec<i64>)> = Vec::new();
    let mut j: usize = 0;
    while j < top
        invariant
            top <= sorted@.len(),
            ranks == group_ranks(sorted@),
            forall|i: int| 0 <= i < sorted@.len() ==> group_ok(#[trigger] sorted@[i], rows@, n as int),
            j <= top,
            out@.len() == j,
            forall|m: int| 0 <= m < j ==> {
                &&& #[trigger] out@[m].0@ == key_name(rows@, ranks[m].0, n as int)
                &&& out@[m].1@.len() == n
                &&& forall|i: int| 0 <= i < n ==> #[trigger] out@[m].1@[i] == key_sum(rows@, ranks[m].0, i)
            },
        decreases top - j,
    {
        assert(group_ok(sorted@[j as int], rows@, n as int));
        assert(ranks[j as int].0 == group_key(sorted@[j as int]));
        out.push((sorted[j].name.clone(), copy_values(&sorted[j].values)));
        j = j + 1;
    }
    let other = other_series(rows, n, &sorted, top);
    proof {
        assert(ranks.take(top as int).map_values(|x: Ranked| x.0) =~= top_keys(ranks, limit as int));
    }
    let mut any = false;
    let mut i: usize = 0;
    while i < n
        invariant
            other@.len() == n,
            i <= n,
            any == exists|m: int| 0 <= m < i && other@[m] > 0,
        decreases n - i,
    {
        if other[i] > 0 {
            any = true;
        }
        i = i + 1;
    }
    if any {
        out.push(("其他".to_owned(), other));
    }
    proof {
        let tops = top_keys(ranks, limit as int);
        assert(any == exists|m: int| 0 <= m < n && #[trigger] others_sum(rows@, tops, m) > 0) by {
            if any {
                let m = choose|m: int| 0 <= m < n && other@[m] > 0;
                assert(others_sum(rows@, tops, m) > 0);
            } else {
                assert forall|m: int| 0 <= m < n implies !(#[trigger] others_sum(rows@, tops, m) > 0) by {
                    assert(other@[m] == others_sum(rows@, tops, m));
                    if other@[m] > 0 {
                        assert(exists|q: int| 0 <= q < n && other@[q] > 0);
                    }
                }
            }
        }
        assert(chart_matches(out@, ranks, rows@, n as int, limit as int));
    }
    out
}

/// Today's idle time: the time since local midnight (none before it) not
/// covered by recorded usage, and never negative.
pub fn idle_seconds(since_midnight: i64, recorded: i64) -> (r: i64)
    requires
        recorded >= 0,
    ensures
        r == (if since_midnight < 0 || since_midnight - recorded < 0 { 0 } else { since_midnight - recorded }),
{
    let elapsed = if since_midnight < 0 { 0 } else { since_midnight };
    if elapsed - recorded < 0 { 0 } else { elapsed - recorded }
}

/// The seconds per local hour of a day, from `(hour, seconds)` rows: rows
/// outside 0..24 are ignored, and a later row for an hour replaces an
/// earlier one.
pub open spec fn heatmap_spec(rows: Seq<(i64, i64)>) -> Seq<i64>
    decreases rows.len(),
{
    if rows.len() == 0 {
        Seq::new(24, |i: int| 0i64)
    } else {
        let prev = heatmap_spec(rows.drop_last());
        let (h, s) = rows.last();
        if 0 <= h < 24 { prev.update(h as int, s) } else { prev }
    }
}

proof fn lemma_heatmap_len(rows: Seq<(i64, i64)>)
    ensures
        heatmap_spec(rows).len() == 24,
    decreases rows.len(),
{
    if rows.len() > 0 {
        lemma_heatmap_len(rows.drop_last());
    }
}

/// The hourly heat map of a day.
pub fn hourly_heatmap(rows: &[(i64, i64)]) -> (r: Vec<i64>)
    ensures
        r@ == heatmap_spec(rows@),
{
    let mut out: Vec<i64> = Vec::new();
    let mut i: usize = 0;
    while i < 24
        invariant
            i <= 24,
            out@ == Seq::new(i as nat, |k: int| 0i64),
        decreases 24 - i,
    {
        out.push(0);
        i = i + 1;
        assert(out@ =~= Seq::new(i as nat, |k: int| 0i64));
    }
    assert(rows@.take(0) =~= Seq::<(i64, i64)>::empty());
    let mut k: usize = 0;
    while k < rows.len()
        invariant
            k <= rows@.len(),
            out@ == heatmap_spec(rows@.take(k as int)),
        decreases rows.len() - k,
    {
        proof {
            lemma_heatmap_len(rows@.take(k as int));
            assert(rows@.take(k + 1).drop_last() =~= rows@.take(k as int));
            assert(rows@.take(k + 1).last() == rows@[k as int]);
        }
        let (h, s) = rows[k];
        if 0 <= h && h < 24 {
            out.set(h as usize, s);
        }
        k = k + 1;
    }
    assert(rows@.take(k as int) =~= rows@);
    out
}

} // verus!
