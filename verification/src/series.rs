//! How the usage chart's series relate to the applications' totals.

use vstd::prelude::*;
use crate::stats::{key_sum, key_total, row_key, RowKey, UsageRow};

verus! {

/// The values of application `k` in the first `n` buckets, added up.
pub open spec fn series_sum(rows: Seq<UsageRow>, k: RowKey, n: nat) -> int
    decreases n,
{
    if n == 0 {
        0
    } else {
        series_sum(rows, k, (n - 1) as nat) + key_sum(rows, k, n - 1)
    }
}

proof fn lemma_series_sum_empty(k: RowKey, n: nat)
    ensures
        series_sum(Seq::empty(), k, n) == 0,
    decreases n,
{
    if n > 0 {
        lemma_series_sum_empty(k, (n - 1) as nat);
    }
}

proof fn lemma_series_sum_push(rows: Seq<UsageRow>, r: UsageRow, k: RowKey, n: nat)
    ensures
        series_sum(rows.push(r), k, n) == series_sum(rows, k, n) + (if row_key(r) == k && r.index < n {
            r.seconds as int
        } else {
            0
        }),
    decreases n,
{
    assert(rows.push(r).drop_last() =~= rows);
    if n > 0 {
        lemma_series_sum_push(rows, r, k, (n - 1) as nat);
    }
}

/// The values of an application's series add up to its total: every second
/// of its rows inside the buckets is counted once, in its own bucket.
pub proof fn law_series_adds_up_to_total(rows: Seq<UsageRow>, k: RowKey, n: nat)
    ensures
        series_sum(rows, k, n) == key_total(rows, k, n as int),
    decreases rows.len(),
{
    if rows.len() == 0 {
        lemma_series_sum_empty(k, n);
        assert(rows =~= Seq::<UsageRow>::empty());
    } else {
        let rs = rows.drop_last();
        law_series_adds_up_to_total(rs, k, n);
        lemma_series_sum_push(rs, rows.last(), k, n);
        assert(rs.push(rows.last()) =~= rows);
    }
}

} // verus!
