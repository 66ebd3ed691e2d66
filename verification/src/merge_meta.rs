//! Merging of device and application metadata (the higher revision wins;
//! equal revisions must agree) and of categories (the higher
//! `(logical_revision, revision_device_id)` wins).

use vstd::prelude::*;
use crate::error::{format_error, SyncError, SyncErrorView};
use crate::order::{
    compare_key, insertion_point, key_lt, lemma_represents_insert,
    lemma_represents_lookup, lemma_represents_unique, lemma_represents_update, represents, Key,
};
use crate::records::{
    app_key, app_views, device_key, device_views, AppMetadataRecord, AppMetadataView, DeviceRecord,
    DeviceView, category_key, category_views, CategoryRecord, CategoryView,
};
use crate::text::{chars_lt, compare_str, lemma_chars_lt_order};
use crate::text::Rank;

verus! {

pub open spec fn device_key_fn() -> spec_fn(DeviceView) -> Key {
    |v: DeviceView| device_key(v)
}

/// The table built from `s` in order, a later record replacing an earlier
/// one with the same key.
pub open spec fn device_table(s: Seq<DeviceView>) -> Map<Key, DeviceView>
    decreases s.len(),
{
    if s.len() == 0 {
        Map::empty()
    } else {
        device_table(s.drop_last()).insert(device_key(s.last()), s.last())
    }
}

/// Offering `d` to table `m`: a stored record with a higher revision stays,
/// an equal revision with different content is a conflict (`None`),
/// otherwise `d` is stored.
pub open spec fn device_offer(m: Map<Key, DeviceView>, d: DeviceView) -> Option<Map<Key, DeviceView>> {
    let k = device_key(d);
    if m.contains_key(k) && m[k].metadata_revision > d.metadata_revision {
        Some(m)
    } else if m.contains_key(k) && m[k].metadata_revision == d.metadata_revision && m[k] != d {
        None
    } else {
        Some(m.insert(k, d))
    }
}

/// The table of `left`, then each record of `right` offered in turn.
pub open spec fn device_merge(left: Seq<DeviceView>, right: Seq<DeviceView>) -> Option<Map<Key, DeviceView>>
    decreases right.len(),
{
    if right.len() == 0 {
        Some(device_table(left))
    } else {
        match device_merge(left, right.drop_last()) {
            Some(m) => device_offer(m, right.last()),
            None => None,
        }
    }
}

pub open spec fn device_conflict_message() -> Seq<char> {
    "设备元数据同版本内容冲突"@
}

fn locate_device(out: &Vec<DeviceRecord>, id: &str) -> (p: usize)
    requires
        crate::order::sorted_by(device_views(out@), device_key_fn()),
    ensures
        insertion_point(device_views(out@), device_key_fn(), (id@, 0int), p as int),
{
    let mut p: usize = 0;
    while p < out.len()
        invariant
            p <= out.len(),
            forall|j: int| 0 <= j < p ==> key_lt(#[trigger] device_key(device_views(out@)[j]), (id@, 0int)),
        ensures
            p <= out.len(),
            forall|j: int| 0 <= j < p ==> key_lt(#[trigger] device_key(device_views(out@)[j]), (id@, 0int)),
            p < out.len() ==> !key_lt(device_key(device_views(out@)[p as int]), (id@, 0int)),
        decreases out.len() - p,
    {
        assert(device_views(out@)[p as int] == out@[p as int]@);
        match compare_key(out[p].device_id.as_str(), 0, id, 0) {
            Rank::Before => {},
            _ => {
                break ;
            },
        }
        p = p + 1;
    }
    p
}

/// Stores `d` in the sorted table `out` at its insertion point `p`.
fn store_device(out: &mut Vec<DeviceRecord>, d: &DeviceRecord, p: usize, Ghost(m): Ghost<Map<Key, DeviceView>>)
    requires
        represents(device_views(old(out)@), m, device_key_fn()),
        insertion_point(device_views(old(out)@), device_key_fn(), device_key(d@), p as int),
    ensures
        represents(device_views(final(out)@), m.insert(device_key(d@), d@), device_key_fn()),
{
    let ghost v = device_views(out@);
    proof {
        lemma_represents_lookup(v, m, device_key_fn(), device_key(d@), p as int);
    }
    if p < out.len() && out[p].device_id == d.device_id {
        assert(out@[p as int]@ == v[p as int]);
        out.set(p, d.copy());
        proof {
            assert(device_views(out@) =~= v.update(p as int, d@));
            lemma_represents_update(v, m, device_key_fn(), d@, p as int);
        }
    } else {
        proof {
            if p < out.len() {
                assert(out@[p as int]@ == v[p as int]);
            }
        }
        out.insert(p, d.copy());
        proof {
            assert(device_views(out@) =~= v.insert(p as int, d@));
            lemma_represents_insert(v, m, device_key_fn(), d@, p as int);
        }
    }
}

proof fn lemma_device_merge_none(left: Seq<DeviceView>, right: Seq<DeviceView>, j: int)
    requires
        0 <= j <= right.len(),
        device_merge(left, right.take(j)) is None,
    ensures
        device_merge(left, right) is None,
    decreases right.len() - j,
{
    if j < right.len() {
        assert(right.take(j + 1).drop_last() =~= right.take(j));
        lemma_device_merge_none(left, right, j + 1);
    } else {
        assert(right.take(j) =~= right);
    }
}

/// Merges device metadata: the devices of `left` (a later entry replacing an
/// earlier one with the same id), then each of `right`, which replaces a
/// stored device unless that one has a higher revision; an equal revision
/// with different content stops the merge. The result is sorted by id.
pub fn merge_devices(left: &[DeviceRecord], right: &[DeviceRecord]) -> (r: Result<Vec<DeviceRecord>, SyncError>)
    ensures
        match r {
            Ok(v) => device_merge(device_views(left@), device_views(right@)) matches Some(m)
                && represents(device_views(v@), m, device_key_fn()),
            Err(e) => device_merge(device_views(left@), device_views(right@)) is None
                && e@ == SyncErrorView::Format(device_conflict_message()),
        },
{
    let ghost lv = device_views(left@);
    let ghost rv = device_views(right@);
    let mut out: Vec<DeviceRecord> = Vec::new();
    proof {
        assert(device_views(out@) =~= Seq::<DeviceView>::empty());
        assert(lv.take(0) =~= Seq::<DeviceView>::empty());
    }
    let mut i: usize = 0;
    while i < left.len()
        invariant
            lv == device_views(left@),
            i <= left.len(),
            represents(device_views(out@), device_table(lv.take(i as int)), device_key_fn()),
        decreases left.len() - i,
    {
        let p = locate_device(&out, left[i].device_id.as_str());
        assert(device_key(left@[i as int]@) == (left@[i as int].device_id@, 0int));
        store_device(&mut out, &left[i], p, Ghost(device_table(lv.take(i as int))));
        proof {
            assert(lv.take(i + 1).drop_last() =~= lv.take(i as int));
            assert(lv.take(i + 1).last() == left@[i as int]@);
        }
        i = i + 1;
    }
    proof {
        assert(lv.take(i as int) =~= lv);
        assert(rv.take(0) =~= Seq::<DeviceView>::empty());
    }
    let ghost mut m = device_table(lv);
    let mut j: usize = 0;
    while j < right.len()
        invariant
            lv == device_views(left@),
            rv == device_views(right@),
            j <= right.len(),
            device_merge(lv, rv.take(j as int)) == Some(m),
            represents(device_views(out@), m, device_key_fn()),
        decreases right.len() - j,
    {
        let d = &right[j];
        let p = locate_device(&out, d.device_id.as_str());
        let ghost v = device_views(out@);
        proof {
            assert(device_key(d@) == (d.device_id@, 0int));
            lemma_represents_lookup(v, m, device_key_fn(), device_key(d@), p as int);
            assert(rv.take(j + 1).drop_last() =~= rv.take(j as int));
            assert(rv.take(j + 1).last() == d@);
            if p < out.len() {
                assert(out@[p as int]@ == v[p as int]);
            }
        }
        let found = p < out.len() && out[p].device_id == d.device_id;
        if found && out[p].metadata_revision > d.metadata_revision {
        } else if found && out[p].metadata_revision == d.metadata_revision && !out[p].same_as(d) {
            proof {
                lemma_device_merge_none(lv, rv, j + 1);
            }
            return Err(format_error("设备元数据同版本内容冲突"));
        } else {
            store_device(&mut out, d, p, Ghost(m));
            proof {
                m = m.insert(device_key(d@), d@);
            }
        }
        j = j + 1;
    }
    proof {
        assert(rv.take(j as int) =~= rv);
    }
    Ok(out)
}

pub open spec fn app_key_fn() -> spec_fn(AppMetadataView) -> Key {
    |v: AppMetadataView| app_key(v)
}

/// The table built from `s` in order, a later record replacing an earlier
/// one with the same key.
pub open spec fn app_table(s: Seq<AppMetadataView>) -> Map<Key, AppMetadataView>
    decreases s.len(),
{
    if s.len() == 0 {
        Map::empty()
    } else {
        app_table(s.drop_last()).insert(app_key(s.last()), s.last())
    }
}

/// Offering `d` to table `m`: a stored record with a higher revision stays,
/// an equal revision with different content is a conflict (`None`),
/// otherwise `d` is stored.
pub open spec fn app_offer(m: Map<Key, AppMetadataView>, d: AppMetadataView) -> Option<Map<Key, AppMetadataView>> {
    let k = app_key(d);
    if m.contains_key(k) && m[k].metadata_revision > d.metadata_revision {
        Some(m)
    } else if m.contains_key(k) && m[k].metadata_revision == d.metadata_revision && m[k] != d {
        None
    } else {
        Some(m.insert(k, d))
    }
}

/// The table of `left`, then each record of `right` offered in turn.
pub open spec fn app_merge(left: Seq<AppMetadataView>, right: Seq<AppMetadataView>) -> Option<Map<Key, AppMetadataView>>
    decreases right.len(),
{
    if right.len() == 0 {
        Some(app_table(left))
    } else {
        match app_merge(left, right.drop_last()) {
            Some(m) => app_offer(m, right.last()),
            None => None,
        }
    }
}

pub open spec fn app_conflict_message() -> Seq<char> {
    "应用元数据同版本内容冲突"@
}

fn locate_app(out: &Vec<AppMetadataRecord>, id: &str, n: i64) -> (p: usize)
    requires
        crate::order::sorted_by(app_views(out@), app_key_fn()),
    ensures
        insertion_point(app_views(out@), app_key_fn(), (id@, n as int), p as int),
{
    let mut p: usize = 0;
    while p < out.len()
        invariant
            p <= out.len(),
            forall|j: int| 0 <= j < p ==> key_lt(#[trigger] app_key(app_views(out@)[j]), (id@, n as int)),
        ensures
            p <= out.len(),
            forall|j: int| 0 <= j < p ==> key_lt(#[trigger] app_key(app_views(out@)[j]), (id@, n as int)),
            p < out.len() ==> !key_lt(app_key(app_views(out@)[p as int]), (id@, n as int)),
        decreases out.len() - p,
    {
        assert(app_views(out@)[p as int] == out@[p as int]@);
        match compare_key(out[p].origin_device_id.as_str(), out[p].origin_app_id, id, n) {
            Rank::Before => {},
            _ => {
                break ;
            },
        }
        p = p + 1;
    }
    p
}

/// Stores `d` in the sorted table `out` at its insertion point `p`.
fn store_app(out: &mut Vec<AppMetadataRecord>, d: &AppMetadataRecord, p: usize, Ghost(m): Ghost<Map<Key, AppMetadataView>>)
    requires
        represents(app_views(old(out)@), m, app_key_fn()),
        insertion_point(app_views(old(out)@), app_key_fn(), app_key(d@), p as int),
    ensures
        represents(app_views(final(out)@), m.insert(app_key(d@), d@), app_key_fn()),
{
    let ghost v = app_views(out@);
    proof {
        lemma_represents_lookup(v, m, app_key_fn(), app_key(d@), p as int);
    }
    if p < out.len() && out[p].origin_device_id == d.origin_device_id && out[p].origin_app_id == d.origin_app_id {
        assert(out@[p as int]@ == v[p as int]);
        out.set(p, d.copy());
        proof {
            assert(app_views(out@) =~= v.update(p as int, d@));
            lemma_represents_update(v, m, app_key_fn(), d@, p as int);
        }
    } else {
        proof {
            if p < out.len() {
                assert(out@[p as int]@ == v[p as int]);
            }
        }
        out.insert(p, d.copy());
        proof {
            assert(app_views(out@) =~= v.insert(p as int, d@));
            lemma_represents_insert(v, m, app_key_fn(), d@, p as int);
        }
    }
}

proof fn lemma_app_merge_none(left: Seq<AppMetadataView>, right: Seq<AppMetadataView>, j: int)
    requires
        0 <= j <= right.len(),
        app_merge(left, right.take(j)) is None,
    ensures
        app_merge(left, right) is None,
    decreases right.len() - j,
{
    if j < right.len() {
        assert(right.take(j + 1).drop_last() =~= right.take(j));
        lemma_app_merge_none(left, right, j + 1);
    } else {
        assert(right.take(j) =~= right);
    }
}

/// Merges application metadata keyed by `(origin_device_id, origin_app_id)`:
/// the entries of `left` (a later one replacing an earlier one with the same
/// key), then each of `right`, which replaces a stored entry unless that one
/// has a higher revision; an equal revision with different content stops the
/// merge. The result is sorted by key.
pub fn merge_apps(left: &[AppMetadataRecord], right: &[AppMetadataRecord]) -> (r: Result<Vec<AppMetadataRecord>, SyncError>)
    ensures
        match r {
            Ok(v) => app_merge(app_views(left@), app_views(right@)) matches Some(m)
                && represents(app_views(v@), m, app_key_fn()),
            Err(e) => app_merge(app_views(left@), app_views(right@)) is None
                && e@ == SyncErrorView::Format(app_conflict_message()),
        },
{
    let ghost lv = app_views(left@);
    let ghost rv = app_views(right@);
    let mut out: Vec<AppMetadataRecord> = Vec::new();
    proof {
        assert(app_views(out@) =~= Seq::<AppMetadataView>::empty());
        assert(lv.take(0) =~= Seq::<AppMetadataView>::empty());
    }
    let mut i: usize = 0;
    while i < left.len()
        invariant
            lv == app_views(left@),
            i <= left.len(),
            represents(app_views(out@), app_table(lv.take(i as int)), app_key_fn()),
        decreases left.len() - i,
    {
        let p = locate_app(&out, left[i].origin_device_id.as_str(), left[i].origin_app_id);
        assert(app_key(left@[i as int]@) == (left@[i as int].origin_device_id@, left@[i as int].origin_app_id as int));
        store_app(&mut out, &left[i], p, Ghost(app_table(lv.take(i as int))));
        proof {
            assert(lv.take(i + 1).drop_last() =~= lv.take(i as int));
            assert(lv.take(i + 1).last() == left@[i as int]@);
        }
        i = i + 1;
    }
    proof {
        assert(lv.take(i as int) =~= lv);
        assert(rv.take(0) =~= Seq::<AppMetadataView>::empty());
    }
    let ghost mut m = app_table(lv);
    let mut j: usize = 0;
    while j < right.len()
        invariant
            lv == app_views(left@),
            rv == app_views(right@),
            j <= right.len(),
            app_merge(lv, rv.take(j as int)) == Some(m),
            represents(app_views(out@), m, app_key_fn()),
        decreases right.len() - j,
    {
        let d = &right[j];
        let p = locate_app(&out, d.origin_device_id.as_str(), d.origin_app_id);
        let ghost v = app_views(out@);
        proof {
            assert(app_key(d@) == (d.origin_device_id@, d.origin_app_id as int));
            lemma_represents_lookup(v, m, app_key_fn(), app_key(d@), p as int);
            assert(rv.take(j + 1).drop_last() =~= rv.take(j as int));
            assert(rv.take(j + 1).last() == d@);
            if p < out.len() {
                assert(out@[p as int]@ == v[p as int]);
            }
        }
        let found = p < out.len() && out[p].origin_device_id == d.origin_device_id && out[p].origin_app_id == d.origin_app_id;
        if found && out[p].metadata_revision > d.metadata_revision {
        } else if found && out[p].metadata_revision == d.metadata_revision && !out[p].same_as(d) {
            proof {
                lemma_app_merge_none(lv, rv, j + 1);
            }
            return Err(format_error("应用元数据同版本内容冲突"));
        } else {
            store_app(&mut out, d, p, Ghost(m));
            proof {
                m = m.insert(app_key(d@), d@);
            }
        }
        j = j + 1;
    }
    proof {
        assert(rv.take(j as int) =~= rv);
    }
    Ok(out)
}


pub open spec fn category_key_fn() -> spec_fn(CategoryView) -> Key {
    |v: CategoryView| category_key(v)
}

/// Category `a` supersedes `b`: a higher `logical_revision`, or the same one
/// and a later `revision_device_id` (the order of `(i64, &str)` tuples).
pub open spec fn category_supersedes(a: CategoryView, b: CategoryView) -> bool {
    a.logical_revision > b.logical_revision || (a.logical_revision == b.logical_revision
        && chars_lt(b.revision_device_id, a.revision_device_id))
}

/// The version of a category: its logical revision and the device that made it.
pub fn category_order(v: &CategoryRecord) -> (r: (i64, &str))
    ensures
        r.0 == v.logical_revision,
        r.1@ == v.revision_device_id@,
{
    (v.logical_revision, v.revision_device_id.as_str())
}

/// Whether `incoming` supersedes `old`.
pub fn category_newer(incoming: &CategoryRecord, old: &CategoryRecord) -> (r: bool)
    ensures
        r == category_supersedes(incoming@, old@),
{
    let (a_rev, a_dev) = category_order(incoming);
    let (b_rev, b_dev) = category_order(old);
    if a_rev != b_rev {
        a_rev > b_rev
    } else {
        compare_str(b_dev, a_dev) == Rank::Before
    }
}

/// The table built from `s` in order, a later category replacing an earlier
/// one with the same sync id.
pub open spec fn category_table(s: Seq<CategoryView>) -> Map<Key, CategoryView>
    decreases s.len(),
{
    if s.len() == 0 {
        Map::empty()
    } else {
        category_table(s.drop_last()).insert(category_key(s.last()), s.last())
    }
}

/// Offering `c` to table `m`: it is stored when no category with its sync id
/// is there or when it supersedes the stored one.
pub open spec fn category_offer(m: Map<Key, CategoryView>, c: CategoryView) -> Map<Key, CategoryView> {
    let k = category_key(c);
    if !m.contains_key(k) || category_supersedes(c, m[k]) {
        m.insert(k, c)
    } else {
        m
    }
}

/// The table of `left`, then each category of `right` offered in turn.
pub open spec fn category_merge(left: Seq<CategoryView>, right: Seq<CategoryView>) -> Map<Key, CategoryView>
    decreases right.len(),
{
    if right.len() == 0 {
        category_table(left)
    } else {
        category_offer(category_merge(left, right.drop_last()), right.last())
    }
}

fn locate_category(out: &Vec<CategoryRecord>, id: &str) -> (p: usize)
    requires
        crate::order::sorted_by(category_views(out@), category_key_fn()),
    ensures
        insertion_point(category_views(out@), category_key_fn(), (id@, 0int), p as int),
{
    let mut p: usize = 0;
    while p < out.len()
        invariant
            p <= out.len(),
            forall|j: int| 0 <= j < p ==> key_lt(#[trigger] category_key(category_views(out@)[j]), (id@, 0int)),
        ensures
            p <= out.len(),
            forall|j: int| 0 <= j < p ==> key_lt(#[trigger] category_key(category_views(out@)[j]), (id@, 0int)),
            p < out.len() ==> !key_lt(category_key(category_views(out@)[p as int]), (id@, 0int)),
        decreases out.len() - p,
    {
        assert(category_views(out@)[p as int] == out@[p as int]@);
        match compare_key(out[p].sync_id.as_str(), 0, id, 0) {
            Rank::Before => {},
            _ => {
                break ;
            },
        }
        p = p + 1;
    }
    p
}

/// Stores `c` in the sorted table `out` at its insertion point `p`.
fn store_category(out: &mut Vec<CategoryRecord>, c: &CategoryRecord, p: usize, Ghost(m): Ghost<Map<Key, CategoryView>>)
    requires
        represents(category_views(old(out)@), m, category_key_fn()),
        insertion_point(category_views(old(out)@), category_key_fn(), category_key(c@), p as int),
    ensures
        represents(category_views(final(out)@), m.insert(category_key(c@), c@), category_key_fn()),
{
    let ghost v = category_views(out@);
    proof {
        lemma_represents_lookup(v, m, category_key_fn(), category_key(c@), p as int);
    }
    if p < out.len() && out[p].sync_id == c.sync_id {
        assert(out@[p as int]@ == v[p as int]);
        out.set(p, c.copy());
        proof {
            assert(category_views(out@) =~= v.update(p as int, c@));
            lemma_represents_update(v, m, category_key_fn(), c@, p as int);
        }
    } else {
        proof {
            if p < out.len() {
                assert(out@[p as int]@ == v[p as int]);
            }
        }
        out.insert(p, c.copy());
        proof {
            assert(category_views(out@) =~= v.insert(p as int, c@));
            lemma_represents_insert(v, m, category_key_fn(), c@, p as int);
        }
    }
}

/// Merges categories by sync id: the categories of `left` (a later entry
/// replacing an earlier one with the same id), then each of `right`, which
/// replaces a stored category only when it supersedes it. The result is
/// sorted by sync id.
pub fn merge_categories(left: &[CategoryRecord], right: &[CategoryRecord]) -> (r: Vec<CategoryRecord>)
    ensures
        represents(category_views(r@), category_merge(category_views(left@), category_views(right@)), category_key_fn()),
{
    let ghost lv = category_views(left@);
    let ghost rv = category_views(right@);
    let mut out: Vec<CategoryRecord> = Vec::new();
    proof {
        assert(category_views(out@) =~= Seq::<CategoryView>::empty());
        assert(lv.take(0) =~= Seq::<CategoryView>::empty());
    }
    let mut i: usize = 0;
    while i < left.len()
        invariant
            lv == category_views(left@),
            i <= left.len(),
            represents(category_views(out@), category_table(lv.take(i as int)), category_key_fn()),
        decreases left.len() - i,
    {
        let p = locate_category(&out, left[i].sync_id.as_str());
        assert(category_key(left@[i as int]@) == (left@[i as int].sync_id@, 0int));
        store_category(&mut out, &left[i], p, Ghost(category_table(lv.take(i as int))));
        proof {
            assert(lv.take(i + 1).drop_last() =~= lv.take(i as int));
            assert(lv.take(i + 1).last() == left@[i as int]@);
        }
        i = i + 1;
    }
    proof {
        assert(lv.take(i as int) =~= lv);
        assert(rv.take(0) =~= Seq::<CategoryView>::empty());
    }
    let mut j: usize = 0;
    while j < right.len()
        invariant
            lv == category_views(left@),
            rv == category_views(right@),
            j <= right.len(),
            represents(category_views(out@), category_merge(lv, rv.take(j as int)), category_key_fn()),
        decreases right.len() - j,
    {
        let c = &right[j];
        let p = locate_category(&out, c.sync_id.as_str());
        let ghost v = category_views(out@);
        let ghost m = category_merge(lv, rv.take(j as int));
        proof {
            assert(category_key(c@) == (c.sync_id@, 0int));
            lemma_represents_lookup(v, m, category_key_fn(), category_key(c@), p as int);
            assert(rv.take(j + 1).drop_last() =~= rv.take(j as int));
            assert(rv.take(j + 1).last() == c@);
            if p < out.len() {
                assert(out@[p as int]@ == v[p as int]);
            }
        }
        let found = p < out.len() && out[p].sync_id == c.sync_id;
        if !found || category_newer(c, &out[p]) {
            store_category(&mut out, c, p, Ghost(m));
        }
        j = j + 1;
    }
    proof {
        assert(rv.take(j as int) =~= rv);
    }
    out
}


/// No two entries of `s` share a key.
pub open spec fn keys_unique<T>(s: Seq<T>, key: spec_fn(T) -> Key) -> bool {
    forall|i: int, j: int| 0 <= i < s.len() && 0 <= j < s.len() && i != j ==> key(#[trigger] s[i]) != key(#[trigger] s[j])
}

/// Categories of `a` and `b` with the same sync id of which neither
/// supersedes the other are identical.
pub open spec fn categories_consistent(a: Seq<CategoryView>, b: Seq<CategoryView>) -> bool {
    forall|i: int, j: int|
        0 <= i < a.len() && 0 <= j < b.len() && category_key(#[trigger] a[i]) == category_key(#[trigger] b[j])
            && !category_supersedes(a[i], b[j]) && !category_supersedes(b[j], a[i]) ==> a[i] == b[j]
}

/// For each sync id, the category of `a` or of `b`, the one of `b` only when
/// it supersedes the one of `a`.
pub open spec fn category_join(a: Map<Key, CategoryView>, b: Map<Key, CategoryView>) -> Map<Key, CategoryView> {
    Map::new(
        |k: Key| a.contains_key(k) || b.contains_key(k),
        |k: Key|
            if !a.contains_key(k) {
                b[k]
            } else if !b.contains_key(k) {
                a[k]
            } else if category_supersedes(b[k], a[k]) {
                b[k]
            } else {
                a[k]
            },
    )
}

proof fn lemma_category_table_dom(s: Seq<CategoryView>)
    ensures
        forall|k: Key| #[trigger] category_table(s).contains_key(k) <==> exists|i: int| 0 <= i < s.len() && category_key(s[i]) == k,
    decreases s.len(),
{
    if s.len() > 0 {
        let t = s.drop_last();
        lemma_category_table_dom(t);
        assert forall|k: Key| #[trigger] category_table(s).contains_key(k) <==> exists|i: int| 0 <= i < s.len() && category_key(s[i]) == k by {
            if category_table(t).contains_key(k) {
                let i = choose|i: int| 0 <= i < t.len() && category_key(t[i]) == k;
                assert(s[i] == t[i]);
            }
            if exists|i: int| 0 <= i < s.len() && category_key(s[i]) == k {
                let i = choose|i: int| 0 <= i < s.len() && category_key(s[i]) == k;
                if i < t.len() {
                    assert(t[i] == s[i]);
                }
            }
        }
    }
}

proof fn lemma_category_merge_join(l: Seq<CategoryView>, r: Seq<CategoryView>)
    requires
        keys_unique(r, category_key_fn()),
    ensures
        category_merge(l, r) == category_join(category_table(l), category_table(r)),
    decreases r.len(),
{
    let tl = category_table(l);
    if r.len() == 0 {
        assert(category_merge(l, r) =~= category_join(tl, category_table(r)));
    } else {
        let r1 = r.drop_last();
        let x = r.last();
        assert forall|i: int, j: int| 0 <= i < r1.len() && 0 <= j < r1.len() && i != j implies category_key(#[trigger] r1[i]) != category_key(#[trigger] r1[j]) by {
            assert(r1[i] == r[i] && r1[j] == r[j]);
        }
        lemma_category_merge_join(l, r1);
        lemma_category_table_dom(r1);
        let k = category_key(x);
        assert(!category_table(r1).contains_key(k)) by {
            if category_table(r1).contains_key(k) {
                let i = choose|i: int| 0 <= i < r1.len() && category_key(r1[i]) == k;
                assert(r[i] == r1[i]);
                assert(category_key(r[i]) != category_key(r[r.len() - 1]));
            }
        }
        assert(category_merge(l, r) =~= category_join(tl, category_table(r)));
    }
}

/// Category merging converges: when neither side repeats a sync id and
/// categories that neither supersedes agree, merging `a` into `b` and `b`
/// into `a` give the same table, and so the same sorted result.
pub proof fn law_merge_categories_converges(
    a: Seq<CategoryView>,
    b: Seq<CategoryView>,
    ab: Seq<CategoryView>,
    ba: Seq<CategoryView>,
)
    requires
        keys_unique(a, category_key_fn()),
        keys_unique(b, category_key_fn()),
        categories_consistent(a, b),
        represents(ab, category_merge(a, b), category_key_fn()),
        represents(ba, category_merge(b, a), category_key_fn()),
    ensures
        category_merge(a, b) == category_merge(b, a),
        ab == ba,
{
    lemma_chars_lt_order();
    lemma_category_merge_join(a, b);
    lemma_category_merge_join(b, a);
    let ta = category_table(a);
    let tb = category_table(b);
    lemma_category_table_dom(a);
    lemma_category_table_dom(b);
    lemma_category_table_values(a);
    lemma_category_table_values(b);
    assert forall|k: Key| ta.contains_key(k) && tb.contains_key(k) implies (category_supersedes(tb[k], ta[k])
        || category_supersedes(ta[k], tb[k]) || ta[k] == tb[k]) by {
        let i = choose|i: int| 0 <= i < a.len() && category_key(a[i]) == k;
        let j = choose|j: int| 0 <= j < b.len() && category_key(b[j]) == k;
        assert(ta[k] == a[i]);
        assert(tb[k] == b[j]);
    }
    assert(category_join(ta, tb) =~= category_join(tb, ta));
    lemma_represents_unique(ab, ba, category_merge(a, b), category_key_fn());
}

proof fn lemma_category_table_values(s: Seq<CategoryView>)
    requires
        keys_unique(s, category_key_fn()),
    ensures
        forall|i: int| #![trigger s[i]] 0 <= i < s.len() ==> category_table(s).contains_key(category_key(s[i])) && category_table(s)[category_key(s[i])] == s[i],
    decreases s.len(),
{
    if s.len() > 0 {
        let t = s.drop_last();
        assert forall|i: int, j: int| 0 <= i < t.len() && 0 <= j < t.len() && i != j implies category_key(#[trigger] t[i]) != category_key(#[trigger] t[j]) by {
            assert(t[i] == s[i] && t[j] == s[j]);
        }
        lemma_category_table_values(t);
        assert forall|i: int| #![trigger s[i]] 0 <= i < s.len() implies category_table(s).contains_key(category_key(s[i])) && category_table(s)[category_key(s[i])] == s[i] by {
            if i < t.len() {
                assert(category_table(t).contains_key(category_key(t[i])));
                assert(t[i] == s[i]);
                assert(category_key(s[i]) != category_key(s[s.len() - 1]));
            }
        }
    }
}


/// Two tables disagree: some id is in both with equal revisions but
/// different content.
pub open spec fn device_tables_clash(a: Map<Key, DeviceView>, b: Map<Key, DeviceView>) -> bool {
    exists|k: Key|
        #[trigger] a.contains_key(k) && #[trigger] b.contains_key(k) && a[k].metadata_revision
            == b[k].metadata_revision && a[k] != b[k]
}

/// For each id, the device of `a` or of `b` with the higher revision, the
/// one of `b` on a tie; no table when the two clash.
pub open spec fn device_join(a: Map<Key, DeviceView>, b: Map<Key, DeviceView>) -> Option<Map<Key, DeviceView>> {
    if device_tables_clash(a, b) {
        None
    } else {
        Some(
            Map::new(
                |k: Key| a.contains_key(k) || b.contains_key(k),
                |k: Key|
                    if !a.contains_key(k) {
                        b[k]
                    } else if !b.contains_key(k) {
                        a[k]
                    } else if a[k].metadata_revision > b[k].metadata_revision {
                        a[k]
                    } else {
                        b[k]
                    },
            ),
        )
    }
}

proof fn lemma_device_table_dom(s: Seq<DeviceView>)
    ensures
        forall|k: Key| #[trigger] device_table(s).contains_key(k) <==> exists|i: int| 0 <= i < s.len() && device_key(s[i]) == k,
    decreases s.len(),
{
    if s.len() > 0 {
        let t = s.drop_last();
        lemma_device_table_dom(t);
        assert forall|k: Key| #[trigger] device_table(s).contains_key(k) <==> exists|i: int| 0 <= i < s.len() && device_key(s[i]) == k by {
            if device_table(t).contains_key(k) {
                let i = choose|i: int| 0 <= i < t.len() && device_key(t[i]) == k;
                assert(s[i] == t[i]);
            }
            if exists|i: int| 0 <= i < s.len() && device_key(s[i]) == k {
                let i = choose|i: int| 0 <= i < s.len() && device_key(s[i]) == k;
                if i < t.len() {
                    assert(t[i] == s[i]);
                }
            }
        }
    }
}

proof fn lemma_device_merge_join(l: Seq<DeviceView>, r: Seq<DeviceView>)
    requires
        keys_unique(r, device_key_fn()),
    ensures
        device_merge(l, r) == device_join(device_table(l), device_table(r)),
    decreases r.len(),
{
    let tl = device_table(l);
    if r.len() == 0 {
        assert(!device_tables_clash(tl, device_table(r)));
        assert(device_merge(l, r).unwrap() =~= device_join(tl, device_table(r)).unwrap());
    } else {
        let r1 = r.drop_last();
        let x = r.last();
        assert forall|i: int, j: int| 0 <= i < r1.len() && 0 <= j < r1.len() && i != j implies device_key(#[trigger] r1[i]) != device_key(#[trigger] r1[j]) by {
            assert(r1[i] == r[i] && r1[j] == r[j]);
        }
        lemma_device_merge_join(l, r1);
        lemma_device_table_dom(r1);
        let k = device_key(x);
        let t1 = device_table(r1);
        let t = device_table(r);
        assert(t == t1.insert(k, x));
        assert(!t1.contains_key(k)) by {
            if t1.contains_key(k) {
                let i = choose|i: int| 0 <= i < r1.len() && device_key(r1[i]) == k;
                assert(r[i] == r1[i]);
                assert(device_key(r[i]) != device_key(r[r.len() - 1]));
            }
        }
        if device_tables_clash(tl, t1) {
            let c = choose|c: Key| #[trigger] tl.contains_key(c) && #[trigger] t1.contains_key(c) && tl[c].metadata_revision
                == t1[c].metadata_revision && tl[c] != t1[c];
            assert(t.contains_key(c) && t[c] == t1[c]);
            assert(device_tables_clash(tl, t));
        } else {
            let m = device_join(tl, t1).unwrap();
            if tl.contains_key(k) && tl[k].metadata_revision == x.metadata_revision && tl[k] != x {
                assert(m.contains_key(k) && m[k] == tl[k]);
                assert(t.contains_key(k) && t[k] == x);
                assert(device_tables_clash(tl, t));
            } else {
                assert(!device_tables_clash(tl, t)) by {
                    if device_tables_clash(tl, t) {
                        let c = choose|c: Key| #[trigger] tl.contains_key(c) && #[trigger] t.contains_key(c) && tl[c].metadata_revision
                            == t[c].metadata_revision && tl[c] != t[c];
                        if c != k {
                            assert(t1.contains_key(c) && t1[c] == t[c]);
                        }
                    }
                }
                if tl.contains_key(k) && tl[k].metadata_revision > x.metadata_revision {
                    assert(m =~= device_join(tl, t).unwrap());
                } else {
                    assert(m.insert(k, x) =~= device_join(tl, t).unwrap());
                }
            }
        }
    }
}

/// Device merging converges: when neither side repeats a device id, merging
/// `a` into `b` and `b` into `a` fail together or give the same table, and
/// so the same sorted result.
pub proof fn law_merge_devices_converges(a: Seq<DeviceView>, b: Seq<DeviceView>)
    requires
        keys_unique(a, device_key_fn()),
        keys_unique(b, device_key_fn()),
    ensures
        device_merge(a, b) == device_merge(b, a),
        forall|ab: Seq<DeviceView>, ba: Seq<DeviceView>|
            device_merge(a, b) is Some && #[trigger] represents(ab, device_merge(a, b).unwrap(), device_key_fn())
                && #[trigger] represents(ba, device_merge(b, a).unwrap(), device_key_fn()) ==> ab == ba,
{
    lemma_device_merge_join(a, b);
    lemma_device_merge_join(b, a);
    let ta = device_table(a);
    let tb = device_table(b);
    assert(device_tables_clash(ta, tb) == device_tables_clash(tb, ta)) by {
        if device_tables_clash(ta, tb) {
            let c = choose|c: Key| #[trigger] ta.contains_key(c) && #[trigger] tb.contains_key(c) && ta[c].metadata_revision
                == tb[c].metadata_revision && ta[c] != tb[c];
            assert(tb.contains_key(c) && ta.contains_key(c));
        }
        if device_tables_clash(tb, ta) {
            let c = choose|c: Key| #[trigger] tb.contains_key(c) && #[trigger] ta.contains_key(c) && tb[c].metadata_revision
                == ta[c].metadata_revision && tb[c] != ta[c];
            assert(tb.contains_key(c) && ta.contains_key(c));
        }
    }
    if !device_tables_clash(ta, tb) {
        assert(device_join(ta, tb).unwrap() =~= device_join(tb, ta).unwrap()) by {
            assert forall|k: Key| ta.contains_key(k) && tb.contains_key(k) implies ta[k].metadata_revision != tb[k].metadata_revision || ta[k] == tb[k] by {
            }
        }
    }
    assert forall|ab: Seq<DeviceView>, ba: Seq<DeviceView>|
        device_merge(a, b) is Some && #[trigger] represents(ab, device_merge(a, b).unwrap(), device_key_fn())
            && #[trigger] represents(ba, device_merge(b, a).unwrap(), device_key_fn()) implies ab == ba by {
        lemma_represents_unique(ab, ba, device_merge(a, b).unwrap(), device_key_fn());
    }
}

/// Two tables disagree: some key is in both with equal revisions but
/// different content.
pub open spec fn app_tables_clash(a: Map<Key, AppMetadataView>, b: Map<Key, AppMetadataView>) -> bool {
    exists|k: Key|
        #[trigger] a.contains_key(k) && #[trigger] b.contains_key(k) && a[k].metadata_revision
            == b[k].metadata_revision && a[k] != b[k]
}

/// For each key, the application of `a` or of `b` with the higher revision, the
/// one of `b` on a tie; no table when the two clash.
pub open spec fn app_join(a: Map<Key, AppMetadataView>, b: Map<Key, AppMetadataView>) -> Option<Map<Key, AppMetadataView>> {
    if app_tables_clash(a, b) {
        None
    } else {
        Some(
            Map::new(
                |k: Key| a.contains_key(k) || b.contains_key(k),
                |k: Key|
                    if !a.contains_key(k) {
                        b[k]
                    } else if !b.contains_key(k) {
                        a[k]
                    } else if a[k].metadata_revision > b[k].metadata_revision {
                        a[k]
                    } else {
                        b[k]
                    },
            ),
        )
    }
}

proof fn lemma_app_table_dom(s: Seq<AppMetadataView>)
    ensures
        forall|k: Key| #[trigger] app_table(s).contains_key(k) <==> exists|i: int| 0 <= i < s.len() && app_key(s[i]) == k,
    decreases s.len(),
{
    if s.len() > 0 {
        let t = s.drop_last();
        lemma_app_table_dom(t);
        assert forall|k: Key| #[trigger] app_table(s).contains_key(k) <==> exists|i: int| 0 <= i < s.len() && app_key(s[i]) == k by {
            if app_table(t).contains_key(k) {
                let i = choose|i: int| 0 <= i < t.len() && app_key(t[i]) == k;
                assert(s[i] == t[i]);
            }
            if exists|i: int| 0 <= i < s.len() && app_key(s[i]) == k {
                let i = choose|i: int| 0 <= i < s.len() && app_key(s[i]) == k;
                if i < t.len() {
                    assert(t[i] == s[i]);
                }
            }
        }
    }
}

proof fn lemma_app_merge_join(l: Seq<AppMetadataView>, r: Seq<AppMetadataView>)
    requires
        keys_unique(r, app_key_fn()),
    ensures
        app_merge(l, r) == app_join(app_table(l), app_table(r)),
    decreases r.len(),
{
    let tl = app_table(l);
    if r.len() == 0 {
        assert(!app_tables_clash(tl, app_table(r)));
        assert(app_merge(l, r).unwrap() =~= app_join(tl, app_table(r)).unwrap());
    } else {
        let r1 = r.drop_last();
        let x = r.last();
        assert forall|i: int, j: int| 0 <= i < r1.len() && 0 <= j < r1.len() && i != j implies app_key(#[trigger] r1[i]) != app_key(#[trigger] r1[j]) by {
            assert(r1[i] == r[i] && r1[j] == r[j]);
        }
        lemma_app_merge_join(l, r1);
        lemma_app_table_dom(r1);
        let k = app_key(x);
        let t1 = app_table(r1);
        let t = app_table(r);
        assert(t == t1.insert(k, x));
        assert(!t1.contains_key(k)) by {
            if t1.contains_key(k) {
                let i = choose|i: int| 0 <= i < r1.len() && app_key(r1[i]) == k;
                assert(r[i] == r1[i]);
                assert(app_key(r[i]) != app_key(r[r.len() - 1]));
            }
        }
        if app_tables_clash(tl, t1) {
            let c = choose|c: Key| #[trigger] tl.contains_key(c) && #[trigger] t1.contains_key(c) && tl[c].metadata_revision
                == t1[c].metadata_revision && tl[c] != t1[c];
            assert(t.contains_key(c) && t[c] == t1[c]);
            assert(app_tables_clash(tl, t));
        } else {
            let m = app_join(tl, t1).unwrap();
            if tl.contains_key(k) && tl[k].metadata_revision == x.metadata_revision && tl[k] != x {
                assert(m.contains_key(k) && m[k] == tl[k]);
                assert(t.contains_key(k) && t[k] == x);
                assert(app_tables_clash(tl, t));
            } else {
                assert(!app_tables_clash(tl, t)) by {
                    if app_tables_clash(tl, t) {
                        let c = choose|c: Key| #[trigger] tl.contains_key(c) && #[trigger] t.contains_key(c) && tl[c].metadata_revision
                            == t[c].metadata_revision && tl[c] != t[c];
                        if c != k {
                            assert(t1.contains_key(c) && t1[c] == t[c]);
                        }
                    }
                }
                if tl.contains_key(k) && tl[k].metadata_revision > x.metadata_revision {
                    assert(m =~= app_join(tl, t).unwrap());
                } else {
                    assert(m.insert(k, x) =~= app_join(tl, t).unwrap());
                }
            }
        }
    }
}

/// Application metadata merging converges: when neither side repeats a key, merging
/// `a` into `b` and `b` into `a` fail together or give the same table, and
/// so the same sorted result.
pub proof fn law_merge_apps_converges(a: Seq<AppMetadataView>, b: Seq<AppMetadataView>)
    requires
        keys_unique(a, app_key_fn()),
        keys_unique(b, app_key_fn()),
    ensures
        app_merge(a, b) == app_merge(b, a),
        forall|ab: Seq<AppMetadataView>, ba: Seq<AppMetadataView>|
            app_merge(a, b) is Some && #[trigger] represents(ab, app_merge(a, b).unwrap(), app_key_fn())
                && #[trigger] represents(ba, app_merge(b, a).unwrap(), app_key_fn()) ==> ab == ba,
{
    lemma_app_merge_join(a, b);
    lemma_app_merge_join(b, a);
    let ta = app_table(a);
    let tb = app_table(b);
    assert(app_tables_clash(ta, tb) == app_tables_clash(tb, ta)) by {
        if app_tables_clash(ta, tb) {
            let c = choose|c: Key| #[trigger] ta.contains_key(c) && #[trigger] tb.contains_key(c) && ta[c].metadata_revision
                == tb[c].metadata_revision && ta[c] != tb[c];
            assert(tb.contains_key(c) && ta.contains_key(c));
        }
        if app_tables_clash(tb, ta) {
            let c = choose|c: Key| #[trigger] tb.contains_key(c) && #[trigger] ta.contains_key(c) && tb[c].metadata_revision
                == ta[c].metadata_revision && tb[c] != ta[c];
            assert(tb.contains_key(c) && ta.contains_key(c));
        }
    }
    if !app_tables_clash(ta, tb) {
        assert(app_join(ta, tb).unwrap() =~= app_join(tb, ta).unwrap()) by {
            assert forall|k: Key| ta.contains_key(k) && tb.contains_key(k) implies ta[k].metadata_revision != tb[k].metadata_revision || ta[k] == tb[k] by {
            }
        }
    }
    assert forall|ab: Seq<AppMetadataView>, ba: Seq<AppMetadataView>|
        app_merge(a, b) is Some && #[trigger] represents(ab, app_merge(a, b).unwrap(), app_key_fn())
            && #[trigger] represents(ba, app_merge(b, a).unwrap(), app_key_fn()) implies ab == ba by {
        lemma_represents_unique(ab, ba, app_merge(a, b).unwrap(), app_key_fn());
    }
}

} // verus!
