//! Which entries of the shared metadata are written into the local
//! database: a category when it supersedes the stored one, a device or an
//! application of another device when its revision is newer.

use vstd::prelude::*;
use crate::error::{format_error, SyncError, SyncErrorView};
use crate::records::{AppMetadataRecord, CategoryRecord, DeviceRecord};
use crate::text::{chars_lt, chars_of, compare_str, lemma_chars_lt_order, Rank};

verus! {

/// Whether a shared category replaces the stored one, whose revision and
/// revising device are `current`: always when none is stored, else when
/// `(logical_revision, revision_device_id)` is the greater pair.
pub open spec fn category_applies_spec(rev: i64, dev: Seq<char>, current: Option<(i64, Seq<char>)>) -> bool {
    match current {
        None => true,
        Some((r, d)) => rev > r || (rev == r && chars_lt(d, dev)),
    }
}

/// Whether the shared `category` is written over the stored one.
pub fn category_applies(category: &CategoryRecord, current: Option<(i64, &str)>) -> (r: bool)
    ensures
        r == category_applies_spec(category.logical_revision, category.revision_device_id@,
            match current { Some((a, b)) => Some((a, b@)), None => None }),
{
    match current {
        None => true,
        Some((rev, dev)) => {
            if category.logical_revision != rev {
                category.logical_revision > rev
            } else {
                compare_str(dev, category.revision_device_id.as_str()) == Rank::Before
            }
        },
    }
}

/// Whether a shared device entry is written over the stored revision
/// `current`: never this device's own, and otherwise when none is stored or
/// its revision is newer.
pub open spec fn device_applies_spec(device_id: Seq<char>, revision: i64, local_id: Seq<char>, current: Option<i64>) -> bool {
    device_id != local_id && match current {
        None => true,
        Some(rev) => revision > rev,
    }
}

/// Whether a shared device entry is written.
pub fn device_applies(device: &DeviceRecord, local_id: &str, current_revision: Option<i64>) -> (r: bool)
    ensures
        r == device_applies_spec(device.device_id@, device.metadata_revision, local_id@, current_revision),
{
    if device.device_id == local_id.to_owned() {
        return false;
    }
    match current_revision {
        None => true,
        Some(rev) => device.metadata_revision > rev,
    }
}

/// ASCII lowercase of one character; other characters are unchanged.
pub open spec fn ascii_lower(c: char) -> char {
    if 'A' <= c <= 'Z' {
        ((c as u32) + 32) as char
    } else {
        c
    }
}

/// Two texts that are equal up to ASCII case (`str::eq_ignore_ascii_case`).
pub open spec fn eq_ignore_ascii_case_spec(a: Seq<char>, b: Seq<char>) -> bool {
    a.len() == b.len() && forall|i: int| 0 <= i < a.len() ==> ascii_lower(#[trigger] a[i]) == ascii_lower(b[i])
}

fn lower_char(c: char) -> (r: char)
    ensures
        r == ascii_lower(c),
{
    if 'A' <= c && c <= 'Z' {
        char_from_ascii((c as u32) + 32)
    } else {
        c
    }
}

fn char_from_ascii(n: u32) -> (r: char)
    requires
        0x41 + 32 <= n <= 0x5A + 32,
    ensures
        r == n as char,
{
    let b = n as u8;
    let r = b as char;
    assert(r == n as char);
    r
}

/// Whether two strings are equal up to ASCII case.
pub fn eq_ignore_ascii_case(a: &str, b: &str) -> (r: bool)
    ensures
        r == eq_ignore_ascii_case_spec(a@, b@),
{
    let x = chars_of(a);
    let y = chars_of(b);
    if x.len() != y.len() {
        return false;
    }
    let mut i: usize = 0;
    while i < x.len()
        invariant
            x@ == a@,
            y@ == b@,
            x.len() == y.len(),
            i <= x.len(),
            forall|k: int| 0 <= k < i ==> ascii_lower(#[trigger] a@[k]) == ascii_lower(b@[k]),
        decreases x.len() - i,
    {
        if lower_char(x[i]) != lower_char(y[i]) {
            return false;
        }
        i = i + 1;
    }
    true
}

/// What happens to a shared application entry: `Ok(true)` when it is
/// written, `Ok(false)` when it is skipped (an app of this device, or an
/// entry not newer than the stored one), and an error when the stored entry
/// with the same key names another process (up to ASCII case).
pub open spec fn app_decision(
    origin: Seq<char>,
    process: Seq<char>,
    revision: i64,
    local_id: Seq<char>,
    existing: Option<(i64, Seq<char>)>,
) -> Result<bool, SyncErrorView> {
    if origin == local_id {
        Ok(false)
    } else {
        match existing {
            None => Ok(true),
            Some((rev, stored)) => if !eq_ignore_ascii_case_spec(stored, process) {
                Err(SyncErrorView::Format("同一来源应用标识对应了不同进程名"@))
            } else {
                Ok(revision > rev)
            },
        }
    }
}

/// Decides whether a shared application entry is written over the stored
/// one, whose revision and process name are `existing`.
pub fn app_applies(app: &AppMetadataRecord, local_id: &str, existing: Option<(i64, &str)>) -> (r: Result<bool, SyncError>)
    ensures
        match r {
            Ok(b) => app_decision(app.origin_device_id@, app.process_name@, app.metadata_revision, local_id@,
                match existing { Some((a, p)) => Some((a, p@)), None => None }) == Ok::<bool, SyncErrorView>(b),
            Err(e) => app_decision(app.origin_device_id@, app.process_name@, app.metadata_revision, local_id@,
                match existing { Some((a, p)) => Some((a, p@)), None => None }) == Err::<bool, SyncErrorView>(e@),
        },
{
    if app.origin_device_id == local_id.to_owned() {
        return Ok(false);
    }
    match existing {
        None => Ok(true),
        Some((rev, process)) => {
            if !eq_ignore_ascii_case(process, app.process_name.as_str()) {
                return Err(format_error("同一来源应用标识对应了不同进程名"));
            }
            Ok(app.metadata_revision > rev)
        },
    }
}

/// Shared metadata never replaces this device's own entries: its device
/// entry and the entries of applications first seen on it are kept as
/// stored, whatever their revisions.
pub proof fn law_local_metadata_is_kept(
    local_id: Seq<char>,
    device_revision: i64,
    current: Option<i64>,
    process: Seq<char>,
    app_revision: i64,
    existing: Option<(i64, Seq<char>)>,
)
    ensures
        !device_applies_spec(local_id, device_revision, local_id, current),
        app_decision(local_id, process, app_revision, local_id, existing) == Ok::<bool, SyncErrorView>(false),
{
}

/// Writing a shared category into the local store and merging shared
/// category lists pick the same version: the one with the greater
/// `(logical_revision, revision_device_id)`.
pub proof fn law_category_apply_agrees_with_merge(incoming: crate::records::CategoryView, stored: crate::records::CategoryView)
    ensures
        category_applies_spec(incoming.logical_revision, incoming.revision_device_id,
            Some((stored.logical_revision, stored.revision_device_id)))
            == crate::merge_meta::category_supersedes(incoming, stored),
{
}

/// Applying shared metadata twice changes nothing the second time: once a
/// category, a device entry or an application entry has been written, the
/// stored revision (and revising device, and process name) are the shared
/// entry's own, and the same entry is then skipped.
pub proof fn law_apply_is_idempotent(
    category_revision: i64,
    category_device: Seq<char>,
    device_id: Seq<char>,
    device_revision: i64,
    origin: Seq<char>,
    process: Seq<char>,
    app_revision: i64,
    local_id: Seq<char>,
)
    ensures
        !category_applies_spec(category_revision, category_device, Some((category_revision, category_device))),
        !device_applies_spec(device_id, device_revision, local_id, Some(device_revision)),
        app_decision(origin, process, app_revision, local_id, Some((app_revision, process)))
            == Ok::<bool, SyncErrorView>(false),
{
    lemma_chars_lt_order();
    assert(!chars_lt(category_device, category_device));
    assert(eq_ignore_ascii_case_spec(process, process));
}

} // verus!
