//! The synchronisable facts and metadata records exchanged between devices,
//! with their abstract views, keys and exact copies.

use vstd::prelude::*;
use crate::order::Key;

verus! {

/// One immutable usage fact: `origin_device_id` used `process_name` from
/// `start_utc` to `end_utc`; `(origin_device_id, segment_sequence)` is unique.
#[derive(Debug, Clone, PartialEq, Eq)]
pub struct SegmentRecord {
    pub origin_device_id: String,
    pub segment_sequence: i64,
    pub origin_app_id: i64,
    pub process_name: String,
    pub start_utc: i64,
    pub end_utc: i64,
    pub source_local_date: i64,
    pub utc_offset_minutes: i32,
}

pub struct SegmentView {
    pub origin_device_id: Seq<char>,
    pub segment_sequence: i64,
    pub origin_app_id: i64,
    pub process_name: Seq<char>,
    pub start_utc: i64,
    pub end_utc: i64,
    pub source_local_date: i64,
    pub utc_offset_minutes: i32,
}

impl View for SegmentRecord {
    type V = SegmentView;

    open spec fn view(&self) -> SegmentView {
        SegmentView {
            origin_device_id: self.origin_device_id@,
            segment_sequence: self.segment_sequence,
            origin_app_id: self.origin_app_id,
            process_name: self.process_name@,
            start_utc: self.start_utc,
            end_utc: self.end_utc,
            source_local_date: self.source_local_date,
            utc_offset_minutes: self.utc_offset_minutes,
        }
    }
}

/// A segment is keyed by its origin device and its sequence number there.
pub open spec fn segment_key(s: SegmentView) -> Key {
    (s.origin_device_id, s.segment_sequence as int)
}

pub open spec fn segment_views(s: Seq<SegmentRecord>) -> Seq<SegmentView> {
    s.map_values(|r: SegmentRecord| r@)
}

impl SegmentRecord {
    /// An exact copy.
    pub fn copy(&self) -> (r: Self)
        ensures
            r@ == self@,
    {
        SegmentRecord {
            origin_device_id: self.origin_device_id.clone(),
            segment_sequence: self.segment_sequence,
            origin_app_id: self.origin_app_id,
            process_name: self.process_name.clone(),
            start_utc: self.start_utc,
            end_utc: self.end_utc,
            source_local_date: self.source_local_date,
            utc_offset_minutes: self.utc_offset_minutes,
        }
    }

    /// Whether every field of the two records is equal.
    pub fn same_as(&self, other: &Self) -> (r: bool)
        ensures
            r == (self@ == other@),
    {
        self.origin_device_id == other.origin_device_id
            && self.segment_sequence == other.segment_sequence
            && self.origin_app_id == other.origin_app_id
            && self.process_name == other.process_name
            && self.start_utc == other.start_utc
            && self.end_utc == other.end_utc
            && self.source_local_date == other.source_local_date
            && self.utc_offset_minutes == other.utc_offset_minutes
    }
}

/// The metadata of one device: its name, versioned by `metadata_revision`.
#[derive(Debug, Clone, PartialEq, Eq)]
pub struct DeviceRecord {
    pub device_id: String,
    pub display_name: String,
    pub metadata_revision: i64,
}

pub struct DeviceView {
    pub device_id: Seq<char>,
    pub display_name: Seq<char>,
    pub metadata_revision: i64,
}

impl View for DeviceRecord {
    type V = DeviceView;

    open spec fn view(&self) -> DeviceView {
        DeviceView {
            device_id: self.device_id@,
            display_name: self.display_name@,
            metadata_revision: self.metadata_revision,
        }
    }
}

pub open spec fn device_key(d: DeviceView) -> Key {
    (d.device_id, 0)
}

pub open spec fn device_views(s: Seq<DeviceRecord>) -> Seq<DeviceView> {
    s.map_values(|r: DeviceRecord| r@)
}

impl DeviceRecord {
    /// An exact copy.
    pub fn copy(&self) -> (r: Self)
        ensures
            r@ == self@,
    {
        DeviceRecord {
            device_id: self.device_id.clone(),
            display_name: self.display_name.clone(),
            metadata_revision: self.metadata_revision,
        }
    }

    /// Whether every field of the two records is equal.
    pub fn same_as(&self, other: &Self) -> (r: bool)
        ensures
            r == (self@ == other@),
    {
        self.device_id == other.device_id && self.display_name == other.display_name
            && self.metadata_revision == other.metadata_revision
    }
}

/// The metadata of one application as its origin device describes it.
#[derive(Debug, Clone, PartialEq, Eq)]
pub struct AppMetadataRecord {
    pub origin_device_id: String,
    pub origin_app_id: i64,
    pub process_name: String,
    pub system_display_name: Option<String>,
    pub custom_alias: Option<String>,
    pub category_sync_id: Option<String>,
    pub is_ignored: bool,
    pub metadata_revision: i64,
}

pub struct AppMetadataView {
    pub origin_device_id: Seq<char>,
    pub origin_app_id: i64,
    pub process_name: Seq<char>,
    pub system_display_name: Option<Seq<char>>,
    pub custom_alias: Option<Seq<char>>,
    pub category_sync_id: Option<Seq<char>>,
    pub is_ignored: bool,
    pub metadata_revision: i64,
}

/// The characters of an optional string.
pub open spec fn opt_chars(o: Option<String>) -> Option<Seq<char>> {
    match o {
        Some(s) => Some(s@),
        None => None,
    }
}

/// Whether two optional strings are equal.
pub fn opt_str_eq(a: &Option<String>, b: &Option<String>) -> (r: bool)
    ensures
        r == (opt_chars(*a) == opt_chars(*b)),
{
    match (a, b) {
        (Some(x), Some(y)) => *x == *y,
        (None, None) => true,
        _ => false,
    }
}

/// An exact copy of an optional string.
pub fn opt_str_copy(a: &Option<String>) -> (r: Option<String>)
    ensures
        opt_chars(r) == opt_chars(*a),
{
    match a {
        Some(x) => Some(x.clone()),
        None => None,
    }
}

impl View for AppMetadataRecord {
    type V = AppMetadataView;

    open spec fn view(&self) -> AppMetadataView {
        AppMetadataView {
            origin_device_id: self.origin_device_id@,
            origin_app_id: self.origin_app_id,
            process_name: self.process_name@,
            system_display_name: opt_chars(self.system_display_name),
            custom_alias: opt_chars(self.custom_alias),
            category_sync_id: opt_chars(self.category_sync_id),
            is_ignored: self.is_ignored,
            metadata_revision: self.metadata_revision,
        }
    }
}

/// An application is keyed by its origin device and its id there.
pub open spec fn app_key(a: AppMetadataView) -> Key {
    (a.origin_device_id, a.origin_app_id as int)
}

pub open spec fn app_views(s: Seq<AppMetadataRecord>) -> Seq<AppMetadataView> {
    s.map_values(|r: AppMetadataRecord| r@)
}

impl AppMetadataRecord {
    /// An exact copy.
    pub fn copy(&self) -> (r: Self)
        ensures
            r@ == self@,
    {
        AppMetadataRecord {
            origin_device_id: self.origin_device_id.clone(),
            origin_app_id: self.origin_app_id,
            process_name: self.process_name.clone(),
            system_display_name: opt_str_copy(&self.system_display_name),
            custom_alias: opt_str_copy(&self.custom_alias),
            category_sync_id: opt_str_copy(&self.category_sync_id),
            is_ignored: self.is_ignored,
            metadata_revision: self.metadata_revision,
        }
    }

    /// Whether every field of the two records is equal.
    pub fn same_as(&self, other: &Self) -> (r: bool)
        ensures
            r == (self@ == other@),
    {
        self.origin_device_id == other.origin_device_id
            && self.origin_app_id == other.origin_app_id
            && self.process_name == other.process_name
            && opt_str_eq(&self.system_display_name, &other.system_display_name)
            && opt_str_eq(&self.custom_alias, &other.custom_alias)
            && opt_str_eq(&self.category_sync_id, &other.category_sync_id)
            && self.is_ignored == other.is_ignored
            && self.metadata_revision == other.metadata_revision
    }
}

/// A user-defined category, versioned by `(logical_revision, revision_device_id)`.
#[derive(Debug, Clone, PartialEq, Eq)]
pub struct CategoryRecord {
    pub sync_id: String,
    pub name: String,
    pub color: Option<String>,
    pub rules: Option<String>,
    pub logical_revision: i64,
    pub revision_device_id: String,
    pub is_deleted: bool,
}

pub struct CategoryView {
    pub sync_id: Seq<char>,
    pub name: Seq<char>,
    pub color: Option<Seq<char>>,
    pub rules: Option<Seq<char>>,
    pub logical_revision: i64,
    pub revision_device_id: Seq<char>,
    pub is_deleted: bool,
}

impl View for CategoryRecord {
    type V = CategoryView;

    open spec fn view(&self) -> CategoryView {
        CategoryView {
            sync_id: self.sync_id@,
            name: self.name@,
            color: opt_chars(self.color),
            rules: opt_chars(self.rules),
            logical_revision: self.logical_revision,
            revision_device_id: self.revision_device_id@,
            is_deleted: self.is_deleted,
        }
    }
}

pub open spec fn category_key(c: CategoryView) -> Key {
    (c.sync_id, 0)
}

pub open spec fn category_views(s: Seq<CategoryRecord>) -> Seq<CategoryView> {
    s.map_values(|r: CategoryRecord| r@)
}

impl CategoryRecord {
    /// An exact copy.
    pub fn copy(&self) -> (r: Self)
        ensures
            r@ == self@,
    {
        CategoryRecord {
            sync_id: self.sync_id.clone(),
            name: self.name.clone(),
            color: opt_str_copy(&self.color),
            rules: opt_str_copy(&self.rules),
            logical_revision: self.logical_revision,
            revision_device_id: self.revision_device_id.clone(),
            is_deleted: self.is_deleted,
        }
    }

    /// Whether every field of the two records is equal.
    pub fn same_as(&self, other: &Self) -> (r: bool)
        ensures
            r == (self@ == other@),
    {
        self.sync_id == other.sync_id && self.name == other.name
            && opt_str_eq(&self.color, &other.color)
            && opt_str_eq(&self.rules, &other.rules)
            && self.logical_revision == other.logical_revision
            && self.revision_device_id == other.revision_device_id
            && self.is_deleted == other.is_deleted
    }
}

} // verus!
