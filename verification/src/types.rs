//! The values the user interface reads and sends, the tracker's settings and
//! the process a foreground window belongs to.

use vstd::prelude::*;
use crate::numbers::{parse_u64, parse_u64_spec};
use crate::service::SyncStatus;

verus! {

/// Today's usage at a glance.
#[derive(Debug, Clone)]
pub struct TodaySummary {
    pub total_seconds: i64,
    pub most_used_app: Option<String>,
    pub idle_seconds: i64,
    pub app_count: i64,
}

/// The application in the foreground and how long it has been there.
#[derive(Debug, Clone)]
pub struct CurrentSession {
    pub process_name: String,
    pub display_name: Option<String>,
    pub start_timestamp: i64,
    pub current_duration: i64,
}

/// One application in the application list.
#[derive(Debug, Clone)]
pub struct AppItem {
    pub id: i64,
    pub process_name: String,
    pub display_name: Option<String>,
    pub executable_path: Option<String>,
    pub icon_path: Option<String>,
    pub total_seconds: i64,
    pub category_name: Option<String>,
    pub category_color: Option<String>,
    pub last_used_date: Option<i64>,
    pub is_ignored: bool,
    pub origin_device_id: String,
    pub device_name: String,
    pub is_current_device: bool,
}

/// A category as the settings page shows it.
#[derive(Debug, Clone)]
pub struct CategoryItem {
    pub id: i64,
    pub name: String,
    pub color: Option<String>,
    pub rules: Option<String>,
}

/// One axis of the category radar chart.
#[derive(Debug, Clone)]
pub struct RadarPoint {
    pub name: String,
    pub value: i64,
    pub color: Option<String>,
}

/// One slice of the category pie chart.
#[derive(Debug, Clone)]
pub struct PieSlice {
    pub name: String,
    pub value: i64,
    pub color: Option<String>,
}

/// Totals over a range of days.
#[derive(Debug, Clone)]
pub struct StatsSummary {
    pub total_seconds: i64,
    pub most_active_category: Option<String>,
    pub most_active_app: Option<String>,
    pub daily_average: i64,
}

/// What the user enters to set up synchronisation.
#[derive(Debug, Clone)]
pub struct SyncSetupInput {
    pub endpoint: String,
    pub username: String,
    pub webdav_password: String,
    pub directory: Option<String>,
    pub sync_password: String,
    pub sync_password_confirm: String,
    pub device_name: String,
    pub allow_insecure_http: bool,
}

/// What setting up synchronisation found.
#[derive(Debug, Clone)]
pub struct SyncSetupResult {
    pub joined_existing: bool,
    pub insecure_http: bool,
    pub concurrency_mode: String,
}

/// A device of the sync space.
#[derive(Debug, Clone)]
pub struct DeviceItem {
    pub device_id: String,
    pub display_name: String,
    pub is_current: bool,
}

/// One recorded synchronisation run.
#[derive(Debug, Clone)]
pub struct SyncHistoryItem {
    pub created_at: i64,
    pub year: i32,
    pub success: bool,
    pub uploaded_bytes: i64,
    pub downloaded_bytes: i64,
    pub imported_segments: i64,
    pub duration_ms: i64,
    pub error_summary: Option<String>,
}

/// Everything the sync settings page shows.
#[derive(Debug, Clone)]
pub struct SyncOverview {
    pub configured: bool,
    pub insecure_http: bool,
    pub concurrency_mode: Option<String>,
    pub current_device_id: String,
    pub current_device_name: String,
    pub devices: Vec<DeviceItem>,
    pub years: Vec<i32>,
    pub last_success_at: Option<i64>,
    pub history: Vec<SyncHistoryItem>,
    pub status: SyncStatus,
}

/// The process that owns a foreground window.
#[derive(Debug, Clone)]
pub struct ProcessInfo {
    pub pid: u32,
    pub name: String,
    pub display_name: Option<String>,
    pub path: String,
}

/// The flush interval used when none (or no valid one) is stored: 15 minutes.
pub const DEFAULT_FLUSH_INTERVAL_SECS: u64 = 900;

/// The tracker's settings.
#[derive(Debug, Clone, Copy, PartialEq, Eq, Structural)]
pub struct Config {
    /// How often, in seconds, the current segment is written at the latest;
    /// it is also the idle time after which a segment is dropped.
    pub flush_interval_secs: u64,
}

impl Default for Config {
    fn default() -> (r: Self)
        ensures
            r.flush_interval_secs == DEFAULT_FLUSH_INTERVAL_SECS,
    {
        Config { flush_interval_secs: DEFAULT_FLUSH_INTERVAL_SECS }
    }
}

/// The flush interval a stored value gives: a `u64` as stored, or else the
/// default.
pub open spec fn flush_interval_from(value: Option<Seq<char>>) -> u64 {
    match value {
        Some(v) => match parse_u64_spec(v) {
            Some(n) => n,
            None => DEFAULT_FLUSH_INTERVAL_SECS,
        },
        None => DEFAULT_FLUSH_INTERVAL_SECS,
    }
}

impl Config {
    /// The idle time, in milliseconds, after which a segment is dropped: the
    /// flush interval.
    pub fn idle_threshold_ms(&self) -> (r: u64)
        requires
            self.flush_interval_secs * 1000 <= u64::MAX,
        ensures
            r == self.flush_interval_secs * 1000,
    {
        self.flush_interval_secs * 1000
    }

    /// The settings from the stored flush interval, if one is stored.
    pub fn from_stored(value: Option<&str>) -> (r: Config)
        ensures
            r.flush_interval_secs == flush_interval_from(match value { Some(v) => Some(v@), None => None }),
    {
        let n = match value {
            Some(v) => match parse_u64(v) {
                Some(n) => n,
                None => DEFAULT_FLUSH_INTERVAL_SECS,
            },
            None => DEFAULT_FLUSH_INTERVAL_SECS,
        };
        Config { flush_interval_secs: n }
    }
}

} // verus!
