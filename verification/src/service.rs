//! The decisions of a synchronisation run: its status, when a conflict is
//! retried, how the shared metadata is combined with this device's own, and
//! how the list of yearly packages is kept.

use vstd::prelude::*;
use vstd::string::StringExecFns;
use crate::crypto::key_from;
use crate::encoding::{base64_decode, base64_decoding, base64_encode, base64_encoding, decimal_string, decimal_text};
use crate::error::{format_error, message_text, SyncError, SyncErrorView};
use crate::merge_meta::{
    app_key_fn, app_merge, device_key_fn, device_merge, merge_apps, merge_devices,
};
use crate::order::represents;
use crate::package::{package_views, PackageDescriptor, PackageView};
use crate::records::{app_views, device_views, AppMetadataRecord, AppMetadataView, DeviceRecord, DeviceView};
use crate::webdav::{ConcurrencyMode, RemoteFile};

verus! {

/// The sync settings kept on this device. Credentials and master key are
/// kept as the operating system protected them (base64 of the protected
/// bytes); protecting and unprotecting is the operating system's work.
#[derive(Debug, Clone)]
pub struct StoredSyncConfig {
    pub endpoint: String,
    pub directory: Option<String>,
    pub protected_credentials: String,
    pub protected_master_key: String,
    pub concurrency: ConcurrencyMode,
}

impl StoredSyncConfig {
    /// Keeps the protected credentials and master key (as base64) with the
    /// endpoint, directory and concurrency mode.
    pub fn new(
        endpoint: String,
        directory: Option<String>,
        protected_credentials: &[u8],
        protected_master_key: &[u8],
        concurrency: ConcurrencyMode,
    ) -> (r: Result<Self, SyncError>)
        ensures
            r is Ok <==> (protected_credentials@.len() <= usize::MAX / 2 && protected_master_key@.len()
                <= usize::MAX / 2),
            r matches Ok(c) ==> c.endpoint == endpoint && c.directory == directory && c.concurrency
                == concurrency && c.protected_credentials@ == base64_encoding(protected_credentials@)
                && c.protected_master_key@ == base64_encoding(protected_master_key@),
            r matches Err(e) ==> e@ == SyncErrorView::Format("本机同步凭据格式错误"@),
    {
        if protected_credentials.len() > usize::MAX / 2 || protected_master_key.len() > usize::MAX / 2 {
            return Err(format_error("本机同步凭据格式错误"));
        }
        Ok(StoredSyncConfig {
            endpoint,
            directory,
            protected_credentials: base64_encode(protected_credentials),
            protected_master_key: base64_encode(protected_master_key),
            concurrency,
        })
    }

    /// The credentials as the operating system protected them.
    pub fn protected_credential_bytes(&self) -> (r: Result<Vec<u8>, SyncError>)
        ensures
            match base64_decoding(self.protected_credentials@) {
                Some(b) => r matches Ok(v) && v@ == b,
                None => r matches Err(e) && e@ == SyncErrorView::Format("本机同步凭据格式错误"@),
            },
    {
        match base64_decode(self.protected_credentials.as_str()) {
            Some(v) => Ok(v),
            None => Err(format_error("本机同步凭据格式错误")),
        }
    }

    /// The master key as the operating system protected it.
    pub fn protected_master_key_bytes(&self) -> (r: Result<Vec<u8>, SyncError>)
        ensures
            match base64_decoding(self.protected_master_key@) {
                Some(b) => r matches Ok(v) && v@ == b,
                None => r matches Err(e) && e@ == SyncErrorView::Format("本机主密钥格式错误"@),
            },
    {
        match base64_decode(self.protected_master_key.as_str()) {
            Some(v) => Ok(v),
            None => Err(format_error("本机主密钥格式错误")),
        }
    }
}

/// The unprotected master key; it must be 32 bytes long.
pub fn master_key_from(key: &[u8]) -> (r: Result<[u8; 32], SyncError>)
    ensures
        key@.len() == 32 ==> (r matches Ok(k) && k@ == key@),
        key@.len() != 32 ==> (r matches Err(e) && e@ == SyncErrorView::Format("本机主密钥长度错误"@)),
{
    if key.len() != 32 {
        return Err(format_error("本机主密钥长度错误"));
    }
    Ok(key_from(key))
}

/// The step a synchronisation run is at.
#[derive(Debug, Clone, Copy, PartialEq, Eq, Structural)]
pub enum SyncPhase {
    Idle,
    Checkpoint,
    Download,
    Decrypt,
    Merge,
    Upload,
    Complete,
    Failed,
    Cancelled,
}

/// What the user sees of synchronisation.
#[derive(Debug, Clone)]
pub struct SyncStatus {
    pub running: bool,
    pub phase: SyncPhase,
    pub year: Option<i32>,
    pub message: Option<String>,
}

impl Default for SyncStatus {
    fn default() -> (r: Self)
        ensures
            !r.running && r.phase == SyncPhase::Idle && r.year is None && r.message is None,
    {
        SyncStatus { running: false, phase: SyncPhase::Idle, year: None, message: None }
    }
}

/// What a completed run did.
#[derive(Debug, Clone, Copy, PartialEq, Eq, Structural)]
pub struct SyncRunResult {
    pub imported_segments: usize,
    pub downloaded_bytes: u64,
    pub uploaded_bytes: u64,
    pub duration_ms: u64,
}

/// Starts a run for `year`: refused while another one is running, otherwise
/// the status becomes running, at the checkpoint phase, for that year.
pub fn begin_run(status: &SyncStatus, year: i32) -> (r: Result<SyncStatus, SyncError>)
    ensures
        status.running ==> (r matches Err(e) && e@ == SyncErrorView::Format("已有同步任务正在运行"@)),
        !status.running ==> (r matches Ok(s) && s.running && s.phase == SyncPhase::Checkpoint
            && s.year == Some(year) && s.message is None),
{
    if status.running {
        return Err(format_error("已有同步任务正在运行"));
    }
    Ok(SyncStatus { running: true, phase: SyncPhase::Checkpoint, year: Some(year), message: None })
}

/// How many times a run is tried again after a conflict.
pub const MAX_CONFLICT_RETRIES: u32 = 2;

/// Whether an attempt is repeated: only after a conflict, and only while
/// fewer than two retries were made.
pub fn retry_after(outcome: &Result<SyncRunResult, SyncError>, retries: u32) -> (r: bool)
    ensures
        r <==> (outcome matches Err(e) && e@ == SyncErrorView::Conflict && retries < MAX_CONFLICT_RETRIES),
{
    match outcome {
        Err(SyncError::Conflict) => retries < MAX_CONFLICT_RETRIES,
        _ => false,
    }
}

/// The status after a run: no longer running, and complete, cancelled (with
/// its message) or failed (with the error's message). The year is kept.
pub fn finish_run(status: &SyncStatus, outcome: &Result<SyncRunResult, SyncError>) -> (r: SyncStatus)
    ensures
        !r.running,
        r.year == status.year,
        match outcome {
            Ok(_) => r.phase == SyncPhase::Complete && r.message is None,
            Err(e) => match e@ {
                SyncErrorView::Cancelled => r.phase == SyncPhase::Cancelled && (r.message matches Some(m) && m@ == "同步已取消"@),
                _ => r.phase == SyncPhase::Failed && (r.message matches Some(m) && m@ == message_text(e@)),
            },
        },
{
    match outcome {
        Ok(_) => SyncStatus { running: false, phase: SyncPhase::Complete, year: status.year, message: None },
        Err(SyncError::Cancelled) => SyncStatus {
            running: false,
            phase: SyncPhase::Cancelled,
            year: status.year,
            message: Some("同步已取消".to_owned()),
        },
        Err(e) => SyncStatus { running: false, phase: SyncPhase::Failed, year: status.year, message: Some(e.message()) },
    }
}

/// The name of a year's package file.
pub open spec fn package_file_text(year: i32) -> Seq<char> {
    decimal_text(year as int) + ".tracer-sync"@
}

/// The name of a year's package file, `{year}.tracer-sync`.
pub fn package_file_name(year: i32) -> (r: String)
    ensures
        r@ == package_file_text(year),
{
    let y = decimal_string(year as i64);
    y.concat(".tracer-sync")
}

/// The name of the manifest file.
pub open spec fn manifest_file_text() -> Seq<char> {
    "manifest.tracer"@
}

/// Whether a file of the sync directory belongs to the sync space: the
/// manifest or a yearly package.
pub open spec fn is_sync_file_text(name: Seq<char>) -> bool {
    name == manifest_file_text() || ".tracer-sync"@.is_suffix_of(name)
}

/// Whether a listed file is removed when the space is reset.
pub fn is_sync_file(name: &str) -> (r: bool)
    ensures
        r == is_sync_file_text(name@),
{
    proof {
        reveal_strlit("manifest.tracer");
        reveal_strlit(".tracer-sync");
    }
    if name.to_owned() == "manifest.tracer".to_owned() {
        return true;
    }
    let v = crate::text::chars_of(name);
    let suffix = crate::text::chars_of(".tracer-sync");
    if v.len() < suffix.len() {
        return false;
    }
    let off = v.len() - suffix.len();
    let mut i: usize = 0;
    while i < suffix.len()
        invariant
            v@ == name@,
            suffix@ == ".tracer-sync"@,
            name@ != manifest_file_text(),
            off == v.len() - suffix.len(),
            i <= suffix.len(),
            forall|k: int| 0 <= k < i ==> v@[off + k] == suffix@[k],
        decreases suffix.len() - i,
    {
        if v[off + i] != suffix[i] {
            proof {
                if ".tracer-sync"@.is_suffix_of(name@) {
                    assert(name@.subrange(off as int, name@.len() as int) == ".tracer-sync"@);
                    assert(name@.subrange(off as int, name@.len() as int)[i as int] == name@[off + i]);
                }
            }
            return false;
        }
        i = i + 1;
    }
    assert(name@.subrange(off as int, name@.len() as int) =~= ".tracer-sync"@);
    true
}

/// Whether the server's copy of a file is still the one read before:
/// both absent, or both present with the same bytes.
pub open spec fn unchanged_spec(before: Option<Seq<u8>>, after: Option<Seq<u8>>) -> bool {
    match (before, after) {
        (None, None) => true,
        (Some(a), Some(b)) => a == b,
        _ => false,
    }
}

pub open spec fn file_bytes(f: Option<RemoteFile>) -> Option<Seq<u8>> {
    match f {
        Some(v) => Some(v.bytes@),
        None => None,
    }
}

fn same_bytes(a: &Vec<u8>, b: &Vec<u8>) -> (r: bool)
    ensures
        r == (a@ == b@),
{
    if a.len() != b.len() {
        return false;
    }
    let mut i: usize = 0;
    while i < a.len()
        invariant
            a.len() == b.len(),
            i <= a.len(),
            forall|k: int| 0 <= k < i ==> a@[k] == b@[k],
        decreases a.len() - i,
    {
        if a[i] != b[i] {
            return false;
        }
        i = i + 1;
    }
    assert(a@ =~= b@);
    true
}

/// Whether a file is as it was when first read (the check before writing
/// when the server offers no concurrency control).
pub fn remote_unchanged(before: &Option<RemoteFile>, after: &Option<RemoteFile>) -> (r: bool)
    ensures
        r == unchanged_spec(file_bytes(*before), file_bytes(*after)),
{
    match (before, after) {
        (None, None) => true,
        (Some(a), Some(b)) => same_bytes(&a.bytes, &b.bytes),
        _ => false,
    }
}

/// A re-read file counts as unchanged exactly when it is still absent, or
/// still present with every byte the same, whatever its length; a file that
/// appeared or disappeared has changed.
pub proof fn law_unchanged_is_byte_equality(before: RemoteFile, after: RemoteFile)
    ensures
        unchanged_spec(file_bytes(Some(before)), file_bytes(Some(after))) <==> before.bytes@ == after.bytes@,
        unchanged_spec(file_bytes(Some(before)), file_bytes(Some(after))) ==> (forall|i: int|
            0 <= i < before.bytes@.len() ==> before.bytes@[i] == after.bytes@[i]) && before.bytes@.len()
            == after.bytes@.len(),
        (exists|i: int| 0 <= i < before.bytes@.len() && i < after.bytes@.len() && before.bytes@[i] != after.bytes@[i])
            ==> !unchanged_spec(file_bytes(Some(before)), file_bytes(Some(after))),
        unchanged_spec(file_bytes(None), file_bytes(None)),
        !unchanged_spec(file_bytes(Some(before)), file_bytes(None)),
        !unchanged_spec(file_bytes(None), file_bytes(Some(after))),
{
}

/// The entity tag a write must match: the one read, in entity-tag mode only.
pub fn expected_etag(mode: ConcurrencyMode, read: &Option<RemoteFile>) -> (r: Option<String>)
    ensures
        mode != ConcurrencyMode::Etag ==> r is None,
        mode == ConcurrencyMode::Etag ==> match *read {
            Some(f) => match f.etag {
                Some(t) => r matches Some(x) && x@ == t@,
                None => r is None,
            },
            None => r is None,
        },
{
    if mode != ConcurrencyMode::Etag {
        return None;
    }
    match read {
        Some(f) => match &f.etag {
            Some(t) => Some(t.clone()),
            None => None,
        },
        None => None,
    }
}

/// The index of the first package of `year`.
pub fn find_package(packages: &[PackageDescriptor], year: i32) -> (r: Option<usize>)
    ensures
        match r {
            Some(i) => i < packages@.len() && packages@[i as int].year == year
                && forall|k: int| 0 <= k < i ==> packages@[k].year != year,
            None => forall|k: int| 0 <= k < packages@.len() ==> packages@[k].year != year,
        },
{
    let mut i: usize = 0;
    while i < packages.len()
        invariant
            i <= packages@.len(),
            forall|k: int| 0 <= k < i ==> packages@[k].year != year,
        decreases packages.len() - i,
    {
        if packages[i].year == year {
            return Some(i);
        }
        i = i + 1;
    }
    None
}

/// The packages of `year`, in order.
pub open spec fn of_year(s: Seq<PackageView>, year: i32) -> Seq<PackageView> {
    s.filter(|p: PackageView| p.year == year)
}

/// The packages of other years than `year`, in order.
pub open spec fn not_of_year(s: Seq<PackageView>, year: i32) -> Seq<PackageView> {
    s.filter(|p: PackageView| p.year != year)
}

/// Ordered by year, the packages of each year keeping their relative order:
/// what a stable sort by year gives.
pub open spec fn stably_sorted_by_year(input: Seq<PackageView>, output: Seq<PackageView>) -> bool {
    &&& forall|i: int, j: int| 0 <= i <= j < output.len() ==> output[i].year <= output[j].year
    &&& forall|y: i32| #[trigger] of_year(output, y) == of_year(input, y)
}

proof fn lemma_filter_year_push(s: Seq<PackageView>, x: PackageView, y: i32)
    ensures
        of_year(s.push(x), y) == (if x.year == y {
            of_year(s, y).push(x)
        } else {
            of_year(s, y)
        }),
{
    s.lemma_filter_push(x, |p: PackageView| p.year == y);
}

proof fn lemma_filter_year_add(a: Seq<PackageView>, b: Seq<PackageView>, y: i32)
    ensures
        of_year((a + b), y) == of_year(a, y) + of_year(b, y),
{
    Seq::filter_distributes_over_add(a, b, |p: PackageView| p.year == y);
}

proof fn lemma_filter_year_none(s: Seq<PackageView>, y: i32)
    requires
        forall|k: int| 0 <= k < s.len() ==> s[k].year != y,
    ensures
        of_year(s, y) == Seq::<PackageView>::empty(),
{
    s.lemma_all_neg_filter_empty(|p: PackageView| p.year == y);
}

/// Inserts `d` after every package of its year or an earlier one, keeping
/// `out` ordered by year.
fn insert_by_year(out: &mut Vec<PackageDescriptor>, d: PackageDescriptor)
    requires
        forall|i: int, j: int| 0 <= i <= j < old(out)@.len() ==> old(out)@[i].year <= old(out)@[j].year,
    ensures
        forall|i: int, j: int| 0 <= i <= j < final(out)@.len() ==> final(out)@[i].year <= final(out)@[j].year,
        forall|y: i32| #[trigger] of_year(package_views(final(out)@), y)
            == (if d.year == y {
                of_year(package_views(old(out)@), y).push(d@)
            } else {
                of_year(package_views(old(out)@), y)
            }),
{
    let ghost before = package_views(out@);
    let mut p: usize = out.len();
    while p > 0 && out[p - 1].year > d.year
        invariant
            p <= out@.len(),
            out@ == old(out)@,
            forall|k: int| p <= k < out@.len() ==> out@[k].year > d.year,
        decreases p,
    {
        p = p - 1;
    }
    let ghost year = d.year;
    let ghost dv = d@;
    out.insert(p, d);
    proof {
        let a = before.subrange(0, p as int);
        let b = before.subrange(p as int, before.len() as int);
        assert(before =~= a + b);
        assert(package_views(out@) =~= a.push(dv) + b);
        assert forall|y: i32| #[trigger] of_year(package_views(out@), y)
            == (if year == y {
                of_year(before, y).push(dv)
            } else {
                of_year(before, y)
            }) by {
            lemma_filter_year_add(a.push(dv), b, y);
            lemma_filter_year_add(a, b, y);
            lemma_filter_year_push(a, dv, y);
            if year == y {
                assert forall|k: int| 0 <= k < b.len() implies b[k].year != y by {
                    assert(b[k] == before[p + k]);
                    assert(out@[p + 1 + k].year > year);
                }
                lemma_filter_year_none(b, y);
                assert(of_year(b, y) =~= Seq::<PackageView>::empty());
                assert(of_year(a, y).push(dv) + Seq::<PackageView>::empty()
                    =~= of_year(a, y).push(dv));
                assert(of_year(a, y) + Seq::<PackageView>::empty()
                    =~= of_year(a, y));
            }
        }
        assert forall|i: int, j: int| 0 <= i <= j < out@.len() implies out@[i].year <= out@[j].year by {
            if j == p as int && i < j {
                assert(old(out)@[i].year <= d.year || true);
            }
        }
    }
}

/// Sorts packages by year, keeping the order of packages of the same year
/// (`sort_by_key` on the year).
pub fn sort_packages_by_year(packages: Vec<PackageDescriptor>) -> (r: Vec<PackageDescriptor>)
    ensures
        stably_sorted_by_year(package_views(packages@), package_views(r@)),
{
    let mut out: Vec<PackageDescriptor> = Vec::new();
    let mut i: usize = 0;
    let ghost input = package_views(packages@);
    while i < packages.len()
        invariant
            input == package_views(packages@),
            i <= packages@.len(),
            forall|a: int, b: int| 0 <= a <= b < out@.len() ==> out@[a].year <= out@[b].year,
            forall|y: i32| #[trigger] of_year(package_views(out@), y)
                == of_year(input.take(i as int), y),
        decreases packages.len() - i,
    {
        let d = packages[i].copy();
        insert_by_year(&mut out, d);
        proof {
            assert(input.take(i + 1) =~= input.take(i as int).push(input[i as int]));
            assert forall|y: i32| #[trigger] of_year(package_views(out@), y)
                == of_year(input.take(i + 1), y) by {
                lemma_filter_year_push(input.take(i as int), input[i as int], y);
            }
        }
        i = i + 1;
    }
    assert(input.take(i as int) =~= input);
    out
}

/// Replaces the package of the descriptor's year: drops every package of
/// that year, adds the descriptor and sorts stably by year.
pub fn upsert_package(packages: Vec<PackageDescriptor>, descriptor: PackageDescriptor) -> (r: Vec<PackageDescriptor>)
    ensures
        stably_sorted_by_year(
            not_of_year(package_views(packages@), descriptor.year).push(descriptor@),
            package_views(r@),
        ),
{
    let ghost input = package_views(packages@);
    let ghost year = descriptor.year;
    let mut kept: Vec<PackageDescriptor> = Vec::new();
    let mut i: usize = 0;
    while i < packages.len()
        invariant
            input == package_views(packages@),
            year == descriptor.year,
            i <= packages@.len(),
            package_views(kept@) == not_of_year(input.take(i as int), year),
        decreases packages.len() - i,
    {
        if packages[i].year != descriptor.year {
            kept.push(packages[i].copy());
        }
        proof {
            assert(input.take(i + 1) =~= input.take(i as int).push(input[i as int]));
            input.take(i as int).lemma_filter_push(input[i as int], |p: PackageView| p.year != year);
            assert(package_views(kept@) =~= not_of_year(input.take(i + 1), year));
        }
        i = i + 1;
    }
    assert(input.take(i as int) =~= input);
    let ghost dv = descriptor@;
    kept.push(descriptor);
    assert(package_views(kept@) =~= not_of_year(input, year).push(dv));
    sort_packages_by_year(kept)
}

proof fn lemma_of_year_not_of_year(s: Seq<PackageView>, y: i32, other: i32)
    ensures
        of_year(not_of_year(s, y), other) == (if other == y { Seq::<PackageView>::empty() } else { of_year(s, other) }),
    decreases s.len(),
{
    if s.len() == 0 {
        assert(not_of_year(s, y) =~= Seq::<PackageView>::empty());
        assert(of_year(Seq::<PackageView>::empty(), other) =~= Seq::<PackageView>::empty());
        assert(of_year(s, other) =~= Seq::<PackageView>::empty());
    } else {
        let p = s.drop_last();
        let x = s.last();
        assert(s =~= p.push(x));
        lemma_of_year_not_of_year(p, y, other);
        p.lemma_filter_push(x, |q: PackageView| q.year != y);
        lemma_filter_year_push(p, x, other);
        if x.year != y {
            lemma_filter_year_push(not_of_year(p, y), x, other);
        }
    }
}

/// After a package is stored for a year, the list holds exactly that one
/// package for the year, and the packages of every other year as they were.
pub proof fn law_upsert_replaces_only_its_year(packages: Seq<PackageView>, d: PackageView, out: Seq<PackageView>)
    requires
        stably_sorted_by_year(not_of_year(packages, d.year).push(d), out),
    ensures
        of_year(out, d.year) == seq![d],
        forall|y: i32| y != d.year ==> #[trigger] of_year(out, y) == of_year(packages, y),
{
    let input = not_of_year(packages, d.year).push(d);
    assert(of_year(out, d.year) == of_year(input, d.year));
    lemma_filter_year_push(not_of_year(packages, d.year), d, d.year);
    lemma_of_year_not_of_year(packages, d.year, d.year);
    assert(Seq::<PackageView>::empty().push(d) =~= seq![d]);
    assert forall|y: i32| y != d.year implies #[trigger] of_year(out, y) == of_year(packages, y) by {
        assert(of_year(out, y) == of_year(input, y));
        lemma_filter_year_push(not_of_year(packages, d.year), d, y);
        lemma_of_year_not_of_year(packages, d.year, y);
    }
}

/// The shared devices after a merge, with this device's own entries taken
/// from its local list: the merged entries of other devices, then the local
/// entries of this device.
pub open spec fn with_local_devices(merged: Seq<DeviceView>, local: Seq<DeviceView>, id: Seq<char>) -> Seq<DeviceView> {
    merged.filter(|d: DeviceView| d.device_id != id) + local.filter(|d: DeviceView| d.device_id == id)
}

/// Merges the shared device list with the local one, then keeps this
/// device's entries only as the local list has them.
pub fn combine_devices(shared: &[DeviceRecord], local: &[DeviceRecord], local_id: &str) -> (r: Result<Vec<DeviceRecord>, SyncError>)
    ensures
        match r {
            Ok(v) => device_merge(device_views(shared@), device_views(local@)) matches Some(m)
                && exists|merged: Seq<DeviceView>| #[trigger] represents(merged, m, device_key_fn())
                    && device_views(v@) == with_local_devices(merged, device_views(local@), local_id@),
            Err(e) => device_merge(device_views(shared@), device_views(local@)) is None
                && e@ == SyncErrorView::Format(crate::merge_meta::device_conflict_message()),
        },
{
    let merged = match merge_devices(shared, local) {
        Ok(v) => v,
        Err(e) => {
            return Err(e);
        },
    };
    let id = local_id.to_owned();
    let ghost mv = device_views(merged@);
    let ghost lv = device_views(local@);
    let ghost idv = local_id@;
    let mut out: Vec<DeviceRecord> = Vec::new();
    let mut i: usize = 0;
    while i < merged.len()
        invariant
            mv == device_views(merged@),
            id@ == idv,
            i <= merged@.len(),
            device_views(out@) == mv.take(i as int).filter(|d: DeviceView| d.device_id != idv),
        decreases merged.len() - i,
    {
        if merged[i].device_id != id {
            out.push(merged[i].copy());
        }
        proof {
            assert(mv.take(i + 1) =~= mv.take(i as int).push(mv[i as int]));
            mv.take(i as int).lemma_filter_push(mv[i as int], |d: DeviceView| d.device_id != idv);
            assert(device_views(out@) =~= mv.take(i + 1).filter(|d: DeviceView| d.device_id != idv));
        }
        i = i + 1;
    }
    assert(mv.take(i as int) =~= mv);
    let ghost first = device_views(out@);
    let mut j: usize = 0;
    while j < local.len()
        invariant
            lv == device_views(local@),
            id@ == idv,
            j <= local@.len(),
            device_views(out@) == first + lv.take(j as int).filter(|d: DeviceView| d.device_id == idv),
        decreases local.len() - j,
    {
        if local[j].device_id == id {
            out.push(local[j].copy());
        }
        proof {
            assert(lv.take(j + 1) =~= lv.take(j as int).push(lv[j as int]));
            lv.take(j as int).lemma_filter_push(lv[j as int], |d: DeviceView| d.device_id == idv);
            let f = lv.take(j as int).filter(|d: DeviceView| d.device_id == idv);
            assert((first + f).push(lv[j as int]) =~= first + f.push(lv[j as int]));
            assert(device_views(out@) =~= first + lv.take(j + 1).filter(|d: DeviceView| d.device_id == idv));
        }
        j = j + 1;
    }
    assert(lv.take(j as int) =~= lv);
    assert(device_views(out@) == with_local_devices(mv, lv, idv));
    Ok(out)
}

/// The shared application entries after a merge, with the entries of apps
/// first seen on this device taken from its local list.
pub open spec fn with_local_apps(merged: Seq<AppMetadataView>, local: Seq<AppMetadataView>, id: Seq<char>) -> Seq<AppMetadataView> {
    merged.filter(|a: AppMetadataView| a.origin_device_id != id) + local.filter(|a: AppMetadataView| a.origin_device_id == id)
}

/// Merges the shared application metadata with the local one, then keeps the
/// entries of this device's apps only as the local list has them.
pub fn combine_apps(shared: &[AppMetadataRecord], local: &[AppMetadataRecord], local_id: &str) -> (r: Result<Vec<AppMetadataRecord>, SyncError>)
    ensures
        match r {
            Ok(v) => app_merge(app_views(shared@), app_views(local@)) matches Some(m)
                && exists|merged: Seq<AppMetadataView>| #[trigger] represents(merged, m, app_key_fn())
                    && app_views(v@) == with_local_apps(merged, app_views(local@), local_id@),
            Err(e) => app_merge(app_views(shared@), app_views(local@)) is None
                && e@ == SyncErrorView::Format(crate::merge_meta::app_conflict_message()),
        },
{
    let merged = match merge_apps(shared, local) {
        Ok(v) => v,
        Err(e) => {
            return Err(e);
        },
    };
    let id = local_id.to_owned();
    let ghost mv = app_views(merged@);
    let ghost lv = app_views(local@);
    let ghost idv = local_id@;
    let mut out: Vec<AppMetadataRecord> = Vec::new();
    let mut i: usize = 0;
    while i < merged.len()
        invariant
            mv == app_views(merged@),
            id@ == idv,
            i <= merged@.len(),
            app_views(out@) == mv.take(i as int).filter(|a: AppMetadataView| a.origin_device_id != idv),
        decreases merged.len() - i,
    {
        if merged[i].origin_device_id != id {
            out.push(merged[i].copy());
        }
        proof {
            assert(mv.take(i + 1) =~= mv.take(i as int).push(mv[i as int]));
            mv.take(i as int).lemma_filter_push(mv[i as int], |a: AppMetadataView| a.origin_device_id != idv);
            assert(app_views(out@) =~= mv.take(i + 1).filter(|a: AppMetadataView| a.origin_device_id != idv));
        }
        i = i + 1;
    }
    assert(mv.take(i as int) =~= mv);
    let ghost first = app_views(out@);
    let mut j: usize = 0;
    while j < local.len()
        invariant
            lv == app_views(local@),
            id@ == idv,
            j <= local@.len(),
            app_views(out@) == first + lv.take(j as int).filter(|a: AppMetadataView| a.origin_device_id == idv),
        decreases local.len() - j,
    {
        if local[j].origin_device_id == id {
            out.push(local[j].copy());
        }
        proof {
            assert(lv.take(j + 1) =~= lv.take(j as int).push(lv[j as int]));
            lv.take(j as int).lemma_filter_push(lv[j as int], |a: AppMetadataView| a.origin_device_id == idv);
            let f = lv.take(j as int).filter(|a: AppMetadataView| a.origin_device_id == idv);
            assert((first + f).push(lv[j as int]) =~= first + f.push(lv[j as int]));
            assert(app_views(out@) =~= first + lv.take(j + 1).filter(|a: AppMetadataView| a.origin_device_id == idv));
        }
        j = j + 1;
    }
    assert(lv.take(j as int) =~= lv);
    assert(app_views(out@) == with_local_apps(mv, lv, idv));
    Ok(out)
}

} // verus!
