use tracer::apply::{app_applies, category_applies, device_applies, eq_ignore_ascii_case};
use tracer::error::SyncError;
use tracer::package::PackageDescriptor;
use tracer::run::{run_step, RunAction, RunEvent, RunStage};
use tracer::records::{AppMetadataRecord, CategoryRecord, DeviceRecord};
use tracer::service::{
    begin_run, combine_apps, combine_devices, expected_etag, finish_run, find_package,
    is_sync_file, master_key_from, package_file_name, remote_unchanged, retry_after, sort_packages_by_year,
    upsert_package, StoredSyncConfig, SyncPhase, SyncRunResult, SyncStatus,
};
use tracer::webdav::{
    check_remote_name, check_scheme, concurrency_mode_name, status_error, sync_base_url, sync_directory,
    ConcurrencyMode, RemoteFile,
};

fn pkg(year: i32, rev: &str) -> PackageDescriptor {
    PackageDescriptor {
        year,
        revision: rev.to_string(),
        sha256: String::new(),
        encrypted_bytes: 0,
        session_count: 0,
    }
}

fn revs(v: &[PackageDescriptor]) -> Vec<(i32, String)> {
    v.iter().map(|p| (p.year, p.revision.clone())).collect()
}

#[test]
fn upsert_replaces_the_year_and_keeps_years_sorted() {
    let packages = vec![pkg(2026, "a"), pkg(2024, "b"), pkg(2025, "c")];
    let out = upsert_package(packages, pkg(2025, "new"));
    assert_eq!(
        revs(&out),
        vec![(2024, "b".to_string()), (2025, "new".to_string()), (2026, "a".to_string())]
    );
    let out = upsert_package(Vec::new(), pkg(2023, "x"));
    assert_eq!(revs(&out), vec![(2023, "x".to_string())]);
}

#[test]
fn sort_by_year_is_stable() {
    let out = sort_packages_by_year(vec![pkg(2026, "a"), pkg(2025, "b"), pkg(2026, "c"), pkg(2025, "d")]);
    assert_eq!(
        revs(&out),
        vec![
            (2025, "b".to_string()),
            (2025, "d".to_string()),
            (2026, "a".to_string()),
            (2026, "c".to_string())
        ]
    );
}

#[test]
fn find_package_returns_the_first_of_the_year() {
    let v = vec![pkg(2024, "a"), pkg(2025, "b"), pkg(2025, "c")];
    assert_eq!(find_package(&v, 2025), Some(1));
    assert_eq!(find_package(&v, 2030), None);
}

#[test]
fn package_and_manifest_file_names() {
    assert_eq!(package_file_name(2026), "2026.tracer-sync");
    assert!(is_sync_file("manifest.tracer"));
    assert!(is_sync_file("2026.tracer-sync"));
    assert!(!is_sync_file("notes.txt"));
    assert!(!is_sync_file("tracer-sync"));
    assert!(!is_sync_file(".tracer-probe-1"));
}

fn status(running: bool) -> SyncStatus {
    SyncStatus { running, phase: SyncPhase::Idle, year: None, message: None }
}

#[test]
fn a_second_run_is_refused() {
    match begin_run(&status(true), 2026) {
        Err(SyncError::Format(m)) => assert_eq!(m, "已有同步任务正在运行"),
        _ => panic!("running"),
    }
    let s = begin_run(&SyncStatus::default(), 2026).unwrap();
    assert!(s.running);
    assert_eq!(s.phase, SyncPhase::Checkpoint);
    assert_eq!(s.year, Some(2026));
}

#[test]
fn conflicts_are_retried_twice() {
    let conflict: Result<SyncRunResult, SyncError> = Err(SyncError::Conflict);
    assert!(retry_after(&conflict, 0));
    assert!(retry_after(&conflict, 1));
    assert!(!retry_after(&conflict, 2));
    let other: Result<SyncRunResult, SyncError> = Err(SyncError::Network("x".into()));
    assert!(!retry_after(&other, 0));
    let ok: Result<SyncRunResult, SyncError> = Ok(SyncRunResult {
        imported_segments: 1,
        downloaded_bytes: 2,
        uploaded_bytes: 3,
        duration_ms: 4,
    });
    assert!(!retry_after(&ok, 0));
}

#[test]
fn finished_status_reports_the_outcome() {
    let running = begin_run(&SyncStatus::default(), 2025).unwrap();
    let done = finish_run(&running, &Ok(SyncRunResult {
        imported_segments: 0,
        downloaded_bytes: 0,
        uploaded_bytes: 0,
        duration_ms: 0,
    }));
    assert!(!done.running);
    assert_eq!(done.phase, SyncPhase::Complete);
    assert_eq!(done.message, None);
    assert_eq!(done.year, Some(2025));
    let cancelled = finish_run(&running, &Err(SyncError::Cancelled));
    assert_eq!(cancelled.phase, SyncPhase::Cancelled);
    assert_eq!(cancelled.message.as_deref(), Some("同步已取消"));
    let failed = finish_run(&running, &Err(SyncError::Conflict));
    assert_eq!(failed.phase, SyncPhase::Failed);
    assert_eq!(failed.message.as_deref(), Some("远端内容已变化，需要重新合并"));
    let io = finish_run(&running, &Err(SyncError::Io("disk".into())));
    assert_eq!(io.message.as_deref(), Some("文件操作失败: disk"));
}

fn file(bytes: &[u8], etag: Option<&str>) -> Option<RemoteFile> {
    Some(RemoteFile { bytes: bytes.to_vec(), etag: etag.map(str::to_string) })
}

#[test]
fn unchanged_and_etag_rules() {
    assert!(remote_unchanged(&None, &None));
    assert!(remote_unchanged(&file(b"a", None), &file(b"a", Some("x"))));
    assert!(!remote_unchanged(&file(b"a", None), &file(b"b", None)));
    assert!(!remote_unchanged(&None, &file(b"a", None)));
    assert_eq!(expected_etag(ConcurrencyMode::Etag, &file(b"a", Some("\"1\""))), Some("\"1\"".to_string()));
    assert_eq!(expected_etag(ConcurrencyMode::Lock, &file(b"a", Some("\"1\""))), None);
    assert_eq!(expected_etag(ConcurrencyMode::Etag, &None), None);
}

fn device(id: &str, name: &str, rev: i64) -> DeviceRecord {
    DeviceRecord { device_id: id.into(), display_name: name.into(), metadata_revision: rev }
}

#[test]
fn local_device_entry_comes_from_the_local_list() {
    let shared = vec![device("a", "A", 1), device("me", "Old", 9)];
    let local = vec![device("me", "Mine", 2)];
    let out = combine_devices(&shared, &local, "me").unwrap();
    assert_eq!(out, vec![device("a", "A", 1), device("me", "Mine", 2)]);
    let clash = vec![device("me", "Other", 2)];
    assert!(combine_devices(&clash, &local, "me").is_err());
}

fn app(dev: &str, id: i64, process: &str, rev: i64) -> AppMetadataRecord {
    AppMetadataRecord {
        origin_device_id: dev.into(),
        origin_app_id: id,
        process_name: process.into(),
        system_display_name: None,
        custom_alias: None,
        category_sync_id: None,
        is_ignored: false,
        metadata_revision: rev,
    }
}

#[test]
fn local_app_entries_come_from_the_local_list() {
    let shared = vec![app("b", 1, "x.exe", 3), app("me", 1, "y.exe", 7)];
    let local = vec![app("me", 1, "y.exe", 1), app("me", 2, "z.exe", 1)];
    let out = combine_apps(&shared, &local, "me").unwrap();
    assert_eq!(out, vec![app("b", 1, "x.exe", 3), app("me", 1, "y.exe", 1), app("me", 2, "z.exe", 1)]);
}

#[test]
fn directory_defaults_trims_and_refuses_relative_segments() {
    assert_eq!(sync_directory(None).unwrap(), "tracer-sync/");
    assert_eq!(sync_directory(Some("   ")).unwrap(), "tracer-sync/");
    assert_eq!(sync_directory(Some(" /data/sync/ ")).unwrap(), "data/sync/");
    for bad in ["..", "a/../b", "./x", "a/."] {
        match sync_directory(Some(bad)) {
            Err(SyncError::Network(m)) => assert_eq!(m, "同步目录不能包含相对路径片段"),
            _ => panic!("{bad} must be refused"),
        }
    }
    assert_eq!(sync_directory(Some("a..b/.c")).unwrap(), "a..b/.c/");
}

#[test]
fn remote_names_and_schemes() {
    assert!(check_remote_name("manifest.tracer").is_ok());
    assert!(check_remote_name("..").is_err());
    match check_remote_name("a/b") {
        Err(SyncError::Network(m)) => assert_eq!(m, "远端文件名无效"),
        _ => panic!("slash"),
    }
    assert!(check_scheme("https").is_ok());
    assert!(check_scheme("http").is_ok());
    match check_scheme("ftp") {
        Err(SyncError::Network(m)) => assert_eq!(m, "WebDAV 地址必须使用 http:// 或 https://"),
        _ => panic!("ftp"),
    }
}

#[test]
fn status_error_text_and_mode_names() {
    match status_error("上传", 507) {
        SyncError::Network(m) => assert_eq!(m, "WebDAV 上传失败: HTTP 507"),
        _ => panic!("network"),
    }
    assert_eq!(concurrency_mode_name(ConcurrencyMode::Etag), "etag");
    assert_eq!(concurrency_mode_name(ConcurrencyMode::Lock), "lock");
    assert_eq!(concurrency_mode_name(ConcurrencyMode::Plain), "none");
}

#[test]
fn stored_config_keeps_protected_bytes() {
    let stored = StoredSyncConfig::new("https://x".into(), None, b"sealed creds", &[7u8; 40], ConcurrencyMode::Etag).unwrap();
    assert_eq!(stored.protected_credentials, "c2VhbGVkIGNyZWRz");
    assert_eq!(stored.protected_credential_bytes().unwrap(), b"sealed creds".to_vec());
    assert_eq!(stored.protected_master_key_bytes().unwrap(), vec![7u8; 40]);
    let broken = StoredSyncConfig {
        endpoint: "https://x".into(),
        directory: None,
        protected_credentials: "!!".into(),
        protected_master_key: "!!".into(),
        concurrency: ConcurrencyMode::Plain,
    };
    match broken.protected_credential_bytes() {
        Err(SyncError::Format(m)) => assert_eq!(m, "本机同步凭据格式错误"),
        _ => panic!("bad base64"),
    }
    match broken.protected_master_key_bytes() {
        Err(SyncError::Format(m)) => assert_eq!(m, "本机主密钥格式错误"),
        _ => panic!("bad base64"),
    }
    assert_eq!(master_key_from(&[3u8; 32]).unwrap(), [3u8; 32]);
    match master_key_from(&[3u8; 31]) {
        Err(SyncError::Format(m)) => assert_eq!(m, "本机主密钥长度错误"),
        _ => panic!("short key"),
    }
}

fn category(id: &str, rev: i64, dev: &str) -> CategoryRecord {
    CategoryRecord {
        sync_id: id.into(),
        name: "n".into(),
        color: None,
        rules: None,
        logical_revision: rev,
        revision_device_id: dev.into(),
        is_deleted: false,
    }
}

#[test]
fn metadata_apply_decisions() {
    let c = category("c", 3, "b");
    assert!(category_applies(&c, None));
    assert!(category_applies(&c, Some((2, "z"))));
    assert!(category_applies(&c, Some((3, "a"))));
    assert!(!category_applies(&c, Some((3, "b"))));
    assert!(!category_applies(&c, Some((4, "a"))));
    let d = device("other", "O", 5);
    assert!(device_applies(&d, "me", None));
    assert!(device_applies(&d, "me", Some(4)));
    assert!(!device_applies(&d, "me", Some(5)));
    assert!(!device_applies(&device("me", "M", 9), "me", None));
    let a = app("other", 1, "Chrome.EXE", 4);
    assert_eq!(app_applies(&a, "me", None).unwrap(), true);
    assert_eq!(app_applies(&a, "me", Some((3, "chrome.exe"))).unwrap(), true);
    assert_eq!(app_applies(&a, "me", Some((4, "chrome.exe"))).unwrap(), false);
    match app_applies(&a, "me", Some((1, "edge.exe"))) {
        Err(SyncError::Format(m)) => assert_eq!(m, "同一来源应用标识对应了不同进程名"),
        _ => panic!("process clash"),
    }
    assert_eq!(app_applies(&app("me", 1, "x", 9), "me", Some((1, "y"))).unwrap(), false);
    assert!(eq_ignore_ascii_case("ApplicationFrameHost.EXE", "applicationframehost.exe"));
    assert!(!eq_ignore_ascii_case("É", "é"));
}

fn network_text(r: Result<String, SyncError>) -> String {
    match r {
        Err(SyncError::Network(m)) => m,
        other => panic!("expected a network error, got {other:?}"),
    }
}

#[test]
fn sync_base_url_joins_the_directory() {
    assert_eq!(
        sync_base_url("https://dav.example.com/remote.php/dav", None).unwrap(),
        "https://dav.example.com/remote.php/dav/tracer-sync/"
    );
    assert_eq!(
        sync_base_url("https://dav.example.com/dav/", Some(" /team/usage/ ")).unwrap(),
        "https://dav.example.com/dav/team/usage/"
    );
    assert_eq!(sync_base_url("http://nas.local:5005", Some("  ")).unwrap(), "http://nas.local:5005/tracer-sync/");
}

#[test]
fn sync_base_url_refuses_bad_endpoints() {
    assert!(network_text(sync_base_url("not a url", None)).starts_with("WebDAV 地址无效: "));
    assert_eq!(network_text(sync_base_url("ftp://files.example.com/", None)), "WebDAV 地址必须使用 http:// 或 https://");
    assert_eq!(network_text(sync_base_url("https://dav.example.com/", Some("a/../b"))), "同步目录不能包含相对路径片段");
}

#[test]
fn run_protocol_on_a_server_without_conditional_writes() {
    let mode = ConcurrencyMode::Plain;
    let mut stage = RunStage::Begin;
    let steps = [
        (RunEvent::Start, RunAction::FetchManifest),
        (RunEvent::ManifestFetched { found: true }, RunAction::FetchPackage),
        (RunEvent::PackageFetched { found: true, described: true }, RunAction::OpenAndMerge),
        (RunEvent::Merged, RunAction::FetchLatestManifest),
        (RunEvent::LatestManifest { unchanged: true }, RunAction::FetchLatestPackage),
        (RunEvent::LatestPackage { unchanged: true }, RunAction::PutPackage),
        (RunEvent::PackagePut, RunAction::PutManifest),
        (RunEvent::ManifestPut, RunAction::Finish),
    ];
    for (event, expected) in steps {
        let (next, action) = run_step(stage, mode, event);
        assert_eq!(action, expected);
        stage = next;
    }
    assert_eq!(stage, RunStage::Done);
    assert_eq!(run_step(RunStage::Done, mode, RunEvent::Cancelled), (RunStage::Done, RunAction::Ignore));
}

#[test]
fn run_protocol_stops_on_conflict_cancel_and_missing_manifest() {
    assert_eq!(
        run_step(RunStage::WantManifest, ConcurrencyMode::Etag, RunEvent::ManifestFetched { found: false }),
        (RunStage::Stopped, RunAction::FailMissingManifest)
    );
    assert_eq!(
        run_step(RunStage::WantPackage, ConcurrencyMode::Etag, RunEvent::PackageFetched { found: true, described: false }),
        (RunStage::WantMerge, RunAction::Merge)
    );
    assert_eq!(
        run_step(RunStage::WantMerge, ConcurrencyMode::Etag, RunEvent::Merged),
        (RunStage::WantPackagePut, RunAction::PutPackage)
    );
    assert_eq!(
        run_step(RunStage::WantLatestManifest, ConcurrencyMode::Plain, RunEvent::LatestManifest { unchanged: false }),
        (RunStage::Stopped, RunAction::FailConflict)
    );
    assert_eq!(
        run_step(RunStage::WantLatestPackage, ConcurrencyMode::Plain, RunEvent::LatestPackage { unchanged: false }),
        (RunStage::Stopped, RunAction::FailConflict)
    );
    assert_eq!(
        run_step(RunStage::WantPackagePut, ConcurrencyMode::Lock, RunEvent::Cancelled),
        (RunStage::Stopped, RunAction::FailCancelled)
    );
    assert_eq!(
        run_step(RunStage::WantPackagePut, ConcurrencyMode::Lock, RunEvent::Merged),
        (RunStage::WantPackagePut, RunAction::Ignore)
    );
}

#[test]
fn applying_the_same_entry_again_is_skipped() {
    let c = category("c1", 4, "dev-b");
    assert!(category_applies(&c, None));
    assert!(!category_applies(&c, Some((4, "dev-b"))));
    let d = device("other", "Laptop", 3);
    assert!(device_applies(&d, "me", Some(2)));
    assert!(!device_applies(&d, "me", Some(3)));
    let a = app("other", 7, "Code.exe", 5);
    assert_eq!(app_applies(&a, "me", Some((4, "code.exe"))), Ok(true));
    assert_eq!(app_applies(&a, "me", Some((5, "Code.exe"))), Ok(false));
}
