use tracer::owner::{tracker_step, Segment, TrackerEvent, UsageWrite};
use tracer::repo::{
    check_local_owner, check_year_records, device_name_or_error, display_name_changed, duration_recorded,
    history_error_summary, segment_insert_outcome, year_key_range,
};
use tracer::records::SegmentRecord;
use tracer::stats::{bucket_series, hourly_heatmap, idle_seconds, UsageRow};
use tracer::stream::read_chunk;
use tracer::webdav::{href_names, probe_next, ConcurrencyMode, ProbeAction, ProbeEvent};

#[test]
fn listing_names_are_decoded_sorted_and_unique() {
    let xml = "<?xml version=\"1.0\"?><d:multistatus xmlns:d=\"DAV:\">\
        <d:response><d:href>/dav/tracer-sync/</d:href></d:response>\
        <d:response><d:href>/dav/tracer-sync/manifest.tracer</d:href></d:response>\
        <d:response><d:href>/dav/tracer-sync/2026.tracer-sync</d:href></d:response>\
        <d:response><d:href>/dav/tracer-sync/my%20notes.txt</d:href></d:response>\
        <d:response><d:href>/dav/tracer-sync/2026.tracer-sync</d:href></d:response>\
        </d:multistatus>";
    assert_eq!(
        href_names(xml),
        vec!["2026.tracer-sync".to_string(), "manifest.tracer".to_string(), "my notes.txt".to_string(), "tracer-sync".to_string()]
    );
    assert!(href_names("").is_empty());
    assert!(href_names("<href></href>").is_empty());
}

fn row(process: &str, alias: Option<&str>, name: &str, index: usize, seconds: i64) -> UsageRow {
    UsageRow { process: process.into(), alias: alias.map(str::to_string), name: name.into(), index, seconds }
}

#[test]
fn chart_groups_ranks_and_sums_the_rest() {
    let rows = vec![
        row("chrome.exe", None, "Chrome", 0, 60),
        row("code.exe", None, "Code", 1, 10),
        row("chrome.exe", Some("谷歌浏览器"), "谷歌浏览器", 1, 120),
        row("chrome.exe", None, "Chrome 2", 2, 30),
        row("word.exe", None, "Word", 2, 5),
        row("code.exe", None, "Code", 9, 1000),
    ];
    let chart = bucket_series(&rows, 3, 2);
    assert_eq!(
        chart,
        vec![
            ("谷歌浏览器".to_string(), vec![0, 120, 0]),
            ("Chrome".to_string(), vec![60, 0, 30]),
            ("其他".to_string(), vec![0, 10, 5]),
        ]
    );
    assert_eq!(bucket_series(&rows, 3, 5).len(), 4);
    assert!(bucket_series(&[], 24, 5).is_empty());
}

#[test]
fn chart_ties_keep_first_row_order_and_zero_rest_is_dropped() {
    let rows = vec![row("b.exe", None, "B", 0, 7), row("a.exe", None, "A", 0, 7), row("c.exe", None, "C", 0, 0)];
    let chart = bucket_series(&rows, 1, 2);
    assert_eq!(chart, vec![("B".to_string(), vec![7]), ("A".to_string(), vec![7])]);
}

fn segment(day: i64) -> SegmentRecord {
    SegmentRecord {
        origin_device_id: "d".into(),
        segment_sequence: 1,
        origin_app_id: 1,
        process_name: "x.exe".into(),
        start_utc: 1,
        end_utc: 2,
        source_local_date: day,
        utc_offset_minutes: 0,
    }
}

#[test]
fn store_rules() {
    assert_eq!(year_key_range(2026), (20260101, 20270101));
    assert!(check_year_records(2026, &[segment(20260101), segment(20261231)]).is_ok());
    assert_eq!(check_year_records(2026, &[segment(20270101)]), Err("恢复数据包含其他年份".to_string()));
    assert!(display_name_changed(Some("New Chrome"), &Some("Chrome".into())));
    assert!(!display_name_changed(Some("Chrome"), &Some("Chrome".into())));
    assert!(!display_name_changed(None, &Some("Chrome".into())));
    assert!(display_name_changed(Some("Chrome"), &None));
    assert_eq!(duration_recorded(0, false, "a", "a"), Ok(false));
    assert_eq!(duration_recorded(5, true, "a", "b"), Ok(false));
    assert_eq!(duration_recorded(5, false, "a", "a"), Ok(true));
    assert_eq!(duration_recorded(5, false, "remote", "a"), Err("不能为远端来源应用写入本机会话".to_string()));
    assert_eq!(segment_insert_outcome(5, 5, false, false), Ok(false));
    assert_eq!(segment_insert_outcome(1, 5, true, false), Ok(true));
    assert_eq!(segment_insert_outcome(1, 5, false, true), Ok(false));
    assert_eq!(segment_insert_outcome(1, 5, false, false), Err("会话唯一键相同但内容不同".to_string()));
    assert_eq!(device_name_or_error("  Desk  "), Ok("Desk".to_string()));
    assert_eq!(device_name_or_error("   "), Err("设备名称不能为空".to_string()));
    assert_eq!(history_error_summary("short"), "short");
    let long: String = std::iter::repeat('错').take(301).collect();
    assert_eq!(history_error_summary(&long).chars().count(), 300);
    assert!(check_local_owner("a", "a").is_ok());
    assert_eq!(check_local_owner("b", "a"), Err("不能修改其他设备的应用元数据".to_string()));
}

#[test]
fn checkpoint_writes_and_restarts() {
    let seg = Some(Segment { app_id: 3, start: 10 });
    let s = tracker_step(seg, TrackerEvent::SyncCheckpoint { now: 25 }, 1000);
    assert_eq!(s.write, Some(UsageWrite { app_id: 3, start: 10, duration: 15 }));
    assert_eq!(s.next, Some(Segment { app_id: 3, start: 25 }));
    let none = tracker_step(None, TrackerEvent::SyncCheckpoint { now: 25 }, 1000);
    assert_eq!(none.write, None);
    assert_eq!(none.next, None);
}

#[test]
fn concurrency_probe_steps() {
    assert_eq!(probe_next(ProbeEvent::Read { has_etag: true }), ProbeAction::SecondWrite);
    assert_eq!(probe_next(ProbeEvent::Read { has_etag: false }), ProbeAction::TryLock);
    assert_eq!(probe_next(ProbeEvent::SecondWrite { ok: true }), ProbeAction::ThirdWrite);
    assert_eq!(probe_next(ProbeEvent::SecondWrite { ok: false }), ProbeAction::TryLock);
    assert_eq!(probe_next(ProbeEvent::ThirdWrite { conflict: true }), ProbeAction::Finish(ConcurrencyMode::Etag));
    assert_eq!(probe_next(ProbeEvent::ThirdWrite { conflict: false }), ProbeAction::TryLock);
    assert_eq!(probe_next(ProbeEvent::Locked { token: true }), ProbeAction::Finish(ConcurrencyMode::Lock));
    assert_eq!(probe_next(ProbeEvent::Locked { token: false }), ProbeAction::Finish(ConcurrencyMode::Plain));
}

#[test]
fn read_chunk_fills_up_to_the_end() {
    let data = [1u8, 2, 3, 4, 5];
    let mut buffer = [9u8; 3];
    assert_eq!(read_chunk(&data, 0, &mut buffer), 3);
    assert_eq!(buffer, [1, 2, 3]);
    let mut buffer = [9u8; 3];
    assert_eq!(read_chunk(&data, 3, &mut buffer), 2);
    assert_eq!(buffer, [4, 5, 9]);
    assert_eq!(read_chunk(&data, 5, &mut buffer), 0);
}

#[test]
fn idle_time_and_heat_map() {
    assert_eq!(idle_seconds(3600, 600), 3000);
    assert_eq!(idle_seconds(600, 3600), 0);
    assert_eq!(idle_seconds(-5, 0), 0);
    let map = hourly_heatmap(&[(0, 5), (23, 7), (24, 9), (-1, 3), (0, 6)]);
    assert_eq!(map.len(), 24);
    assert_eq!(map[0], 6);
    assert_eq!(map[23], 7);
    assert_eq!(map.iter().sum::<i64>(), 13);
}
