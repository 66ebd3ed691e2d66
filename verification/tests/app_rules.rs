use tracer::commands::{
    check_icon_owner, check_icon_size, check_insecure, check_new_password, check_rebuild,
    check_reset, check_restore, check_setup_passwords, clear_if_process, current_device_name,
    custom_icon_file_name, custom_icon_png, dark_from_registry, device_items, display_name_for_language,
    is_insecure_endpoint, last_success_at, parse_atom_first_tag, parse_window_pos, pick_session,
    icon_rgba_from_bgra, position_usable, system_is_dark, theme_background,
};
use tracer::numbers::{parse_i32, parse_u64};
use tracer::owner::{foreground_session, tracker_step, Segment, TrackerEvent, UsageWrite};
use tracer::process::{file_name, is_frame_host};
use tracer::records::DeviceRecord;
use tracer::repo::{
    date_key, date_parts, glob_match, granularity_or_error, normalize_alias, pick_category,
    local_day_piece, rules_match, split_local_days, BarGranularity, CategoryRules, LocalDayPiece,
};
use tracer::types::{Config, CurrentSession, SyncHistoryItem};

#[test]
fn defaults_when_empty() {
    let cfg = Config::from_stored(None);
    assert_eq!(cfg.flush_interval_secs, 900);
    assert_eq!(cfg.idle_threshold_ms(), 900_000);
}

#[test]
fn reads_and_overrides() {
    assert_eq!(Config::from_stored(Some("30")).flush_interval_secs, 30);
    assert_eq!(Config::from_stored(Some("oops")).flush_interval_secs, 900);
}

#[test]
fn stored_interval_is_taken_as_is() {
    assert_eq!(Config::from_stored(Some("0")).flush_interval_secs, 0);
    assert_eq!(Config::from_stored(Some("18446744073709551615")).flush_interval_secs, u64::MAX);
    assert_eq!(Config::from_stored(Some("-5")).flush_interval_secs, 900);
    assert_eq!(Config::from_stored(None).flush_interval_secs, 900);
    assert_eq!(Config::default().flush_interval_secs, 900);
}

#[test]
fn alias_is_trimmed_and_system_name_can_refresh() {
    assert_eq!(normalize_alias(Some("  谷歌浏览器  ")), Some("谷歌浏览器".to_string()));
    assert_eq!(normalize_alias(Some(" \t\n ")), None);
    assert_eq!(normalize_alias(None), None);
}

#[test]
fn glob_patterns() {
    assert!(glob_match("*.exe", "Chrome.EXE"));
    assert!(glob_match("ch?ome*", "chrome.exe"));
    assert!(!glob_match("ch?ome", "chrme"));
    assert!(glob_match("**", ""));
    assert!(glob_match("", ""));
    assert!(!glob_match("", "a"));
    assert!(glob_match("a*b*c", "aXXbYc"));
    assert!(!glob_match("a*b*c", "aXXbY"));
}

#[test]
fn category_rules_pick_the_last_matching_category() {
    assert!(rules_match("code.exe; *chrome* ,\n", "Chrome.exe", None));
    assert!(rules_match(" , idea*", "x.exe", Some("IntelliJ IDEA")) == false);
    assert!(rules_match("intellij*", "x.exe", Some("IntelliJ IDEA")));
    assert!(!rules_match("", "x.exe", Some("")));
    let cats = vec![
        CategoryRules { id: 1, rules: "*.exe".into() },
        CategoryRules { id: 2, rules: "chrome*".into() },
        CategoryRules { id: 3, rules: "word*".into() },
    ];
    assert_eq!(pick_category(&cats, "chrome.exe", None), Some(2));
    assert_eq!(pick_category(&cats, "notepad.exe", None), Some(1));
    assert_eq!(pick_category(&cats, "notepad", None), None);
}

#[test]
fn granularities_and_date_keys() {
    assert_eq!(BarGranularity::from_str("week"), Some(BarGranularity::Week));
    assert_eq!(BarGranularity::from_str("Week"), None);
    assert_eq!(granularity_or_error("decade"), Err("未知粒度: decade".to_string()));
    assert_eq!(BarGranularity::Day.n_buckets(5), 24);
    assert_eq!(BarGranularity::Week.n_buckets(5), 7);
    assert_eq!(BarGranularity::Month.n_buckets(31), 31);
    assert_eq!(BarGranularity::Month.n_buckets(0), 1);
    assert_eq!(BarGranularity::Year.n_buckets(400), 12);
    assert_eq!(date_key(2026, 1, 31), 20260131);
    assert_eq!(date_parts(20261231), (2026, 12, 31));
}

#[test]
fn decimal_parsing() {
    assert_eq!(parse_u64("18446744073709551615"), Some(u64::MAX));
    assert_eq!(parse_u64("18446744073709551616"), None);
    assert_eq!(parse_u64("+7"), Some(7));
    assert_eq!(parse_u64("-7"), None);
    assert_eq!(parse_u64(""), None);
    assert_eq!(parse_u64(" 7"), None);
    assert_eq!(parse_i32("-2147483648"), Some(i32::MIN));
    assert_eq!(parse_i32("2147483648"), None);
    assert_eq!(parse_i32("-"), None);
    assert_eq!(parse_i32("+12"), Some(12));
}

#[test]
fn setup_and_reset_checks() {
    assert_eq!(check_setup_passwords("a", "b"), Err("两次输入的同步密码不一致".to_string()));
    assert_eq!(check_setup_passwords("", ""), Err("同步密码不能为空".to_string()));
    assert!(check_setup_passwords("a", "a").is_ok());
    assert_eq!(check_new_password("", ""), Err("新密码不能为空，且两次输入必须一致".to_string()));
    assert_eq!(
        check_insecure(true, false, false),
        Err("HTTP WebDAV 会暴露用户名和密码，请确认风险后再保存".to_string())
    );
    assert_eq!(
        check_insecure(true, false, true),
        Err("HTTP WebDAV 会暴露用户名和密码，请确认风险后再重置".to_string())
    );
    assert!(check_insecure(true, true, false).is_ok());
    assert!(check_insecure(false, false, true).is_ok());
    assert_eq!(check_reset(false, "", "", true), Err("重置同步空间需要二次确认".to_string()));
    assert_eq!(check_reset(true, "a", "b", true), Err("新密码不能为空，且两次输入必须一致".to_string()));
    assert_eq!(check_reset(true, "a", "a", true), Err("同步进行中，不能重置".to_string()));
    assert!(check_reset(true, "a", "a", false).is_ok());
    assert_eq!(check_rebuild(false, false), Err("重建远端年度包需要二次确认".to_string()));
    assert_eq!(check_rebuild(true, true), Err("同步进行中，不能重建".to_string()));
    assert_eq!(check_restore(false, false), Err("从远端重建本地年度数据需要二次确认".to_string()));
    assert_eq!(check_restore(true, true), Err("同步进行中，不能恢复".to_string()));
    assert!(check_restore(true, false).is_ok());
}

fn device(id: &str, name: &str) -> DeviceRecord {
    DeviceRecord { device_id: id.into(), display_name: name.into(), metadata_revision: 0 }
}

fn history(at: i64, success: bool) -> SyncHistoryItem {
    SyncHistoryItem {
        created_at: at,
        year: 2026,
        success,
        uploaded_bytes: 0,
        downloaded_bytes: 0,
        imported_segments: 0,
        duration_ms: 0,
        error_summary: None,
    }
}

#[test]
fn overview_parts() {
    let devices = vec![device("a", "Laptop"), device("b", "Desk")];
    assert_eq!(current_device_name(&devices, "b"), "Desk");
    assert_eq!(current_device_name(&devices, "c"), "Windows PC");
    let items = device_items(&devices, "a");
    assert!(items[0].is_current && !items[1].is_current);
    assert_eq!(items[1].display_name, "Desk");
    assert_eq!(last_success_at(&[history(3, false), history(2, true), history(1, true)]), Some(2));
    assert_eq!(last_success_at(&[history(3, false)]), None);
    assert!(is_insecure_endpoint("http://dav.example"));
    assert!(!is_insecure_endpoint("https://dav.example"));
    assert!(!is_insecure_endpoint("http:/"));
}

fn session(name: &str, start: i64) -> CurrentSession {
    CurrentSession { process_name: name.into(), display_name: None, start_timestamp: start, current_duration: 0 }
}

#[test]
fn shown_session() {
    assert_eq!(pick_session(None, None, 10).unwrap_err(), "暂无前台会话");
    let s = pick_session(Some(session("code.exe", 4)), None, 10).unwrap();
    assert_eq!((s.process_name.as_str(), s.current_duration), ("code.exe", 6));
    let s = pick_session(Some(session("tracer.exe", 8)), Some(session("code.exe", 1)), 10).unwrap();
    assert_eq!((s.process_name.as_str(), s.current_duration), ("code.exe", 9));
    let s = pick_session(Some(session("tracer.exe", 8)), None, 10).unwrap();
    assert_eq!((s.process_name.as_str(), s.current_duration), ("tracer.exe", 2));
    assert!(clear_if_process(Some(session("x.exe", 0)), "x.exe").is_none());
    assert!(clear_if_process(Some(session("x.exe", 0)), "y.exe").is_some());
}

#[test]
fn window_background_and_position() {
    assert_eq!(theme_background("dark", false), (15, 23, 42, 255));
    assert_eq!(theme_background("system", true), (15, 23, 42, 255));
    assert_eq!(theme_background("system", false), (240, 240, 236, 255));
    assert_eq!(theme_background("forest", false), (6, 78, 59, 255));
    assert_eq!(theme_background("whatever", true), (240, 240, 236, 255));
    assert!(!system_is_dark());
    assert!(dark_from_registry(Some(0)));
    assert!(!dark_from_registry(Some(1)));
    assert!(!dark_from_registry(None));
    assert_eq!(parse_window_pos(" 10 , -20"), Some((10, -20)));
    assert_eq!(parse_window_pos("10"), None);
    assert_eq!(parse_window_pos("1.5,2"), None);
    assert!(position_usable(0, 0));
    assert!(!position_usable(-32000, -32000));
}

#[test]
fn releases_feed_first_tag() {
    let feed = "<feed><title>Releases</title><entry><id>1</id><title> v0.3.1 </title></entry><entry><title>v0.3.0</title></entry></feed>";
    assert_eq!(parse_atom_first_tag(feed), Some("v0.3.1".to_string()));
    assert_eq!(parse_atom_first_tag("<feed><title>x</title></feed>"), None);
    assert_eq!(parse_atom_first_tag("<entry><title>   </title></entry>"), None);
    assert_eq!(parse_atom_first_tag("<entry><title>v1"), None);
}

#[test]
fn icon_checks_and_names() {
    assert_eq!(check_icon_size(0), Err("图标文件必须小于 10 MB".to_string()));
    assert!(check_icon_size(10 * 1024 * 1024).is_ok());
    assert!(check_icon_size(10 * 1024 * 1024 + 1).is_err());
    assert_eq!(check_icon_owner(1, 2), Err("应用标识不匹配".to_string()));
    assert_eq!(custom_icon_file_name(42), "custom-42.png");
    assert_eq!(display_name_for_language(Some("en-US")), "tracer");
    assert_eq!(display_name_for_language(Some("zh-CN")), "踪");
    assert_eq!(display_name_for_language(None), "踪");
}

#[test]
fn process_names() {
    assert_eq!(file_name(r"C:\Program Files\Google\chrome.exe"), "chrome.exe");
    assert_eq!(file_name("/usr/bin/code"), "code");
    assert_eq!(file_name("plain.exe"), "plain.exe");
    assert_eq!(file_name("dir/"), "");
    assert!(is_frame_host("applicationframehost.EXE"));
    assert!(!is_frame_host("explorer.exe"));
}

#[test]
fn tracker_flush_and_switch() {
    let seg = Some(Segment { app_id: 7, start: 100 });
    let idle = tracker_step(seg, TrackerEvent::FlushTick { now: 160, idle_ms: 900_000, playing: false }, 900_000);
    assert_eq!(idle.write, None);
    assert!(idle.dropped_idle);
    assert_eq!(idle.next, Some(Segment { app_id: 7, start: 160 }));
    let playing = tracker_step(seg, TrackerEvent::FlushTick { now: 160, idle_ms: 900_000, playing: true }, 900_000);
    assert_eq!(playing.write, Some(UsageWrite { app_id: 7, start: 100, duration: 60 }));
    let busy = tracker_step(seg, TrackerEvent::FlushTick { now: 160, idle_ms: 5, playing: false }, 900_000);
    assert_eq!(busy.write, Some(UsageWrite { app_id: 7, start: 100, duration: 60 }));
    let same_second = tracker_step(seg, TrackerEvent::FlushTick { now: 100, idle_ms: 0, playing: false }, 900_000);
    assert_eq!(same_second.next, seg);
    assert_eq!(same_second.write, None);
    let switch = tracker_step(seg, TrackerEvent::ForegroundChanged { now: 130 }, 900_000);
    assert_eq!(switch.write, Some(UsageWrite { app_id: 7, start: 100, duration: 30 }));
    let started = tracker_step(switch.next, TrackerEvent::AppStarted { now: 130, app: Some(9) }, 900_000);
    assert_eq!(started.next, Some(Segment { app_id: 9, start: 130 }));
    let failed = tracker_step(switch.next, TrackerEvent::AppStarted { now: 130, app: None }, 900_000);
    assert_eq!(failed.next, None);
    let suspend = tracker_step(seg, TrackerEvent::PowerSuspend { now: 101 }, 900_000);
    assert_eq!(suspend.write, Some(UsageWrite { app_id: 7, start: 100, duration: 1 }));
    assert!(suspend.clear_session);
    assert_eq!(suspend.next, None);
    assert_eq!(tracker_step(seg, TrackerEvent::PowerResume, 900_000).next, None);
    let (s, other) = foreground_session("tracer.exe", 5);
    assert_eq!((s.start_timestamp, s.current_duration, other), (5, 0, false));
    assert!(foreground_session("code.exe", 5).1);
}

#[test]
fn custom_icons_are_png_thumbnails() {
    let picture = image::RgbImage::from_pixel(300, 200, image::Rgb([10, 20, 30]));
    let mut jpeg = std::io::Cursor::new(Vec::new());
    image::DynamicImage::ImageRgb8(picture).write_to(&mut jpeg, image::ImageFormat::Jpeg).unwrap();
    let png = custom_icon_png(jpeg.get_ref()).unwrap();
    assert_eq!(&png[..8], b"\x89PNG\r\n\x1a\n");
    let back = image::load_from_memory(&png).unwrap();
    assert_eq!((back.width(), back.height()), (128, 85));
    assert_eq!(custom_icon_png(b"not an image"), Err("不支持或损坏的图片文件".to_string()));
    assert_eq!(custom_icon_png(b""), Err("图标文件必须小于 10 MB".to_string()));
}

#[test]
fn local_day_pieces_cover_the_span() {
    assert_eq!(split_local_days(500, 500), Some(Vec::new()));
    assert_eq!(split_local_days(900, 100), Some(Vec::new()));
    let start = 1_767_225_600 - 3_600;
    let end = start + 3 * 86_400 + 7_200;
    let pieces = split_local_days(start, end).unwrap();
    assert!(pieces.len() >= 3 && pieces.len() <= 5);
    assert_eq!(pieces[0].start_utc, start);
    assert_eq!(pieces[pieces.len() - 1].end_utc, end);
    for w in pieces.windows(2) {
        assert_eq!(w[0].end_utc, w[1].start_utc);
        assert!(w[0].source_local_date < w[1].source_local_date);
    }
    for p in &pieces {
        assert!(p.start_utc < p.end_utc && p.end_utc - p.start_utc <= 90_000);
        let (y, m, d) = date_parts(p.source_local_date);
        assert!((2025..=2026).contains(&y) && (1..=12).contains(&m) && (1..=31).contains(&d));
    }
}

#[test]
fn local_day_piece_from_the_clock() {
    assert_eq!(
        local_day_piece(100, 1_000, (2026, 1, 2, 28_800), 500),
        Some(LocalDayPiece { start_utc: 100, end_utc: 500, source_local_date: 20260102, utc_offset_minutes: 480 })
    );
    assert_eq!(
        local_day_piece(100, 400, (2025, 12, 31, -9_030), 500),
        Some(LocalDayPiece { start_utc: 100, end_utc: 400, source_local_date: 20251231, utc_offset_minutes: -150 })
    );
    assert_eq!(local_day_piece(100, 400, (2025, 12, 31, -30), 900).unwrap().utc_offset_minutes, 0);
    assert_eq!(local_day_piece(100, 400, (2025, 12, 31, 0), 100), None);
}

#[test]
fn icon_pixels_become_rgba() {
    assert_eq!(icon_rgba_from_bgra(&[1, 2, 3, 0, 4, 5, 6, 7]), vec![3, 2, 1, 0, 6, 5, 4, 7]);
    assert_eq!(icon_rgba_from_bgra(&[1, 2, 3, 0, 0, 0, 0, 0]), vec![3, 2, 1, 255, 0, 0, 0, 0]);
    assert_eq!(icon_rgba_from_bgra(&[]), Vec::<u8>::new());
}
