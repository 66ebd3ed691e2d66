use tracer::merge::merge_segments;
use tracer::merge_meta::{category_order, merge_apps, merge_categories, merge_devices};
use tracer::records::{AppMetadataRecord, CategoryRecord, DeviceRecord, SegmentRecord};
use tracer::error::SyncError;

fn segment(device: &str, seq: i64, end: i64) -> SegmentRecord {
    SegmentRecord {
        origin_device_id: device.into(),
        segment_sequence: seq,
        origin_app_id: 1,
        process_name: "x.exe".into(),
        start_utc: 0,
        end_utc: end,
        source_local_date: 20260101,
        utc_offset_minutes: 0,
    }
}

#[test]
fn segment_union_has_set_laws() {
    let a = vec![segment("a", 1, 1)];
    let b = vec![segment("b", 1, 2)];
    let c = vec![segment("c", 1, 3)];
    assert_eq!(
        merge_segments(&a, &b).unwrap(),
        merge_segments(&b, &a).unwrap()
    );
    assert_eq!(merge_segments(&a, &a).unwrap(), a);
    assert_eq!(
        merge_segments(&merge_segments(&a, &b).unwrap(), &c).unwrap(),
        merge_segments(&a, &merge_segments(&b, &c).unwrap()).unwrap()
    );
}

#[test]
fn conflicting_segment_stops() {
    assert!(merge_segments(&[segment("a", 1, 1)], &[segment("a", 1, 2)]).is_err());
}

#[test]
fn category_order_converges() {
    let a = CategoryRecord {
        sync_id: "x".into(),
        name: "a".into(),
        color: None,
        rules: None,
        logical_revision: 2,
        revision_device_id: "a".into(),
        is_deleted: false,
    };
    let mut b = a.clone();
    b.name = "b".into();
    b.revision_device_id = "b".into();
    assert_eq!(
        merge_categories(&[a.clone()], &[b.clone()]),
        merge_categories(&[b.clone()], &[a.clone()])
    );
    assert_eq!(merge_categories(&[a], &[b])[0].name, "b");
}

#[test]
fn merged_segments_are_sorted_by_device_then_sequence() {
    let left = vec![segment("b", 2, 1), segment("a", 9, 1)];
    let right = vec![segment("b", 1, 1), segment("a", 9, 1), segment("a", 10, 1)];
    let merged = merge_segments(&left, &right).unwrap();
    let keys: Vec<(String, i64)> = merged
        .iter()
        .map(|s| (s.origin_device_id.clone(), s.segment_sequence))
        .collect();
    assert_eq!(
        keys,
        vec![
            ("a".to_string(), 9),
            ("a".to_string(), 10),
            ("b".to_string(), 1),
            ("b".to_string(), 2)
        ]
    );
}

#[test]
fn conflicting_segment_message() {
    match merge_segments(&[segment("a", 1, 1), segment("a", 1, 5)], &[]) {
        Err(SyncError::Format(m)) => assert_eq!(m, "会话唯一键相同但内容不同，同步已停止"),
        other => panic!("unexpected {:?}", other),
    }
}

#[test]
fn unicode_device_ids_sort_by_code_point() {
    let merged = merge_segments(&[segment("é", 1, 1)], &[segment("z", 1, 1)]).unwrap();
    assert_eq!(merged[0].origin_device_id, "z");
    assert_eq!(merged[1].origin_device_id, "é");
}

fn device(id: &str, name: &str, rev: i64) -> DeviceRecord {
    DeviceRecord {
        device_id: id.into(),
        display_name: name.into(),
        metadata_revision: rev,
    }
}

#[test]
fn device_with_higher_revision_wins_either_way() {
    let old = device("d1", "old", 1);
    let new = device("d1", "new", 2);
    let other = device("d0", "zero", 0);
    let x = merge_devices(&[old.clone(), other.clone()], &[new.clone()]).unwrap();
    let y = merge_devices(&[new.clone()], &[old.clone(), other.clone()]).unwrap();
    assert_eq!(x, y);
    assert_eq!(x, vec![other, new]);
}

#[test]
fn device_equal_revision_conflict() {
    let r = merge_devices(&[device("d", "a", 3)], &[device("d", "b", 3)]);
    match r {
        Err(SyncError::Format(m)) => assert_eq!(m, "设备元数据同版本内容冲突"),
        other => panic!("unexpected {:?}", other),
    }
    assert!(merge_devices(&[device("d", "a", 3)], &[device("d", "a", 3)]).is_ok());
}

#[test]
fn device_later_left_entry_replaces_earlier() {
    let r = merge_devices(&[device("d", "a", 5), device("d", "b", 1)], &[]).unwrap();
    assert_eq!(r, vec![device("d", "b", 1)]);
}

fn app(dev: &str, id: i64, rev: i64, alias: Option<&str>) -> AppMetadataRecord {
    AppMetadataRecord {
        origin_device_id: dev.into(),
        origin_app_id: id,
        process_name: "p.exe".into(),
        system_display_name: None,
        custom_alias: alias.map(|s| s.to_string()),
        category_sync_id: None,
        is_ignored: false,
        metadata_revision: rev,
    }
}

#[test]
fn app_metadata_merge_rules() {
    let a = app("d", 1, 1, Some("one"));
    let b = app("d", 1, 2, Some("two"));
    let c = app("d", 2, 0, None);
    assert_eq!(merge_apps(&[a.clone(), c.clone()], &[b.clone()]).unwrap(), vec![b.clone(), c.clone()]);
    assert_eq!(merge_apps(&[b.clone()], &[a.clone()]).unwrap(), vec![b.clone()]);
    match merge_apps(&[a.clone()], &[app("d", 1, 1, Some("other"))]) {
        Err(SyncError::Format(m)) => assert_eq!(m, "应用元数据同版本内容冲突"),
        other => panic!("unexpected {:?}", other),
    }
}

#[test]
fn category_tie_keeps_stored_and_order_is_exposed() {
    let a = CategoryRecord {
        sync_id: "s".into(),
        name: "first".into(),
        color: Some("#fff".into()),
        rules: None,
        logical_revision: 1,
        revision_device_id: "dev".into(),
        is_deleted: false,
    };
    let mut b = a.clone();
    b.name = "second".into();
    assert_eq!(merge_categories(&[a.clone()], &[b.clone()])[0].name, "first");
    let mut c = a.clone();
    c.logical_revision = 2;
    c.revision_device_id = "a".into();
    assert_eq!(merge_categories(&[a.clone()], &[c.clone()])[0].logical_revision, 2);
    assert_eq!(category_order(&c), (2, "a"));
}
