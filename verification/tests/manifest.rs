use tracer::crypto::random_bytes;
use tracer::error::SyncError;
use tracer::package::{
    change_password, check_package_meta, check_session_count, describe_package, new_space,
    new_space_payload, open_manifest, open_manifest_with_master, open_package, open_year, package_context,
    replace_manifest_payload, seal_package, seal_year, validate_header, ManifestHeader, PackageDescriptor,
};

fn payload_bytes(space: &str, generation: &str) -> Vec<u8> {
    format!("{{\"sync_space_id\":\"{space}\",\"generation_id\":\"{generation}\"}}").into_bytes()
}

#[test]
fn manifest_password_and_change() {
    let payload = new_space_payload();
    let plain = payload_bytes(&payload.sync_space_id, &payload.generation_id);
    let (header, key) = new_space("old", &plain).unwrap();
    let opened = open_manifest(&header, "old").unwrap();
    assert_eq!(opened.payload, plain);
    assert!(String::from_utf8(opened.payload).unwrap().contains(&payload.sync_space_id));
    let changed = change_password(&header, None, Some(key), "new").unwrap();
    let reopened = open_manifest(&changed, "new").unwrap();
    assert!(String::from_utf8(reopened.payload).unwrap().contains(&payload.generation_id));
}

#[test]
fn manifest_wrong_and_old_passwords_are_refused() {
    let payload = new_space_payload();
    let plain = payload_bytes(&payload.sync_space_id, &payload.generation_id);
    let (header, key) = new_space("old", &plain).unwrap();
    assert!(open_manifest(&header, "bad").is_err());
    let changed = change_password(&header, None, Some(key), "new").unwrap();
    assert!(open_manifest(&changed, "old").is_err());
}

#[test]
fn new_space_payload_has_fresh_ids_and_no_content() {
    let a = new_space_payload();
    let b = new_space_payload();
    assert_eq!(a.sync_space_id.len(), 36);
    assert_eq!(a.generation_id.len(), 36);
    assert_ne!(a.sync_space_id, a.generation_id);
    assert_ne!(a.sync_space_id, b.sync_space_id);
    assert!(a.packages.is_empty() && a.devices.is_empty() && a.apps.is_empty() && a.categories.is_empty());
}

#[test]
fn empty_password_is_refused() {
    match new_space("", b"{}") {
        Err(SyncError::Crypto(m)) => assert_eq!(m, "同步密码不能为空"),
        _ => panic!("an empty password must be refused"),
    }
}

#[test]
fn replaced_payload_opens_with_master_and_password() {
    let (header, key) = new_space("pw", b"first").unwrap();
    let replaced = replace_manifest_payload(&header, &key, b"second").unwrap();
    assert_eq!(open_manifest_with_master(&replaced, &key).unwrap(), b"second".to_vec());
    assert_eq!(open_manifest(&replaced, "pw").unwrap().payload, b"second".to_vec());
    assert_eq!(replaced.salt, header.salt);
    let other = random_bytes::<32>();
    assert!(open_manifest_with_master(&replaced, &other).is_err());
}

#[test]
fn change_password_without_key_needs_old_password() {
    let (header, _) = new_space("pw", b"x").unwrap();
    match change_password(&header, None, None, "new") {
        Err(SyncError::Crypto(m)) => assert_eq!(m, "需要旧同步密码"),
        _ => panic!("the old password is required"),
    }
}

fn header_with(magic: &str, version: u32) -> ManifestHeader {
    let (mut header, _) = new_space("pw", b"x").unwrap();
    header.magic = magic.to_string();
    header.version = version;
    header
}

#[test]
fn header_magic_and_version_are_checked() {
    match validate_header(&header_with("OTHER", 1)) {
        Err(SyncError::Format(m)) => assert_eq!(m, "不是 Tracer 控制文件"),
        _ => panic!("wrong magic"),
    }
    match validate_header(&header_with("TRACER-MANIFEST", 7)) {
        Err(SyncError::Format(m)) => assert_eq!(m, "不支持的控制文件版本: 7"),
        _ => panic!("wrong version"),
    }
    assert!(validate_header(&header_with("TRACER-MANIFEST", 1)).is_ok());
}

#[test]
fn invalid_base64_fields_are_format_errors() {
    let (mut header, key) = new_space("pw", b"x").unwrap();
    header.payload_nonce = "%%%".to_string();
    match open_manifest_with_master(&header, &key) {
        Err(SyncError::Format(m)) => assert_eq!(m, "控制文件 nonce 无效"),
        _ => panic!("bad nonce"),
    }
    let (mut header, _) = new_space("pw", b"x").unwrap();
    header.salt = "***".to_string();
    match open_manifest(&header, "pw") {
        Err(SyncError::Format(m)) => assert_eq!(m, "控制文件 salt 无效"),
        _ => panic!("bad salt"),
    }
}

#[test]
fn package_context_text() {
    assert_eq!(package_context("s", "g", 2026), b"tracer-package-v1/s/g/2026".to_vec());
    assert_eq!(package_context("a", "b", -5), b"tracer-package-v1/a/b/-5".to_vec());
}

#[test]
fn package_roundtrip() {
    let key = random_bytes::<32>();
    let rows = b"d,1,2,x.exe,1,2,20260101,480".repeat(1000);
    let encrypted = seal_year(&rows, &key, "s", "g", 2026).unwrap();
    let descriptor = describe_package(2026, "r", &encrypted, 1);
    assert_eq!(descriptor.encrypted_bytes, encrypted.len() as u64);
    assert_eq!(descriptor.sha256.len(), 64);
    assert!(encrypted.len() < rows.len());
    assert_eq!(open_year(&encrypted, &descriptor, "s", "g", &key).unwrap(), rows);
    assert!(check_package_meta(1, "s", "g", 2026, "r", "s", "g", &descriptor).is_ok());
    assert!(check_session_count(1, &descriptor).is_ok());
}

#[test]
fn sealed_stream_opens_to_its_content() {
    let key = random_bytes::<32>();
    let compressed = b"already compressed".to_vec();
    let encrypted = seal_package(&compressed, &key, "s", "g", 2026);
    let descriptor = describe_package(2026, "r", &encrypted, 0);
    assert_eq!(open_package(&encrypted, &descriptor, "s", "g", &key).unwrap(), compressed);
    assert!(matches!(open_year(&encrypted, &descriptor, "s", "g", &key), Err(SyncError::Io(_))));
}

#[test]
fn package_checks_refuse_mismatches() {
    let key = random_bytes::<32>();
    let encrypted = seal_package(b"data", &key, "s", "g", 2026);
    let descriptor = describe_package(2026, "r", &encrypted, 3);
    let mut tampered = encrypted.clone();
    tampered[0] ^= 1;
    match open_package(&tampered, &descriptor, "s", "g", &key) {
        Err(SyncError::Format(m)) => assert_eq!(m, "年度包摘要不匹配"),
        _ => panic!("digest"),
    }
    assert!(open_package(&encrypted, &descriptor, "s", "other", &key).is_err());
    match check_package_meta(1, "s", "g", 2025, "r", "s", "g", &descriptor) {
        Err(SyncError::Format(m)) => assert_eq!(m, "年度包元数据与控制文件不一致"),
        _ => panic!("meta"),
    }
    match check_session_count(2, &descriptor) {
        Err(SyncError::Format(m)) => assert_eq!(m, "年度包会话数量不匹配"),
        _ => panic!("count"),
    }
}

#[test]
fn descriptor_digest_is_lowercase_hex_sha256() {
    let d: PackageDescriptor = describe_package(2020, "rev", b"abc", 0);
    assert_eq!(d.sha256, "ba7816bf8f01cfea414140de5dae2223b00361a396177a9cb410ff61f20015ad");
    assert_eq!(d.year, 2020);
    assert_eq!(d.revision, "rev");
}
