use tracer::crypto::random_bytes;
use tracer::stream::{decrypt_stream, encrypt_stream, encrypt_stream_with_prefix, stream_aad, stream_nonce, STREAM_CHUNK_SIZE};
use tracer::error::SyncError;

#[test]
fn stream_roundtrip_tamper_truncation_and_context() {
    let key = random_bytes::<32>();
    let data = vec![7u8; STREAM_CHUNK_SIZE + 17];
    let encrypted = encrypt_stream(&data[..], &key, b"space/gen/2026");
    let plain = decrypt_stream(&encrypted[..], &key, b"space/gen/2026").unwrap();
    assert_eq!(plain, data);
    assert!(decrypt_stream(&encrypted[..], &key, b"space/gen/2025").is_err());
    let mut tampered = encrypted.clone();
    let last = tampered.len() - 1;
    tampered[last] ^= 1;
    assert!(decrypt_stream(&tampered[..], &key, b"space/gen/2026").is_err());
    assert!(decrypt_stream(&encrypted[..encrypted.len() - 1], &key, b"space/gen/2026").is_err());
}

#[test]
fn random_nonce_changes_ciphertext() {
    let key = random_bytes::<32>();
    let a = encrypt_stream(&b"same"[..], &key, b"ctx");
    let b = encrypt_stream(&b"same"[..], &key, b"ctx");
    assert_ne!(a, b);
}

#[test]
fn stream_layout_of_small_and_empty_inputs() {
    let key = [1u8; 32];
    let prefix = [9u8; 16];
    let e = encrypt_stream_with_prefix(b"abc", &key, b"c", &prefix);
    assert_eq!(&e[..8], b"TRCENC01");
    assert_eq!(&e[8..12], &(1024u32 * 1024).to_le_bytes());
    assert_eq!(&e[12..28], &prefix);
    assert_eq!(&e[28..32], &19u32.to_le_bytes());
    assert_eq!(e[32], 1);
    assert_eq!(e.len(), 28 + 5 + 3 + 16);
    let empty = encrypt_stream_with_prefix(b"", &key, b"c", &prefix);
    assert_eq!(empty.len(), 28 + 5 + 16);
    assert_eq!(decrypt_stream(&empty, &key, b"c").unwrap(), Vec::<u8>::new());
    let exact = vec![3u8; STREAM_CHUNK_SIZE];
    let e = encrypt_stream_with_prefix(&exact, &key, b"c", &prefix);
    assert_eq!(e.len(), 28 + 5 + STREAM_CHUNK_SIZE + 16);
    assert_eq!(decrypt_stream(&e, &key, b"c").unwrap(), exact);
}

#[test]
fn stream_header_errors() {
    let key = [1u8; 32];
    assert_eq!(decrypt_stream(b"TRC", &key, b"c"), Err(SyncError::Io("failed to fill whole buffer".into())));
    assert_eq!(
        decrypt_stream(b"XXXXXXXX0000", &key, b"c"),
        Err(SyncError::Format("年度包文件标识不支持".into()))
    );
    let mut h = b"TRCENC01".to_vec();
    h.extend_from_slice(&0u32.to_le_bytes());
    assert_eq!(decrypt_stream(&h, &key, b"c"), Err(SyncError::Format("年度包分块大小无效".into())));
    let prefix = [0u8; 16];
    let mut e = encrypt_stream_with_prefix(b"x", &key, b"c", &prefix);
    e[32] = 2;
    assert_eq!(decrypt_stream(&e, &key, b"c"), Err(SyncError::Format("年度包结束标记无效".into())));
    let mut e = encrypt_stream_with_prefix(b"x", &key, b"c", &prefix);
    e.push(0);
    assert_eq!(decrypt_stream(&e, &key, b"c"), Err(SyncError::Format("年度包结束后存在多余数据".into())));
    let mut e = encrypt_stream_with_prefix(b"x", &key, b"c", &prefix);
    e[28..32].copy_from_slice(&3u32.to_le_bytes());
    assert_eq!(decrypt_stream(&e, &key, b"c"), Err(SyncError::Format("年度包分块长度无效".into())));
    let e = encrypt_stream_with_prefix(b"x", &key, b"c", &prefix);
    assert_eq!(
        decrypt_stream(&e, &[2u8; 32], b"c"),
        Err(SyncError::Crypto("年度包认证失败或已损坏".into()))
    );
}

#[test]
fn nonce_and_aad_layout() {
    let prefix = [5u8; 16];
    let n = stream_nonce(&prefix, 0x0102);
    assert_eq!(&n[..16], &prefix);
    assert_eq!(&n[16..], &[2, 1, 0, 0, 0, 0, 0, 0]);
    assert_eq!(stream_aad(b"ab", 1, true), vec![b'a', b'b', 1, 0, 0, 0, 0, 0, 0, 0, 1]);
    assert_eq!(stream_aad(b"", 0, false), vec![0, 0, 0, 0, 0, 0, 0, 0, 0]);
}

#[test]
fn stream_with_trailing_bytes_or_cut_at_a_frame_is_refused() {
    let key = [3u8; 32];
    let prefix = [4u8; 16];
    let data = vec![5u8; 40];
    let mut encrypted = encrypt_stream_with_prefix(&data, &key, b"ctx", &prefix);
    assert_eq!(decrypt_stream(&encrypted, &key, b"ctx").unwrap(), data);
    assert!(decrypt_stream(&encrypted[..28], &key, b"ctx").is_err());
    encrypted.push(0);
    assert!(decrypt_stream(&encrypted, &key, b"ctx").is_err());
}

#[test]
fn stream_length_is_header_plus_frames() {
    let key = [9u8; 32];
    for (n, chunks) in [(0usize, 1usize), (5, 1), (1_048_576, 1), (1_048_577, 2), (2_097_153, 3)] {
        let plain = vec![0xA5u8; n];
        let out = encrypt_stream(&plain, &key, b"ctx");
        assert_eq!(out.len(), 28 + 21 * chunks + n);
        assert_eq!(&out[..8], b"TRCENC01");
        assert_eq!(&out[8..12], &1_048_576u32.to_le_bytes());
    }
}
