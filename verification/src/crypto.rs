//! Key derivation, master-key wrapping and authenticated sealing of byte
//! strings with XChaCha20-Poly1305.

use vstd::prelude::*;
use vstd::string::StringExecFns;
use argon2::{Algorithm, Argon2, Params, Version};
use chacha20poly1305::aead::{Aead, KeyInit, Payload};
use chacha20poly1305::{XChaCha20Poly1305, XNonce};
use rand::rngs::OsRng;
use rand::RngCore;
use crate::error::{crypto_error, format_error, SyncError, SyncErrorView};

verus! {

// ---------------------------------------------------------------------------
// XChaCha20-Poly1305
// ---------------------------------------------------------------------------

/// The ciphertext (followed by its 16-byte tag) that XChaCha20-Poly1305 makes
/// of `msg` under `key`, `nonce` and associated data `aad`.
pub uninterp spec fn xchacha_seal(key: Seq<u8>, nonce: Seq<u8>, aad: Seq<u8>, msg: Seq<u8>) -> Seq<u8>;

/// What XChaCha20-Poly1305 decryption of `data` under `key`, `nonce` and
/// `aad` gives: the plaintext, or `None` when authentication fails.
pub uninterp spec fn xchacha_open(key: Seq<u8>, nonce: Seq<u8>, aad: Seq<u8>, data: Seq<u8>) -> Option<Seq<u8>>;

/// Messages of this length or more are refused by the cipher (its block
/// counter would overflow).
pub open spec fn xchacha_message_fits(len: nat) -> bool {
    len / 64 < 0xFFFF_FFFFnat
}

/// Encrypts with `XChaCha20Poly1305::encrypt` (the cipher built from `key`).
/// Trusted: the crate's source returns an error exactly when the message
/// has `u32::MAX` or more 64-byte blocks, and otherwise the keystream-xored
/// message followed by a 16-byte Poly1305 tag, which `decrypt` with the same
/// key, nonce and associated data turns back into the message.
#[verifier::external_body]
pub(crate) fn aead_encrypt(key: &[u8; 32], nonce: &[u8; 24], aad: &[u8], msg: &[u8]) -> (r: Option<Vec<u8>>)
    ensures
        r is Some <==> xchacha_message_fits(msg@.len()),
        r matches Some(c) ==> c@ == xchacha_seal(key@, nonce@, aad@, msg@)
            && c@.len() == msg@.len() + 16
            && xchacha_open(key@, nonce@, aad@, c@) == Some(msg@),
{
    XChaCha20Poly1305::new(key.into()).encrypt(XNonce::from_slice(nonce), Payload { msg, aad }).ok()
}

/// Decrypts with `XChaCha20Poly1305::decrypt` (the cipher built from `key`).
/// Trusted: the result is the plaintext or an authentication failure, a
/// function of the arguments; a plaintext is 16 bytes shorter than `data`.
#[verifier::external_body]
pub(crate) fn aead_decrypt(key: &[u8; 32], nonce: &[u8; 24], aad: &[u8], data: &[u8]) -> (r: Option<Vec<u8>>)
    ensures
        match r {
            Some(p) => xchacha_open(key@, nonce@, aad@, data@) == Some(p@) && data@.len() == p@.len() + 16,
            None => xchacha_open(key@, nonce@, aad@, data@) is None,
        },
{
    XChaCha20Poly1305::new(key.into()).decrypt(XNonce::from_slice(nonce), Payload { msg: data, aad }).ok()
}

/// `N` bytes from the operating system's random source (`OsRng`).
/// Trusted: nothing is promised of the bytes.
#[verifier::external_body]
pub fn random_bytes<const N: usize>() -> [u8; N] {
    let mut bytes = [0u8; N];
    OsRng.fill_bytes(&mut bytes);
    bytes
}

/// A copy of the first 24 bytes of `v` as a nonce.
fn nonce_from(v: &[u8]) -> (r: [u8; 24])
    requires
        v@.len() == 24,
    ensures
        r@ == v@,
{
    let mut r = [0u8; 24];
    let mut i: usize = 0;
    while i < 24
        invariant
            v@.len() == 24,
            i <= 24,
            forall|j: int| 0 <= j < i ==> r@[j] == v@[j],
        decreases 24 - i,
    {
        r[i] = v[i];
        i = i + 1;
    }
    assert(r@ =~= v@);
    r
}

/// The bytes of an array as a vector.
pub fn bytes_to_vec(a: &[u8]) -> (r: Vec<u8>)
    ensures
        r@ == a@,
{
    let mut r: Vec<u8> = Vec::new();
    let mut i: usize = 0;
    while i < a.len()
        invariant
            i <= a.len(),
            r@ == a@.take(i as int),
        decreases a.len() - i,
    {
        r.push(a[i]);
        i = i + 1;
        assert(r@ =~= a@.take(i as int));
    }
    assert(a@.take(i as int) =~= a@);
    r
}

// ---------------------------------------------------------------------------
// Sealing byte strings
// ---------------------------------------------------------------------------

/// What `open_bytes` gives back for these arguments.
pub open spec fn open_bytes_result(key: Seq<u8>, aad: Seq<u8>, nonce: Seq<u8>, data: Seq<u8>) -> Result<Seq<u8>, SyncErrorView> {
    if nonce.len() != 24 {
        Err(SyncErrorView::Format("nonce 长度错误"@))
    } else {
        match xchacha_open(key, nonce, aad, data) {
            Some(p) => Ok(p),
            None => Err(SyncErrorView::Crypto("认证失败：密码错误或数据已被篡改"@)),
        }
    }
}

/// Encrypts `plain` under `key` and `aad` with a fresh random nonce; returns
/// the nonce and the ciphertext, which `open_bytes` turns back into `plain`.
pub fn seal_bytes(key: &[u8; 32], aad: &[u8], plain: &[u8]) -> (r: Result<(Vec<u8>, Vec<u8>), SyncError>)
    ensures
        r is Ok <==> xchacha_message_fits(plain@.len()),
        match r {
            Ok((n, c)) => n@.len() == 24 && c@ == xchacha_seal(key@, n@, aad@, plain@) && c@.len() == plain@.len() + 16
                && open_bytes_result(key@, aad@, n@, c@) == Ok::<Seq<u8>, SyncErrorView>(plain@),
            Err(e) => e@ == SyncErrorView::Crypto("加密失败"@),
        },
{
    let nonce: [u8; 24] = random_bytes();
    match aead_encrypt(key, &nonce, aad, plain) {
        Some(data) => Ok((bytes_to_vec(&nonce), data)),
        None => Err(crypto_error("加密失败")),
    }
}

/// Decrypts `data` under `key`, `nonce` and `aad`; a nonce that is not 24
/// bytes long and a failed authentication are errors.
pub fn open_bytes(key: &[u8; 32], aad: &[u8], nonce: &[u8], data: &[u8]) -> (r: Result<Vec<u8>, SyncError>)
    ensures
        match r {
            Ok(p) => open_bytes_result(key@, aad@, nonce@, data@) == Ok::<Seq<u8>, SyncErrorView>(p@),
            Err(e) => open_bytes_result(key@, aad@, nonce@, data@) == Err::<Seq<u8>, SyncErrorView>(e@),
        },
{
    if nonce.len() != 24 {
        return Err(format_error("nonce 长度错误"));
    }
    let n = nonce_from(nonce);
    match aead_decrypt(key, &n, aad, data) {
        Some(p) => Ok(p),
        None => Err(crypto_error("认证失败：密码错误或数据已被篡改")),
    }
}

// ---------------------------------------------------------------------------
// The master key, wrapped under a key derived from the sync password
// ---------------------------------------------------------------------------

/// The master key encrypted under a password-derived key.
#[derive(Debug, Clone)]
pub struct WrappedMasterKey {
    pub nonce: Vec<u8>,
    pub ciphertext: Vec<u8>,
}

/// Associated data of a wrapped master key: the ASCII text `tracer-master-key-v1`.
pub open spec fn master_key_aad() -> Seq<u8> {
    seq![116u8, 114, 97, 99, 101, 114, 45, 109, 97, 115, 116, 101, 114, 45, 107, 101, 121, 45, 118, 49]
}

fn master_key_aad_bytes() -> (r: [u8; 20])
    ensures
        r@ == master_key_aad(),
{
    let r = [116u8, 114, 97, 99, 101, 114, 45, 109, 97, 115, 116, 101, 114, 45, 107, 101, 121, 45, 118, 49];
    assert(r@ =~= master_key_aad());
    r
}

/// What `unwrap_master_key` gives back for these arguments.
pub open spec fn unwrap_result(password_key: Seq<u8>, nonce: Seq<u8>, ciphertext: Seq<u8>) -> Result<Seq<u8>, SyncErrorView> {
    if nonce.len() != 24 {
        Err(SyncErrorView::Format("主密钥 nonce 长度错误"@))
    } else {
        match xchacha_open(password_key, nonce, master_key_aad(), ciphertext) {
            None => Err(SyncErrorView::Crypto("同步密码错误或控制文件已损坏"@)),
            Some(p) => if p.len() == 32 {
                Ok(p)
            } else {
                Err(SyncErrorView::Format("主密钥长度错误"@))
            },
        }
    }
}

/// Encrypts the master key under the password key with a fresh random nonce;
/// `unwrap_master_key` with the same password key gives it back.
pub fn wrap_master_key(password_key: &[u8; 32], master_key: &[u8; 32]) -> (r: Result<WrappedMasterKey, SyncError>)
    ensures
        match r {
            Ok(w) => w.nonce@.len() == 24
                && w.ciphertext@ == xchacha_seal(password_key@, w.nonce@, master_key_aad(), master_key@)
                && unwrap_result(password_key@, w.nonce@, w.ciphertext@) == Ok::<Seq<u8>, SyncErrorView>(master_key@),
            Err(_) => false,
        },
{
    let nonce: [u8; 24] = random_bytes();
    let aad = master_key_aad_bytes();
    match aead_encrypt(password_key, &nonce, &aad, master_key) {
        Some(ciphertext) => Ok(WrappedMasterKey { nonce: bytes_to_vec(&nonce), ciphertext }),
        None => Err(crypto_error("主密钥封装失败")),
    }
}

/// A 32-byte array holding the bytes of `v`.
pub fn key_from(v: &[u8]) -> (r: [u8; 32])
    requires
        v@.len() == 32,
    ensures
        r@ == v@,
{
    let mut r = [0u8; 32];
    let mut i: usize = 0;
    while i < 32
        invariant
            v@.len() == 32,
            i <= 32,
            forall|j: int| 0 <= j < i ==> r@[j] == v@[j],
        decreases 32 - i,
    {
        r[i] = v[i];
        i = i + 1;
    }
    assert(r@ =~= v@);
    r
}

/// Decrypts a wrapped master key with the password key.
pub fn unwrap_master_key(password_key: &[u8; 32], wrapped: &WrappedMasterKey) -> (r: Result<[u8; 32], SyncError>)
    ensures
        match r {
            Ok(k) => unwrap_result(password_key@, wrapped.nonce@, wrapped.ciphertext@) == Ok::<Seq<u8>, SyncErrorView>(k@),
            Err(e) => unwrap_result(password_key@, wrapped.nonce@, wrapped.ciphertext@) == Err::<Seq<u8>, SyncErrorView>(e@),
        },
{
    if wrapped.nonce.len() != 24 {
        return Err(format_error("主密钥 nonce 长度错误"));
    }
    let n = nonce_from(wrapped.nonce.as_slice());
    let aad = master_key_aad_bytes();
    match aead_decrypt(password_key, &n, &aad, wrapped.ciphertext.as_slice()) {
        None => Err(crypto_error("同步密码错误或控制文件已损坏")),
        Some(plain) => {
            if plain.len() == 32 {
                Ok(key_from(plain.as_slice()))
            } else {
                Err(format_error("主密钥长度错误"))
            }
        },
    }
}

// ---------------------------------------------------------------------------
// Password-based key derivation (Argon2id, version 0x13)
// ---------------------------------------------------------------------------

/// The cost parameters of the password hash.
#[derive(Debug, Clone, PartialEq, Eq, Structural)]
pub struct KdfParams {
    pub memory_kib: u32,
    pub iterations: u32,
    pub parallelism: u32,
}

impl Default for KdfParams {
    fn default() -> (r: Self)
        ensures
            r.memory_kib == 65536 && r.iterations == 3 && r.parallelism == 1,
    {
        KdfParams { memory_kib: 64 * 1024, iterations: 3, parallelism: 1 }
    }
}

/// Why `argon2::Params::new` refuses these costs (32-byte output), or `None`.
pub open spec fn argon2_params_rejection(m: u32, t: u32, p: u32) -> Option<Seq<char>> {
    if m < 8 || m < p * 8 {
        Some("memory cost is too small"@)
    } else if t < 1 {
        Some("time cost is too small"@)
    } else if p < 1 {
        Some("not enough threads"@)
    } else if p > 0xFF_FFFF {
        Some("too many threads"@)
    } else {
        None
    }
}

/// Why `Argon2::hash_password_into` refuses this password and salt, or `None`.
pub open spec fn argon2_input_rejection(password: Seq<u8>, salt: Seq<u8>) -> Option<Seq<char>> {
    if password.len() > 0xFFFF_FFFF {
        Some("password is too long"@)
    } else if salt.len() < 8 {
        Some("salt is too short"@)
    } else if salt.len() > 0xFFFF_FFFF {
        Some("salt is too long"@)
    } else {
        None
    }
}

/// The 32-byte Argon2id (version 0x13) hash of `password` with `salt` and
/// memory, time and parallelism costs `m`, `t`, `p`.
pub uninterp spec fn argon2id_key(password: Seq<u8>, salt: Seq<u8>, m: u32, t: u32, p: u32) -> Seq<u8>;

/// Checks the costs with `argon2::Params::new` (output length 32) and gives
/// the error's text. Trusted: its source refuses exactly as
/// `argon2_params_rejection` says, with those texts; `p * 8` is computed
/// before `p` is checked, so `p` must keep it within `u32`.
#[verifier::external_body]
fn argon2_check_params(m: u32, t: u32, p: u32) -> (r: Result<(), String>)
    requires
        p * 8 <= u32::MAX,
    ensures
        match r {
            Ok(()) => argon2_params_rejection(m, t, p) is None,
            Err(msg) => argon2_params_rejection(m, t, p) == Some(msg@),
        },
{
    Params::new(m, t, p, Some(32)).map(|_| ()).map_err(|e| e.to_string())
}

/// Hashes with `Argon2::hash_password_into` (Argon2id, version 0x13, the
/// hasher built from the costs with `Params::new`) into 32 bytes. Trusted:
/// its source refuses exactly as `argon2_input_rejection` says, with those
/// texts, and otherwise fills the output with the hash.
#[verifier::external_body]
fn argon2_hash(password: &[u8], salt: &[u8], m: u32, t: u32, p: u32) -> (r: Result<[u8; 32], String>)
    requires
        p * 8 <= u32::MAX,
        argon2_params_rejection(m, t, p) is None,
    ensures
        match r {
            Ok(k) => argon2_input_rejection(password@, salt@) is None && k@ == argon2id_key(password@, salt@, m, t, p),
            Err(msg) => argon2_input_rejection(password@, salt@) == Some(msg@),
        },
{
    let params = Params::new(m, t, p, Some(32)).map_err(|e| e.to_string())?;
    let mut key = [0u8; 32];
    Argon2::new(Algorithm::Argon2id, Version::V0x13, params)
        .hash_password_into(password, salt, &mut key)
        .map_err(|e| e.to_string())?;
    Ok(key)
}

/// What `derive_password_key` gives back for these arguments.
pub open spec fn derive_result(password: Seq<char>, salt: Seq<u8>, params: KdfParams) -> Result<Seq<u8>, SyncErrorView> {
    let pw = vstd::utf8::encode_utf8(password);
    if password.len() == 0 {
        Err(SyncErrorView::Crypto("同步密码不能为空"@))
    } else if let Some(msg) = argon2_params_rejection(params.memory_kib, params.iterations, params.parallelism) {
        Err(SyncErrorView::Crypto("KDF 参数无效: "@ + msg))
    } else if let Some(msg) = argon2_input_rejection(pw, salt) {
        Err(SyncErrorView::Crypto("密码派生失败: "@ + msg))
    } else {
        Ok(argon2id_key(pw, salt, params.memory_kib, params.iterations, params.parallelism))
    }
}

/// Derives the 32-byte password key from the sync password (as UTF-8), the
/// salt and the cost parameters; an empty password is refused.
pub fn derive_password_key(password: &str, salt: &[u8], params: &KdfParams) -> (r: Result<[u8; 32], SyncError>)
    requires
        params.parallelism * 8 <= u32::MAX,
    ensures
        match r {
            Ok(k) => derive_result(password@, salt@, *params) == Ok::<Seq<u8>, SyncErrorView>(k@),
            Err(e) => derive_result(password@, salt@, *params) == Err::<Seq<u8>, SyncErrorView>(e@),
        },
{
    if password.is_empty() {
        return Err(crypto_error("同步密码不能为空"));
    }
    match argon2_check_params(params.memory_kib, params.iterations, params.parallelism) {
        Err(msg) => {
            let text = "KDF 参数无效: ".to_owned();
            return Err(SyncError::Crypto(text.concat(msg.as_str())));
        },
        Ok(()) => {},
    }
    match argon2_hash(password.as_bytes(), salt, params.memory_kib, params.iterations, params.parallelism) {
        Ok(k) => Ok(k),
        Err(msg) => {
            let text = "密码派生失败: ".to_owned();
            Err(SyncError::Crypto(text.concat(msg.as_str())))
        },
    }
}

} // verus!
