//! The sync manifest: a header holding the password-wrapped master key and
//! the encrypted payload (the JSON text of the shared metadata), and the
//! descriptors and naming of the yearly packages.

use vstd::prelude::*;
use vstd::string::StringExecFns;
use crate::crypto::{
    bytes_to_vec, derive_password_key, derive_result, open_bytes, open_bytes_result, random_bytes,
    seal_bytes, unwrap_master_key, unwrap_result, wrap_master_key, xchacha_message_fits, KdfParams,
    WrappedMasterKey,
};
use crate::encoding::{base64_decode, base64_decoding, base64_encode, decimal_string, decimal_text, hex_text, sha256, sha256_hex};
use crate::stream::{decrypt_stream, encrypt_stream, encrypted_stream, parse_stream, bytes_result};
use crate::error::{crypto_error, format_error, SyncError, SyncErrorView};
use crate::records::{AppMetadataRecord, CategoryRecord, DeviceRecord};

verus! {

pub const MANIFEST_FORMAT_VERSION: u32 = 1;

pub const PACKAGE_FORMAT_VERSION: u32 = 1;

/// What a yearly package holds and how to check it.
#[derive(Debug, Clone, PartialEq, Eq)]
pub struct PackageDescriptor {
    pub year: i32,
    pub revision: String,
    pub sha256: String,
    pub encrypted_bytes: u64,
    pub session_count: u64,
}

/// The shared metadata of a sync space.
#[derive(Debug, Clone)]
pub struct ManifestPayload {
    pub sync_space_id: String,
    pub generation_id: String,
    pub packages: Vec<PackageDescriptor>,
    pub devices: Vec<DeviceRecord>,
    pub apps: Vec<AppMetadataRecord>,
    pub categories: Vec<CategoryRecord>,
}

/// The manifest as stored: everything but the payload is in clear.
#[derive(Debug, Clone)]
pub struct ManifestHeader {
    pub magic: String,
    pub version: u32,
    pub kdf: KdfParams,
    pub salt: String,
    pub wrapped_master_key: WrappedMasterKey,
    pub payload_nonce: String,
    pub payload_ciphertext: String,
}

/// An opened manifest: the payload's JSON text and the master key.
#[derive(Debug, Clone)]
pub struct OpenManifest {
    pub payload: Vec<u8>,
    pub master_key: [u8; 32],
}

pub open spec fn manifest_magic() -> Seq<char> {
    "TRACER-MANIFEST"@
}

/// Associated data of the payload: the ASCII text `tracer-manifest-payload-v1`.
pub open spec fn payload_aad() -> Seq<u8> {
    seq![116u8, 114, 97, 99, 101, 114, 45, 109, 97, 110, 105, 102, 101, 115, 116, 45, 112, 97, 121, 108, 111, 97, 100, 45, 118, 49]
}

fn payload_aad_bytes() -> (r: [u8; 26])
    ensures
        r@ == payload_aad(),
{
    let r = [116u8, 114, 97, 99, 101, 114, 45, 109, 97, 110, 105, 102, 101, 115, 116, 45, 112, 97, 121, 108, 111, 97, 100, 45, 118, 49];
    assert(r@ =~= payload_aad());
    r
}

/// Whether a header is of this format and version.
pub open spec fn header_check(h: ManifestHeader) -> Result<(), SyncErrorView> {
    if h.magic@ != manifest_magic() {
        Err(SyncErrorView::Format("不是 Tracer 控制文件"@))
    } else if h.version != MANIFEST_FORMAT_VERSION {
        Err(SyncErrorView::Format("不支持的控制文件版本: "@ + decimal_text(h.version as int)))
    } else {
        Ok(())
    }
}

/// Checks a manifest header's magic text and version.
pub fn validate_header(header: &ManifestHeader) -> (r: Result<(), SyncError>)
    ensures
        match r {
            Ok(()) => header_check(*header) is Ok,
            Err(e) => header_check(*header) == Err::<(), SyncErrorView>(e@),
        },
{
    let magic = "TRACER-MANIFEST".to_owned();
    if header.magic != magic {
        return Err(format_error("不是 Tracer 控制文件"));
    }
    if header.version != MANIFEST_FORMAT_VERSION {
        let text = "不支持的控制文件版本: ".to_owned();
        let number = decimal_string(header.version as i64);
        return Err(SyncError::Format(text.concat(number.as_str())));
    }
    Ok(())
}

/// What `open_manifest_with_master` gives for a header and master key.
pub open spec fn open_with_master_result(h: ManifestHeader, master: Seq<u8>) -> Result<Seq<u8>, SyncErrorView> {
    match header_check(h) {
        Err(e) => Err(e),
        Ok(_) => match base64_decoding(h.payload_nonce@) {
            None => Err(SyncErrorView::Format("控制文件 nonce 无效"@)),
            Some(n) => match base64_decoding(h.payload_ciphertext@) {
                None => Err(SyncErrorView::Format("控制内容编码无效"@)),
                Some(d) => open_bytes_result(master, payload_aad(), n, d),
            },
        },
    }
}

/// What `open_manifest` gives for a header and password: the payload and the
/// master key.
pub open spec fn open_manifest_result(h: ManifestHeader, password: Seq<char>) -> Result<(Seq<u8>, Seq<u8>), SyncErrorView> {
    match header_check(h) {
        Err(e) => Err(e),
        Ok(_) => match base64_decoding(h.salt@) {
            None => Err(SyncErrorView::Format("控制文件 salt 无效"@)),
            Some(salt) => match derive_result(password, salt, h.kdf) {
                Err(e) => Err(e),
                Ok(pk) => match unwrap_result(pk, h.wrapped_master_key.nonce@, h.wrapped_master_key.ciphertext@) {
                    Err(e) => Err(e),
                    Ok(mk) => match open_with_master_result(h, mk) {
                        Err(e) => Err(e),
                        Ok(p) => Ok((p, mk)),
                    },
                },
            },
        },
    }
}

/// Seals the payload under the master key into a header that also carries
/// the given cost parameters, salt and wrapped master key.
pub fn encode_manifest_with_wrapped(
    kdf: &KdfParams,
    salt: &[u8],
    wrapped: &WrappedMasterKey,
    master_key: &[u8; 32],
    payload: &[u8],
) -> (r: Result<ManifestHeader, SyncError>)
    requires
        salt@.len() <= usize::MAX / 2,
        payload@.len() <= usize::MAX / 4,
    ensures
        r is Ok <==> xchacha_message_fits(payload@.len()),
        match r {
            Ok(h) => {
                &&& h.magic@ == manifest_magic()
                &&& h.version == MANIFEST_FORMAT_VERSION
                &&& h.kdf == *kdf
                &&& base64_decoding(h.salt@) == Some(salt@)
                &&& h.wrapped_master_key.nonce@ == wrapped.nonce@
                &&& h.wrapped_master_key.ciphertext@ == wrapped.ciphertext@
                &&& open_with_master_result(h, master_key@) == Ok::<Seq<u8>, SyncErrorView>(payload@)
            },
            Err(e) => e@ == SyncErrorView::Crypto("加密失败"@),
        },
{
    let aad = payload_aad_bytes();
    let (nonce, ciphertext) = match seal_bytes(master_key, &aad, payload) {
        Ok(v) => v,
        Err(e) => {
            return Err(e);
        },
    };
    let h = ManifestHeader {
        magic: "TRACER-MANIFEST".to_owned(),
        version: MANIFEST_FORMAT_VERSION,
        kdf: KdfParams { memory_kib: kdf.memory_kib, iterations: kdf.iterations, parallelism: kdf.parallelism },
        salt: base64_encode(salt),
        wrapped_master_key: WrappedMasterKey {
            nonce: bytes_to_vec(wrapped.nonce.as_slice()),
            ciphertext: bytes_to_vec(wrapped.ciphertext.as_slice()),
        },
        payload_nonce: base64_encode(nonce.as_slice()),
        payload_ciphertext: base64_encode(ciphertext.as_slice()),
    };
    Ok(h)
}

/// Seals the payload under the master key, and the master key under a key
/// derived from the password with the default costs and a fresh random salt.
pub fn encode_manifest(password: &str, master_key: &[u8; 32], payload: &[u8]) -> (r: Result<ManifestHeader, SyncError>)
    requires
        payload@.len() <= usize::MAX / 4,
    ensures
        r is Ok <==> (password@.len() > 0 && vstd::utf8::encode_utf8(password@).len() <= 0xFFFF_FFFF
            && xchacha_message_fits(payload@.len())),
        match r {
            Ok(h) => h.kdf == KdfParams { memory_kib: 65536, iterations: 3, parallelism: 1 }
                && open_manifest_result(h, password@) == Ok::<(Seq<u8>, Seq<u8>), SyncErrorView>((payload@, master_key@)),
            Err(e) => password@.len() == 0 ==> e@ == SyncErrorView::Crypto("同步密码不能为空"@),
        },
{
    let kdf = KdfParams { memory_kib: 65536, iterations: 3, parallelism: 1 };
    let salt: [u8; 16] = random_bytes();
    let password_key = match derive_password_key(password, &salt, &kdf) {
        Ok(k) => k,
        Err(e) => {
            return Err(e);
        },
    };
    let wrapped = match wrap_master_key(&password_key, master_key) {
        Ok(w) => w,
        Err(e) => {
            return Err(e);
        },
    };
    let r = encode_manifest_with_wrapped(&kdf, &salt, &wrapped, master_key, payload);
    proof {
        if r is Ok {
            assert(header_check(r->Ok_0) is Ok);
        }
    }
    r
}

/// Opens the payload with the master key.
pub fn open_manifest_with_master(header: &ManifestHeader, master: &[u8; 32]) -> (r: Result<Vec<u8>, SyncError>)
    ensures
        crate::stream::bytes_result(r) == open_with_master_result(*header, master@),
{
    match validate_header(header) {
        Err(e) => {
            return Err(e);
        },
        Ok(()) => {},
    }
    let nonce = match base64_decode(header.payload_nonce.as_str()) {
        Some(n) => n,
        None => {
            return Err(format_error("控制文件 nonce 无效"));
        },
    };
    let data = match base64_decode(header.payload_ciphertext.as_str()) {
        Some(d) => d,
        None => {
            return Err(format_error("控制内容编码无效"));
        },
    };
    let aad = payload_aad_bytes();
    open_bytes(master, &aad, nonce.as_slice(), data.as_slice())
}

/// Opens a manifest with the sync password: derives the password key,
/// unwraps the master key and opens the payload.
pub fn open_manifest(header: &ManifestHeader, password: &str) -> (r: Result<OpenManifest, SyncError>)
    requires
        header.kdf.parallelism * 8 <= u32::MAX,
    ensures
        match r {
            Ok(o) => open_manifest_result(*header, password@) == Ok::<(Seq<u8>, Seq<u8>), SyncErrorView>((o.payload@, o.master_key@)),
            Err(e) => open_manifest_result(*header, password@) == Err::<(Seq<u8>, Seq<u8>), SyncErrorView>(e@),
        },
{
    match validate_header(header) {
        Err(e) => {
            return Err(e);
        },
        Ok(()) => {},
    }
    let salt = match base64_decode(header.salt.as_str()) {
        Some(s) => s,
        None => {
            return Err(format_error("控制文件 salt 无效"));
        },
    };
    let password_key = match derive_password_key(password, salt.as_slice(), &header.kdf) {
        Ok(k) => k,
        Err(e) => {
            return Err(e);
        },
    };
    let master = match unwrap_master_key(&password_key, &header.wrapped_master_key) {
        Ok(m) => m,
        Err(e) => {
            return Err(e);
        },
    };
    match open_manifest_with_master(header, &master) {
        Ok(payload) => Ok(OpenManifest { payload, master_key: master }),
        Err(e) => Err(e),
    }
}

/// Replaces the payload, keeping the salt, costs and wrapped master key, so
/// that the same password opens the new manifest.
pub fn replace_manifest_payload(header: &ManifestHeader, master: &[u8; 32], payload: &[u8]) -> (r: Result<ManifestHeader, SyncError>)
    requires
        payload@.len() <= usize::MAX / 4,
    ensures
        r is Ok <==> (header_check(*header) is Ok && xchacha_message_fits(payload@.len())),
        match r {
            Ok(h) => {
                &&& open_with_master_result(h, master@) == Ok::<Seq<u8>, SyncErrorView>(payload@)
                &&& forall|password: Seq<char>|
                    #[trigger] open_manifest_result(*header, password) matches Ok((_, mk)) && mk == master@
                        ==> open_manifest_result(h, password) == Ok::<(Seq<u8>, Seq<u8>), SyncErrorView>((payload@, master@))
            },
            Err(e) => header_check(*header) is Err ==> header_check(*header) == Err::<(), SyncErrorView>(e@),
        },
{
    match validate_header(header) {
        Err(e) => {
            return Err(e);
        },
        Ok(()) => {},
    }
    let aad = payload_aad_bytes();
    let (nonce, ciphertext) = match seal_bytes(master, &aad, payload) {
        Ok(v) => v,
        Err(e) => {
            return Err(e);
        },
    };
    let h = ManifestHeader {
        magic: header.magic.clone(),
        version: header.version,
        kdf: KdfParams {
            memory_kib: header.kdf.memory_kib,
            iterations: header.kdf.iterations,
            parallelism: header.kdf.parallelism,
        },
        salt: header.salt.clone(),
        wrapped_master_key: WrappedMasterKey {
            nonce: bytes_to_vec(header.wrapped_master_key.nonce.as_slice()),
            ciphertext: bytes_to_vec(header.wrapped_master_key.ciphertext.as_slice()),
        },
        payload_nonce: base64_encode(nonce.as_slice()),
        payload_ciphertext: base64_encode(ciphertext.as_slice()),
    };
    assert(header_check(h) == header_check(*header));
    Ok(h)
}

/// The master key a password change uses: the cached one, or else the one
/// the old password opens (an error when neither is given).
pub open spec fn master_for(h: ManifestHeader, old_password: Option<Seq<char>>, cached: Option<Seq<u8>>) -> Result<Seq<u8>, SyncErrorView> {
    match cached {
        Some(c) => Ok(c),
        None => match old_password {
            None => Err(SyncErrorView::Crypto("需要旧同步密码"@)),
            Some(p) => match open_manifest_result(h, p) {
                Ok((_, m)) => Ok(m),
                Err(e) => Err(e),
            },
        },
    }
}

/// Re-seals the manifest under a new password. The master key is the cached
/// one, or else the one the old password opens (which is then required).
pub fn change_password(
    header: &ManifestHeader,
    old_password: Option<&str>,
    cached_master: Option<[u8; 32]>,
    new_password: &str,
) -> (r: Result<ManifestHeader, SyncError>)
    requires
        cached_master is None && old_password is Some ==> header.kdf.parallelism * 8 <= u32::MAX,
    ensures
        ({
            let old = match old_password { Some(p) => Some(p@), None => None };
            let cached = match cached_master { Some(c) => Some(c@), None => None };
            match master_for(*header, old, cached) {
                Err(e) => r matches Err(x) && x@ == e,
                Ok(m) => match open_with_master_result(*header, m) {
                    Err(e) => r matches Err(x) && x@ == e,
                    Ok(payload) => {
                        &&& (r is Ok <==> (new_password@.len() > 0
                            && vstd::utf8::encode_utf8(new_password@).len() <= 0xFFFF_FFFF
                            && payload.len() <= usize::MAX / 4
                            && xchacha_message_fits(payload.len())))
                        &&& (r matches Ok(h) ==> open_manifest_result(h, new_password@)
                            == Ok::<(Seq<u8>, Seq<u8>), SyncErrorView>((payload, m)))
                        &&& (new_password@.len() == 0 && payload.len() <= usize::MAX / 4 ==> (r matches Err(x) && x@ == SyncErrorView::Crypto("同步密码不能为空"@)))
                    },
                },
            }
        }),
{
    let master = match cached_master {
        Some(v) => v,
        None => {
            let pw = match old_password {
                Some(p) => p,
                None => {
                    return Err(crypto_error("需要旧同步密码"));
                },
            };
            match open_manifest(header, pw) {
                Ok(o) => o.master_key,
                Err(e) => {
                    return Err(e);
                },
            }
        },
    };
    let payload = match open_manifest_with_master(header, &master) {
        Ok(p) => p,
        Err(e) => {
            return Err(e);
        },
    };
    if payload.len() > usize::MAX / 4 {
        return Err(crypto_error("加密失败"));
    }
    encode_manifest(new_password, &master, payload.as_slice())
}

/// The abstract value of a package descriptor.
pub struct PackageView {
    pub year: i32,
    pub revision: Seq<char>,
    pub sha256: Seq<char>,
    pub encrypted_bytes: u64,
    pub session_count: u64,
}

impl View for PackageDescriptor {
    type V = PackageView;

    open spec fn view(&self) -> PackageView {
        PackageView {
            year: self.year,
            revision: self.revision@,
            sha256: self.sha256@,
            encrypted_bytes: self.encrypted_bytes,
            session_count: self.session_count,
        }
    }
}

pub open spec fn package_views(s: Seq<PackageDescriptor>) -> Seq<PackageView> {
    s.map_values(|p: PackageDescriptor| p@)
}

impl PackageDescriptor {
    /// An exact copy.
    pub fn copy(&self) -> (r: Self)
        ensures
            r@ == self@,
    {
        PackageDescriptor {
            year: self.year,
            revision: self.revision.clone(),
            sha256: self.sha256.clone(),
            encrypted_bytes: self.encrypted_bytes,
            session_count: self.session_count,
        }
    }
}

/// A fresh random identifier (`uuid::Uuid::new_v4`), in its hyphenated text
/// form. Trusted: the text has 36 characters; nothing else is promised.
#[verifier::external_body]
fn new_uuid() -> (r: String)
    ensures
        r@.len() == 36,
{
    uuid::Uuid::new_v4().to_string()
}

/// The payload of a new sync space: fresh random space and generation ids,
/// and no packages or metadata yet.
pub fn new_space_payload() -> (r: ManifestPayload)
    ensures
        r.sync_space_id@.len() == 36,
        r.generation_id@.len() == 36,
        r.packages@.len() == 0,
        r.devices@.len() == 0,
        r.apps@.len() == 0,
        r.categories@.len() == 0,
{
    ManifestPayload {
        sync_space_id: new_uuid(),
        generation_id: new_uuid(),
        packages: Vec::new(),
        devices: Vec::new(),
        apps: Vec::new(),
        categories: Vec::new(),
    }
}

/// Starts a sync space: a fresh random master key seals the payload (the JSON
/// text of a new space's payload), and the password wraps the master key.
pub fn new_space(password: &str, payload: &[u8]) -> (r: Result<(ManifestHeader, [u8; 32]), SyncError>)
    requires
        payload@.len() <= usize::MAX / 4,
    ensures
        r is Ok <==> (password@.len() > 0 && vstd::utf8::encode_utf8(password@).len() <= 0xFFFF_FFFF
            && xchacha_message_fits(payload@.len())),
        match r {
            Ok((h, master)) => open_manifest_result(h, password@) == Ok::<(Seq<u8>, Seq<u8>), SyncErrorView>((payload@, master@)),
            Err(e) => password@.len() == 0 ==> e@ == SyncErrorView::Crypto("同步密码不能为空"@),
        },
{
    let master: [u8; 32] = random_bytes();
    match encode_manifest(password, &master, payload) {
        Ok(h) => Ok((h, master)),
        Err(e) => Err(e),
    }
}

/// The associated context of a yearly package: the UTF-8 text
/// `tracer-package-v1/{space}/{generation}/{year}`.
pub open spec fn package_context_text(space: Seq<char>, generation: Seq<char>, year: i32) -> Seq<char> {
    "tracer-package-v"@ + decimal_text(PACKAGE_FORMAT_VERSION as int) + "/"@ + space + "/"@ + generation + "/"@
        + decimal_text(year as int)
}

/// The context bytes that bind a package to its space, generation and year.
pub fn package_context(space: &str, generation: &str, year: i32) -> (r: Vec<u8>)
    ensures
        r@ == vstd::utf8::encode_utf8(package_context_text(space@, generation@, year)),
{
    let text = "tracer-package-v".to_owned();
    let version = decimal_string(PACKAGE_FORMAT_VERSION as i64);
    let text = text.concat(version.as_str());
    let text = text.concat("/");
    let text = text.concat(space);
    let text = text.concat("/");
    let text = text.concat(generation);
    let text = text.concat("/");
    let y = decimal_string(year as i64);
    let text = text.concat(y.as_str());
    text.as_str().as_bytes_vec()
}

/// Encrypts the compressed package database as a stream bound to the
/// package's context.
pub fn seal_package(compressed: &[u8], master: &[u8; 32], space: &str, generation: &str, year: i32) -> (r: Vec<u8>)
    ensures
        exists|prefix: Seq<u8>| prefix.len() == 16 && r@ == #[trigger] encrypted_stream(master@,
            vstd::utf8::encode_utf8(package_context_text(space@, generation@, year)), prefix, compressed@),
        parse_stream(master@, vstd::utf8::encode_utf8(package_context_text(space@, generation@, year)), r@)
            == Ok::<Seq<u8>, SyncErrorView>(compressed@),
{
    let context = package_context(space, generation, year);
    encrypt_stream(compressed, master, context.as_slice())
}

/// The descriptor of an encrypted package: its year, revision, digest, size
/// and number of sessions.
pub fn describe_package(year: i32, revision: &str, encrypted: &[u8], session_count: u64) -> (r: PackageDescriptor)
    ensures
        r@ == (PackageView {
            year,
            revision: revision@,
            sha256: hex_text(sha256(encrypted@)),
            encrypted_bytes: encrypted@.len() as u64,
            session_count,
        }),
{
    PackageDescriptor {
        year,
        revision: revision.to_owned(),
        sha256: sha256_hex(encrypted),
        encrypted_bytes: encrypted.len() as u64,
        session_count,
    }
}

/// Checks an encrypted package against its descriptor's digest, then
/// decrypts it with the context of the descriptor's year.
pub fn open_package(encrypted: &[u8], expected: &PackageDescriptor, space: &str, generation: &str, master: &[u8; 32]) -> (r: Result<Vec<u8>, SyncError>)
    ensures
        hex_text(sha256(encrypted@)) != expected.sha256@ ==> bytes_result(r) == Err::<Seq<u8>, SyncErrorView>(SyncErrorView::Format("年度包摘要不匹配"@)),
        hex_text(sha256(encrypted@)) == expected.sha256@ ==> bytes_result(r) == parse_stream(master@,
            vstd::utf8::encode_utf8(package_context_text(space@, generation@, expected.year)), encrypted@),
{
    let digest = sha256_hex(encrypted);
    if digest != expected.sha256.clone() {
        return Err(format_error("年度包摘要不匹配"));
    }
    let context = package_context(space, generation, expected.year);
    decrypt_stream(encrypted, master, context.as_slice())
}

/// What a package's own metadata table must say: the format version, space,
/// generation, year and revision the manifest expects.
pub fn check_package_meta(
    format_version: u32,
    space: &str,
    generation: &str,
    year: i32,
    revision: &str,
    expected_space: &str,
    expected_generation: &str,
    expected: &PackageDescriptor,
) -> (r: Result<(), SyncError>)
    ensures
        r is Ok <==> (format_version == PACKAGE_FORMAT_VERSION && space@ == expected_space@
            && generation@ == expected_generation@ && year == expected.year && revision@ == expected.revision@),
        r matches Err(e) ==> e@ == SyncErrorView::Format("年度包元数据与控制文件不一致"@),
{
    let same = format_version == PACKAGE_FORMAT_VERSION && space.to_owned() == expected_space.to_owned()
        && generation.to_owned() == expected_generation.to_owned() && year == expected.year
        && revision.to_owned() == expected.revision.clone();
    if same {
        Ok(())
    } else {
        Err(format_error("年度包元数据与控制文件不一致"))
    }
}

/// The number of sessions read from a package must be the one its
/// descriptor records.
pub fn check_session_count(count: usize, expected: &PackageDescriptor) -> (r: Result<(), SyncError>)
    ensures
        r is Ok <==> count as int == expected.session_count as int,
        r matches Err(e) ==> e@ == SyncErrorView::Format("年度包会话数量不匹配"@),
{
    if count as u64 != expected.session_count || count as u128 > u64::MAX as u128 {
        Err(format_error("年度包会话数量不匹配"))
    } else {
        Ok(())
    }
}

/// The zstd frame that `zstd::stream::encode_all` writes for `data` at
/// compression `level`.
pub uninterp spec fn zstd_frame(data: Seq<u8>, level: i32) -> Seq<u8>;

/// What `zstd::stream::decode_all` reads back from `data`, when it is a
/// valid zstd stream.
pub uninterp spec fn zstd_content(data: Seq<u8>) -> Option<Seq<u8>>;

/// Compresses with `zstd::stream::encode_all` into a `Vec`. Trusted: at a
/// level from 1 to 22 it succeeds (reading from a slice and writing to a
/// `Vec` cannot fail; only zstd running out of memory could, which is not
/// modelled); a result is the frame for the data and level, and decoding it
/// gives the data back; the error text is the crate's I/O error.
#[verifier::external_body]
fn zstd_compress(data: &[u8], level: i32) -> (r: Result<Vec<u8>, String>)
    ensures
        1 <= level <= 22 ==> r is Ok,
        r matches Ok(c) ==> c@ == zstd_frame(data@, level) && zstd_content(c@) == Some(data@),
{
    zstd::stream::encode_all(data, level).map_err(|e| e.to_string())
}

/// Decompresses with `zstd::stream::decode_all`. Trusted: a valid stream
/// gives its content, a result is the content of the stream, and invalid
/// input is refused; the error text is the crate's I/O error.
#[verifier::external_body]
fn zstd_decompress(data: &[u8]) -> (r: Result<Vec<u8>, String>)
    ensures
        r is Ok <==> zstd_content(data@) is Some,
        r matches Ok(p) ==> zstd_content(data@) == Some(p@),
{
    zstd::stream::decode_all(data).map_err(|e| e.to_string())
}

/// The compression level of yearly packages.
pub const PACKAGE_ZSTD_LEVEL: i32 = 6;

/// The year's database a package holds: none when the digest differs from
/// the expected one, the stream does not open, or the content is not zstd.
pub open spec fn year_contents(encrypted: Seq<u8>, expected_sha256: Seq<char>, year: i32, space: Seq<char>, generation: Seq<char>, master: Seq<u8>) -> Option<Seq<u8>> {
    if hex_text(sha256(encrypted)) != expected_sha256 {
        None
    } else {
        match parse_stream(master, vstd::utf8::encode_utf8(package_context_text(space, generation, year)), encrypted) {
            Ok(c) => zstd_content(c),
            Err(_) => None,
        }
    }
}

/// Compresses the year's database and encrypts it for the package's
/// context. What it gives opens back, under its own digest, to the database.
pub fn seal_year(raw: &[u8], master: &[u8; 32], space: &str, generation: &str, year: i32) -> (r: Result<Vec<u8>, SyncError>)
    ensures
        r matches Ok(e) && year_contents(e@, hex_text(sha256(e@)), year, space@, generation@, master@) == Some(raw@),
{
    let compressed = match zstd_compress(raw, PACKAGE_ZSTD_LEVEL) {
        Ok(c) => c,
        Err(m) => {
            return Err(SyncError::Io(m));
        },
    };
    Ok(seal_package(compressed.as_slice(), master, space, generation, year))
}

/// Checks a package against its descriptor's digest, decrypts it for the
/// descriptor's year and decompresses the year's database.
pub fn open_year(encrypted: &[u8], expected: &PackageDescriptor, space: &str, generation: &str, master: &[u8; 32]) -> (r: Result<Vec<u8>, SyncError>)
    ensures
        hex_text(sha256(encrypted@)) != expected.sha256@ ==> (r matches Err(e) && e@ == SyncErrorView::Format("年度包摘要不匹配"@)),
        hex_text(sha256(encrypted@)) == expected.sha256@ ==> match parse_stream(master@,
            vstd::utf8::encode_utf8(package_context_text(space@, generation@, expected.year)), encrypted@) {
            Err(x) => r matches Err(e) && e@ == x,
            Ok(c) => match zstd_content(c) {
                Some(p) => r matches Ok(v) && v@ == p,
                None => r matches Err(e) && e is Io,
            },
        },
        year_contents(encrypted@, expected.sha256@, expected.year, space@, generation@, master@) matches Some(p)
            ==> r matches Ok(v) && v@ == p,
        r matches Ok(v) ==> year_contents(encrypted@, expected.sha256@, expected.year, space@, generation@, master@) == Some(v@),
{
    let compressed = match open_package(encrypted, expected, space, generation, master) {
        Ok(c) => c,
        Err(e) => {
            return Err(e);
        },
    };
    match zstd_decompress(compressed.as_slice()) {
        Ok(p) => Ok(p),
        Err(m) => Err(SyncError::Io(m)),
    }
}

/// A sealed year opens back to its database: what `seal_year` gives for
/// `raw` (its `ensures`) opens, by `open_year`, to `raw` under any descriptor
/// that records the sealed bytes' digest and the year.
pub proof fn law_sealed_year_opens(
    sealed: Seq<u8>,
    raw: Seq<u8>,
    expected: PackageDescriptor,
    space: Seq<char>,
    generation: Seq<char>,
    master: Seq<u8>,
    year: i32,
)
    requires
        year_contents(sealed, hex_text(sha256(sealed)), year, space, generation, master) == Some(raw),
        expected.sha256@ == hex_text(sha256(sealed)),
        expected.year == year,
    ensures
        year_contents(sealed, expected.sha256@, expected.year, space, generation, master) == Some(raw),
{
}

} // verus!
