//! The encrypted stream format of a yearly package: a 28-byte header (magic
//! `TRCENC01`, chunk size, random nonce prefix) followed by frames, each a
//! little-endian ciphertext length, a final-frame flag and the ciphertext of
//! one chunk of at most `STREAM_CHUNK_SIZE` bytes.

use vstd::prelude::*;
use vstd::bytes::{
    lemma_auto_spec_u32_to_from_le_bytes, spec_u32_from_le_bytes, spec_u32_to_le_bytes,
    spec_u64_to_le_bytes, u32_from_le_bytes, u32_to_le_bytes, u64_to_le_bytes,
};
use crate::crypto::{aead_decrypt, aead_encrypt, xchacha_open, xchacha_seal, xchacha_message_fits};
use crate::error::{crypto_error, format_error, SyncError, SyncErrorView};

verus! {

/// Plaintext chunk size of the frames that `encrypt_stream` writes.
pub const STREAM_CHUNK_SIZE: usize = 1048576;

/// The largest chunk size that `decrypt_stream` accepts in a header.
pub const MAX_STREAM_CHUNK_SIZE: u32 = 16777216;

/// The magic bytes: the ASCII text `TRCENC01`.
pub open spec fn stream_magic() -> Seq<u8> {
    seq![84u8, 82, 67, 69, 78, 67, 48, 49]
}

fn stream_magic_bytes() -> (r: [u8; 8])
    ensures
        r@ == stream_magic(),
{
    let r = [84u8, 82, 67, 69, 78, 67, 48, 49];
    assert(r@ =~= stream_magic());
    r
}

/// The message of a read past the end of the input.
pub open spec fn eof_message() -> Seq<char> {
    "failed to fill whole buffer"@
}

fn eof_error() -> (e: SyncError)
    ensures
        e@ == SyncErrorView::Io(eof_message()),
{
    SyncError::Io("failed to fill whole buffer".to_owned())
}

/// The nonce of frame `index`: the 16-byte prefix, then the index as 8
/// little-endian bytes.
pub open spec fn stream_nonce_spec(prefix: Seq<u8>, index: int) -> Seq<u8> {
    prefix + spec_u64_to_le_bytes(index as u64)
}

/// The associated data of frame `index`: the context, the index as 8
/// little-endian bytes, then 1 for the final frame and 0 otherwise.
pub open spec fn stream_aad_spec(context: Seq<u8>, index: int, is_final: bool) -> Seq<u8> {
    context + spec_u64_to_le_bytes(index as u64) + seq![if is_final { 1u8 } else { 0u8 }]
}

/// The nonce of frame `index`.
pub fn stream_nonce(prefix: &[u8; 16], index: u64) -> (r: [u8; 24])
    ensures
        r@ == stream_nonce_spec(prefix@, index as int),
{
    let le = u64_to_le_bytes(index);
    let mut nonce = [0u8; 24];
    let mut i: usize = 0;
    while i < 24
        invariant
            i <= 24,
            le@ == spec_u64_to_le_bytes(index),
            le@.len() == 8,
            forall|j: int| 0 <= j < i ==> nonce@[j] == (prefix@ + le@)[j],
        decreases 24 - i,
    {
        if i < 16 {
            nonce[i] = prefix[i];
        } else {
            nonce[i] = le[i - 16];
        }
        i = i + 1;
    }
    proof {
        vstd::bytes::lemma_auto_spec_u64_to_from_le_bytes();
    }
    assert(nonce@ =~= stream_nonce_spec(prefix@, index as int));
    nonce
}

/// The associated data of frame `index`.
pub fn stream_aad(context: &[u8], index: u64, is_final: bool) -> (r: Vec<u8>)
    ensures
        r@ == stream_aad_spec(context@, index as int, is_final),
{
    let mut aad = crate::crypto::bytes_to_vec(context);
    let le = u64_to_le_bytes(index);
    let mut i: usize = 0;
    while i < le.len()
        invariant
            i <= le@.len(),
            aad@ == context@ + le@.take(i as int),
        decreases le.len() - i,
    {
        aad.push(le[i]);
        i = i + 1;
        assert(aad@ =~= context@ + le@.take(i as int));
    }
    assert(le@.take(i as int) =~= le@);
    aad.push(if is_final { 1u8 } else { 0u8 });
    assert(aad@ =~= stream_aad_spec(context@, index as int, is_final));
    aad
}

/// The chunks a plaintext is cut into: pieces of `cs` bytes, the last one
/// shorter or equal; an empty plaintext is one empty chunk.
pub open spec fn stream_chunks(plain: Seq<u8>, cs: nat) -> Seq<Seq<u8>>
    decreases plain.len(),
{
    if plain.len() <= cs || cs == 0 {
        seq![plain]
    } else {
        seq![plain.take(cs as int)] + stream_chunks(plain.skip(cs as int), cs)
    }
}

/// One frame: ciphertext length (4 bytes, little-endian), final flag, ciphertext.
pub open spec fn frame_bytes(ct: Seq<u8>, is_final: bool) -> Seq<u8> {
    spec_u32_to_le_bytes(ct.len() as u32) + seq![if is_final { 1u8 } else { 0u8 }] + ct
}

/// The frames of `chunks`, numbered from `index`; the last one is final.
pub open spec fn encode_frames(key: Seq<u8>, context: Seq<u8>, prefix: Seq<u8>, chunks: Seq<Seq<u8>>, index: int) -> Seq<u8>
    decreases chunks.len(),
{
    if chunks.len() == 0 {
        Seq::empty()
    } else {
        let fin = chunks.len() == 1;
        frame_bytes(
            xchacha_seal(key, stream_nonce_spec(prefix, index), stream_aad_spec(context, index, fin), chunks[0]),
            fin,
        ) + encode_frames(key, context, prefix, chunks.drop_first(), index + 1)
    }
}

/// The header: magic, chunk size (4 bytes, little-endian), nonce prefix.
pub open spec fn stream_header(prefix: Seq<u8>) -> Seq<u8> {
    stream_magic() + spec_u32_to_le_bytes(STREAM_CHUNK_SIZE as u32) + prefix
}

/// The encrypted stream of `plain` under `key` and `context` with nonce prefix `prefix`.
pub open spec fn encrypted_stream(key: Seq<u8>, context: Seq<u8>, prefix: Seq<u8>, plain: Seq<u8>) -> Seq<u8> {
    stream_header(prefix) + encode_frames(key, context, prefix, stream_chunks(plain, STREAM_CHUNK_SIZE as nat), 0)
}

/// `p` in front of a successful result.
pub open spec fn prepend(p: Seq<u8>, r: Result<Seq<u8>, SyncErrorView>) -> Result<Seq<u8>, SyncErrorView> {
    match r {
        Ok(x) => Ok(p + x),
        Err(e) => Err(e),
    }
}

/// Reading frames from `rest`, the first being number `index`.
pub open spec fn parse_frames(
    key: Seq<u8>,
    context: Seq<u8>,
    prefix: Seq<u8>,
    cs: nat,
    rest: Seq<u8>,
    index: nat,
) -> Result<Seq<u8>, SyncErrorView>
    decreases rest.len(),
{
    if rest.len() < 4 {
        Err(SyncErrorView::Io(eof_message()))
    } else {
        let len = spec_u32_from_le_bytes(rest.take(4)) as nat;
        if len < 16 || len > cs + 16 {
            Err(SyncErrorView::Format("年度包分块长度无效"@))
        } else if rest.len() < 5 {
            Err(SyncErrorView::Io(eof_message()))
        } else if rest[4] > 1 {
            Err(SyncErrorView::Format("年度包结束标记无效"@))
        } else if rest.len() < 5 + len {
            Err(SyncErrorView::Io(eof_message()))
        } else {
            let fin = rest[4] == 1;
            match xchacha_open(
                key,
                stream_nonce_spec(prefix, index as int),
                stream_aad_spec(context, index as int, fin),
                rest.subrange(5, 5 + len as int),
            ) {
                None => Err(SyncErrorView::Crypto("年度包认证失败或已损坏"@)),
                Some(p) => if fin {
                    if rest.len() > 5 + len {
                        Err(SyncErrorView::Format("年度包结束后存在多余数据"@))
                    } else {
                        Ok(p)
                    }
                } else {
                    prepend(p, parse_frames(key, context, prefix, cs, rest.skip(5 + len as int), index + 1))
                },
            }
        }
    }
}

/// Reading a whole stream: the plaintext, or the first error met.
pub open spec fn parse_stream(key: Seq<u8>, context: Seq<u8>, data: Seq<u8>) -> Result<Seq<u8>, SyncErrorView> {
    if data.len() < 8 {
        Err(SyncErrorView::Io(eof_message()))
    } else if data.take(8) != stream_magic() {
        Err(SyncErrorView::Format("年度包文件标识不支持"@))
    } else if data.len() < 12 {
        Err(SyncErrorView::Io(eof_message()))
    } else {
        let cs = spec_u32_from_le_bytes(data.subrange(8, 12));
        if cs == 0 || cs > MAX_STREAM_CHUNK_SIZE {
            Err(SyncErrorView::Format("年度包分块大小无效"@))
        } else if data.len() < 28 {
            Err(SyncErrorView::Io(eof_message()))
        } else {
            parse_frames(key, context, data.subrange(12, 28), cs as nat, data.skip(28), 0)
        }
    }
}

/// The bytes of a result, for contracts.
pub open spec fn bytes_result(r: Result<Vec<u8>, SyncError>) -> Result<Seq<u8>, SyncErrorView> {
    match r {
        Ok(v) => Ok(v@),
        Err(e) => Err(e@),
    }
}

/// The concatenation of the chunks.
pub open spec fn flatten(chunks: Seq<Seq<u8>>) -> Seq<u8>
    decreases chunks.len(),
{
    if chunks.len() == 0 {
        Seq::empty()
    } else {
        chunks[0] + flatten(chunks.drop_first())
    }
}

/// Every chunk's ciphertext has the length of the chunk plus the tag and
/// decrypts back to the chunk.
pub open spec fn frames_open(key: Seq<u8>, context: Seq<u8>, prefix: Seq<u8>, chunks: Seq<Seq<u8>>, index: int) -> bool {
    forall|j: int|
        #![trigger chunks[j]]
        0 <= j < chunks.len() ==> {
            let fin = j == chunks.len() - 1;
            let n = stream_nonce_spec(prefix, index + j);
            let a = stream_aad_spec(context, index + j, fin);
            &&& xchacha_seal(key, n, a, chunks[j]).len() == chunks[j].len() + 16
            &&& xchacha_open(key, n, a, xchacha_seal(key, n, a, chunks[j])) == Some(chunks[j])
        }
}

/// How many chunks a plaintext of `n` bytes is cut into: one for an empty
/// plaintext, otherwise `n / STREAM_CHUNK_SIZE` rounded up.
pub open spec fn stream_chunk_count(n: nat) -> nat {
    if n == 0 {
        1
    } else {
        ((n + STREAM_CHUNK_SIZE - 1) / (STREAM_CHUNK_SIZE as int)) as nat
    }
}

/// The length of an encrypted stream: a 28-byte header (magic, chunk size,
/// nonce prefix), and per chunk 21 bytes (length, final flag, 16-byte tag)
/// besides the chunk's own bytes.
pub open spec fn encrypted_stream_len(n: nat) -> nat {
    28 + 21 * stream_chunk_count(n) + n
}

proof fn lemma_stream_chunk_count(plain: Seq<u8>)
    ensures
        stream_chunks(plain, STREAM_CHUNK_SIZE as nat).len() == stream_chunk_count(plain.len()),
    decreases plain.len(),
{
    let cs = STREAM_CHUNK_SIZE as nat;
    let n = plain.len();
    if n <= cs {
        if n > 0 {
            assert((n + 1048576 - 1) / 1048576int == 1) by (nonlinear_arith)
                requires
                    0 < n <= 1048576,
            ;
        }
    } else {
        let rest = plain.skip(cs as int);
        lemma_stream_chunk_count(rest);
        let m = rest.len();
        assert(m == n - 1048576);
        assert((n + 1048576 - 1) / 1048576int == (m + 1048576 - 1) / 1048576int + 1) by (nonlinear_arith)
            requires
                m == n - 1048576,
                m > 0,
        ;
    }
}

proof fn lemma_stream_chunks(plain: Seq<u8>, cs: nat)
    requires
        cs > 0,
    ensures
        stream_chunks(plain, cs).len() >= 1,
        flatten(stream_chunks(plain, cs)) == plain,
        forall|j: int| 0 <= j < stream_chunks(plain, cs).len() ==> #[trigger] stream_chunks(plain, cs)[j].len() <= cs,
    decreases plain.len(),
{
    let c = stream_chunks(plain, cs);
    if plain.len() <= cs {
        assert(c.drop_first() =~= Seq::<Seq<u8>>::empty());
        assert(flatten(c.drop_first()) =~= Seq::<u8>::empty());
        assert(flatten(c) == c[0] + flatten(c.drop_first()));
        assert(c[0] == plain);
        assert(flatten(c) =~= plain);
    } else {
        let rest = plain.skip(cs as int);
        lemma_stream_chunks(rest, cs);
        assert(c.drop_first() =~= stream_chunks(rest, cs));
        assert(c[0] == plain.take(cs as int));
        assert(flatten(c) == c[0] + flatten(c.drop_first()));
        assert(plain.take(cs as int) + rest =~= plain);
        assert forall|j: int| 0 <= j < c.len() implies #[trigger] c[j].len() <= cs by {
            if j > 0 {
                assert(c[j] == stream_chunks(rest, cs)[j - 1]);
            }
        }
    }
}

proof fn lemma_parse_encoded(key: Seq<u8>, context: Seq<u8>, prefix: Seq<u8>, cs: nat, chunks: Seq<Seq<u8>>, index: nat)
    requires
        chunks.len() >= 1,
        cs + 16 < 0x1_0000_0000,
        forall|j: int| 0 <= j < chunks.len() ==> #[trigger] chunks[j].len() <= cs,
        frames_open(key, context, prefix, chunks, index as int),
    ensures
        parse_frames(key, context, prefix, cs, encode_frames(key, context, prefix, chunks, index as int), index)
            == Ok::<Seq<u8>, SyncErrorView>(flatten(chunks)),
    decreases chunks.len(),
{
    lemma_auto_spec_u32_to_from_le_bytes();
    let fin = chunks.len() == 1;
    let n = stream_nonce_spec(prefix, index as int);
    let a = stream_aad_spec(context, index as int, fin);
    let ct = xchacha_seal(key, n, a, chunks[0]);
    let tail = encode_frames(key, context, prefix, chunks.drop_first(), index + 1int);
    let rest = encode_frames(key, context, prefix, chunks, index as int);
    assert(chunks[0] == chunks[0]);
    assert(ct.len() == chunks[0].len() + 16);
    assert(rest == frame_bytes(ct, fin) + tail);
    let len = ct.len();
    assert(rest.take(4) =~= spec_u32_to_le_bytes(len as u32));
    assert(spec_u32_from_le_bytes(rest.take(4)) == len as u32);
    assert(rest[4] == if fin { 1u8 } else { 0u8 });
    assert(rest.subrange(5, 5 + len as int) =~= ct);
    if fin {
        assert(tail =~= Seq::<u8>::empty());
        assert(flatten(chunks.drop_first()) =~= Seq::<u8>::empty());
        assert(flatten(chunks) =~= chunks[0]);
    } else {
        let rest_chunks = chunks.drop_first();
        assert forall|j: int| 0 <= j < rest_chunks.len() implies #[trigger] rest_chunks[j].len() <= cs by {
            assert(rest_chunks[j] == chunks[j + 1]);
        }
        assert(frames_open(key, context, prefix, rest_chunks, index + 1int)) by {
            assert forall|j: int| #![trigger rest_chunks[j]] 0 <= j < rest_chunks.len() implies {
                let fin = j == rest_chunks.len() - 1;
                let n = stream_nonce_spec(prefix, index + 1 + j);
                let a = stream_aad_spec(context, index + 1 + j, fin);
                &&& xchacha_seal(key, n, a, rest_chunks[j]).len() == rest_chunks[j].len() + 16
                &&& xchacha_open(key, n, a, xchacha_seal(key, n, a, rest_chunks[j])) == Some(rest_chunks[j])
            } by {
                assert(rest_chunks[j] == chunks[j + 1]);
                assert(index + 1 + j == index + (j + 1));
            }
        }
        lemma_parse_encoded(key, context, prefix, cs, rest_chunks, index + 1);
        assert(rest.skip(5 + len as int) =~= tail);
    }
}

/// Proves that the encrypted stream reads back as the plaintext.
proof fn lemma_stream_roundtrip(key: Seq<u8>, context: Seq<u8>, prefix: Seq<u8>, plain: Seq<u8>)
    requires
        prefix.len() == 16,
        frames_open(key, context, prefix, stream_chunks(plain, STREAM_CHUNK_SIZE as nat), 0),
    ensures
        parse_stream(key, context, encrypted_stream(key, context, prefix, plain)) == Ok::<Seq<u8>, SyncErrorView>(plain),
{
    lemma_auto_spec_u32_to_from_le_bytes();
    let chunks = stream_chunks(plain, STREAM_CHUNK_SIZE as nat);
    lemma_stream_chunks(plain, STREAM_CHUNK_SIZE as nat);
    let data = encrypted_stream(key, context, prefix, plain);
    let frames = encode_frames(key, context, prefix, chunks, 0);
    assert(data.take(8) =~= stream_magic());
    assert(data.subrange(8, 12) =~= spec_u32_to_le_bytes(STREAM_CHUNK_SIZE as u32));
    assert(data.subrange(12, 28) =~= prefix);
    assert(data.skip(28) =~= frames);
    lemma_parse_encoded(key, context, prefix, STREAM_CHUNK_SIZE as nat, chunks, 0);
}


proof fn lemma_truncated_frames(key: Seq<u8>, context: Seq<u8>, prefix: Seq<u8>, cs: nat, rest: Seq<u8>, index: nat, m: int)
    requires
        parse_frames(key, context, prefix, cs, rest, index) is Ok,
        0 <= m < rest.len(),
    ensures
        parse_frames(key, context, prefix, cs, rest.take(m), index) is Err,
    decreases rest.len(),
{
    let t = rest.take(m);
    if t.len() >= 4 {
        assert(t.take(4) =~= rest.take(4));
        let len = spec_u32_from_le_bytes(rest.take(4)) as nat;
        if t.len() >= 5 + len {
            assert(t[4] == rest[4]);
            assert(t.subrange(5, 5 + len as int) =~= rest.subrange(5, 5 + len as int));
            if rest[4] != 1 {
                let tail = rest.skip(5 + len as int);
                assert(t.skip(5 + len as int) =~= tail.take(m - 5 - len));
                lemma_truncated_frames(key, context, prefix, cs, tail, index + 1, m - 5 - len);
            }
        }
    }
}

/// A stream cut short is refused: when the whole stream reads back, no
/// proper prefix of it does (the final frame is missing or incomplete).
pub proof fn law_truncated_stream_is_refused(key: Seq<u8>, context: Seq<u8>, data: Seq<u8>, k: int)
    requires
        parse_stream(key, context, data) is Ok,
        0 <= k < data.len(),
    ensures
        parse_stream(key, context, data.take(k)) is Err,
{
    let t = data.take(k);
    if t.len() >= 28 {
        assert(t.take(8) =~= data.take(8));
        assert(t.subrange(8, 12) =~= data.subrange(8, 12));
        assert(t.subrange(12, 28) =~= data.subrange(12, 28));
        let cs = spec_u32_from_le_bytes(data.subrange(8, 12));
        assert(t.skip(28) =~= data.skip(28).take(k - 28));
        lemma_truncated_frames(key, context, data.subrange(12, 28), cs as nat, data.skip(28), 0, k - 28);
    } else if t.len() >= 12 {
        assert(t.take(8) =~= data.take(8));
        assert(t.subrange(8, 12) =~= data.subrange(8, 12));
    } else if t.len() >= 8 {
        assert(t.take(8) =~= data.take(8));
    }
}

proof fn lemma_extended_frames(key: Seq<u8>, context: Seq<u8>, prefix: Seq<u8>, cs: nat, rest: Seq<u8>, index: nat, extra: Seq<u8>)
    requires
        parse_frames(key, context, prefix, cs, rest, index) is Ok,
        extra.len() > 0,
    ensures
        parse_frames(key, context, prefix, cs, rest + extra, index) is Err,
    decreases rest.len(),
{
    let t = rest + extra;
    assert(t.take(4) =~= rest.take(4));
    let len = spec_u32_from_le_bytes(rest.take(4)) as nat;
    assert(t[4] == rest[4]);
    assert(t.subrange(5, 5 + len as int) =~= rest.subrange(5, 5 + len as int));
    if rest[4] != 1 {
        let tail = rest.skip(5 + len as int);
        assert(t.skip(5 + len as int) =~= tail + extra);
        lemma_extended_frames(key, context, prefix, cs, tail, index + 1, extra);
    }
}

/// Data after the final frame is refused: when a stream reads back, the
/// same stream followed by anything more does not.
pub proof fn law_extended_stream_is_refused(key: Seq<u8>, context: Seq<u8>, data: Seq<u8>, extra: Seq<u8>)
    requires
        parse_stream(key, context, data) is Ok,
        extra.len() > 0,
    ensures
        parse_stream(key, context, data + extra) is Err,
{
    let t = data + extra;
    assert(t.take(8) =~= data.take(8));
    assert(t.subrange(8, 12) =~= data.subrange(8, 12));
    assert(t.subrange(12, 28) =~= data.subrange(12, 28));
    let cs = spec_u32_from_le_bytes(data.subrange(8, 12));
    assert(t.skip(28) =~= data.skip(28) + extra);
    lemma_extended_frames(key, context, data.subrange(12, 28), cs as nat, data.skip(28), 0, extra);
}

/// Appends the bytes of `b` to `out`.
pub fn append_bytes(out: &mut Vec<u8>, b: &[u8])
    ensures
        final(out)@ == old(out)@ + b@,
{
    let ghost start = out@;
    let mut i: usize = 0;
    while i < b.len()
        invariant
            i <= b.len(),
            out@ == start + b@.take(i as int),
        decreases b.len() - i,
    {
        out.push(b[i]);
        i = i + 1;
        assert(out@ =~= start + b@.take(i as int));
    }
    assert(b@.take(i as int) =~= b@);
}

/// The stream of `plain` under `key` and `context`, with the given nonce prefix.
pub fn encrypt_stream_with_prefix(plain: &[u8], key: &[u8; 32], context: &[u8], prefix: &[u8; 16]) -> (r: Vec<u8>)
    ensures
        r@ == encrypted_stream(key@, context@, prefix@, plain@),
        parse_stream(key@, context@, r@) == Ok::<Seq<u8>, SyncErrorView>(plain@),
        r@.len() == encrypted_stream_len(plain@.len()),
{
    let ghost cs = STREAM_CHUNK_SIZE as nat;
    let ghost all = stream_chunks(plain@, cs);
    let ghost target = encrypted_stream(key@, context@, prefix@, plain@);
    let magic = stream_magic_bytes();
    let mut out: Vec<u8> = Vec::new();
    append_bytes(&mut out, &magic);
    let size = u32_to_le_bytes(1048576u32);
    append_bytes(&mut out, size.as_slice());
    append_bytes(&mut out, prefix);
    proof {
        assert(out@ =~= stream_header(prefix@));
        assert(plain@.skip(0) =~= plain@);
    }
    let mut pos: usize = 0;
    let mut idx: u64 = 0;
    let ghost mut done: Seq<Seq<u8>> = Seq::empty();
    loop
        invariant_except_break
            pos <= plain@.len(),
            idx as int * (STREAM_CHUNK_SIZE as int) == pos as int,
            done.len() == idx as int,
            all == stream_chunks(plain@, cs),
            cs == STREAM_CHUNK_SIZE as nat,
            all == done + stream_chunks(plain@.skip(pos as int), cs),
            target == encrypted_stream(key@, context@, prefix@, plain@),
            out@ + encode_frames(key@, context@, prefix@, stream_chunks(plain@.skip(pos as int), cs), idx as int) == target,
            out@.len() == 28 + 21 * idx + pos,
            forall|j: int|
                #![trigger done[j]]
                0 <= j < done.len() ==> {
                    let n = stream_nonce_spec(prefix@, j);
                    let a = stream_aad_spec(context@, j, false);
                    &&& xchacha_seal(key@, n, a, done[j]).len() == done[j].len() + 16
                    &&& xchacha_open(key@, n, a, xchacha_seal(key@, n, a, done[j])) == Some(done[j])
                },
        ensures
            out@ == target,
            frames_open(key@, context@, prefix@, all, 0),
            out@.len() == 28 + 21 * all.len() + plain@.len(),
        decreases plain@.len() - pos,
    {
        let ghost rest = plain@.skip(pos as int);
        let fin = plain.len() - pos <= STREAM_CHUNK_SIZE;
        let end = if fin { plain.len() } else { pos + STREAM_CHUNK_SIZE };
        let chunk = &plain[pos..end];
        let nonce = stream_nonce(prefix, idx);
        let aad = stream_aad(context, idx, fin);
        let ct = match aead_encrypt(key, &nonce, aad.as_slice(), chunk) {
            Some(c) => c,
            None => {
                assert(xchacha_message_fits(chunk@.len()));
                assert(false);
                Vec::new()
            },
        };
        let ghost before = out@;
        let len_bytes = u32_to_le_bytes(ct.len() as u32);
        append_bytes(&mut out, len_bytes.as_slice());
        out.push(if fin { 1u8 } else { 0u8 });
        append_bytes(&mut out, ct.as_slice());
        proof {
            lemma_stream_chunks(rest, cs);
            assert(out@ =~= before + frame_bytes(ct@, fin));
            if fin {
                assert(chunk@ =~= rest);
                assert(stream_chunks(rest, cs) == seq![rest]);
                assert(stream_chunks(rest, cs).drop_first() =~= Seq::<Seq<u8>>::empty());
                assert(encode_frames(key@, context@, prefix@, stream_chunks(rest, cs).drop_first(), idx + 1) =~= Seq::<u8>::empty());
                assert(encode_frames(key@, context@, prefix@, stream_chunks(rest, cs), idx as int) == frame_bytes(ct@, true)
                    + encode_frames(key@, context@, prefix@, stream_chunks(rest, cs).drop_first(), idx + 1));
                assert(out@ =~= target);
                assert(all =~= done.push(chunk@));
                assert forall|j: int|
                    #![trigger all[j]]
                    0 <= j < all.len() implies {
                        let fin = j == all.len() - 1;
                        let n = stream_nonce_spec(prefix@, 0 + j);
                        let a = stream_aad_spec(context@, 0 + j, fin);
                        &&& xchacha_seal(key@, n, a, all[j]).len() == all[j].len() + 16
                        &&& xchacha_open(key@, n, a, xchacha_seal(key@, n, a, all[j])) == Some(all[j])
                    } by {
                    if j < done.len() {
                        assert(all[j] == done[j]);
                    }
                }
            } else {
                let next = plain@.skip(pos + STREAM_CHUNK_SIZE);
                assert(chunk@ =~= rest.take(cs as int));
                assert(rest.skip(cs as int) =~= next);
                lemma_stream_chunks(next, cs);
                assert(stream_chunks(rest, cs) == seq![chunk@] + stream_chunks(next, cs));
                assert(stream_chunks(rest, cs).drop_first() =~= stream_chunks(next, cs));
                assert(stream_chunks(rest, cs).len() > 1);
                assert(all =~= done.push(chunk@) + stream_chunks(next, cs));
                assert(encode_frames(key@, context@, prefix@, stream_chunks(rest, cs), idx as int) == frame_bytes(ct@, false)
                    + encode_frames(key@, context@, prefix@, stream_chunks(next, cs), idx + 1));
                assert(out@ + encode_frames(key@, context@, prefix@, stream_chunks(next, cs), idx + 1) =~= target);
            }
        }
        if fin {
            break ;
        }
        proof {
            done = done.push(chunk@);
        }
        pos = end;
        idx = idx + 1;
    }
    proof {
        lemma_stream_roundtrip(key@, context@, prefix@, plain@);
        lemma_stream_chunk_count(plain@);
    }
    out
}

/// Encrypts `plain` into the stream format under `key`, binding every frame
/// to `context`, with a fresh random nonce prefix; `decrypt_stream` with the
/// same key and context gives `plain` back.
pub fn encrypt_stream(plain: &[u8], key: &[u8; 32], context: &[u8]) -> (r: Vec<u8>)
    ensures
        exists|prefix: Seq<u8>| prefix.len() == 16 && r@ == #[trigger] encrypted_stream(key@, context@, prefix, plain@),
        parse_stream(key@, context@, r@) == Ok::<Seq<u8>, SyncErrorView>(plain@),
        r@.len() == encrypted_stream_len(plain@.len()),
{
    let prefix: [u8; 16] = crate::crypto::random_bytes();
    let r = encrypt_stream_with_prefix(plain, key, context, &prefix);
    assert(r@ == encrypted_stream(key@, context@, prefix@, plain@));
    r
}

/// Reads a stream: checks the header, then decrypts and authenticates the
/// frames in order up to the final one, which must end the input.
pub fn decrypt_stream(data: &[u8], key: &[u8; 32], context: &[u8]) -> (r: Result<Vec<u8>, SyncError>)
    ensures
        bytes_result(r) == parse_stream(key@, context@, data@),
{
    if data.len() < 8 {
        return Err(eof_error());
    }
    let magic = stream_magic_bytes();
    let mut k: usize = 0;
    while k < 8
        invariant
            k <= 8,
            data@.len() >= 8,
            magic@ == stream_magic(),
            forall|j: int| 0 <= j < k ==> data@[j] == magic@[j],
        decreases 8 - k,
    {
        if data[k] != magic[k] {
            assert(data@.take(8)[k as int] != stream_magic()[k as int]);
            return Err(format_error("年度包文件标识不支持"));
        }
        k = k + 1;
    }
    assert(data@.take(8) =~= stream_magic());
    if data.len() < 12 {
        return Err(eof_error());
    }
    let chunk = u32_from_le_bytes(&data[8..12]);
    if chunk == 0 || chunk > MAX_STREAM_CHUNK_SIZE {
        return Err(format_error("年度包分块大小无效"));
    }
    if data.len() < 28 {
        return Err(eof_error());
    }
    let prefix = prefix_from(&data[12..28]);
    let ghost cs = chunk as nat;
    let mut out: Vec<u8> = Vec::new();
    let mut pos: usize = 28;
    let mut idx: u64 = 0;
    proof {
        assert(out@ + data@.skip(28) =~= data@.skip(28));
        assert(prepend(out@, parse_frames(key@, context@, prefix@, cs, data@.skip(28), 0)) =~= parse_stream(key@, context@, data@));
    }
    loop
        invariant
            28 <= pos <= data@.len(),
            idx as int <= pos as int,
            prefix@ == data@.subrange(12, 28),
            cs == chunk as nat,
            0 < chunk <= MAX_STREAM_CHUNK_SIZE,
            data@.len() >= 28,
            parse_stream(key@, context@, data@) == prepend(out@, parse_frames(key@, context@, prefix@, cs, data@.skip(pos as int), idx as nat)),
        decreases data@.len() - pos,
    {
        let ghost rest = data@.skip(pos as int);
        if data.len() - pos < 4 {
            return Err(eof_error());
        }
        assert(data@.subrange(pos as int, pos + 4) =~= rest.take(4));
        let len = u32_from_le_bytes(&data[pos..pos + 4]);
        if len < 16 || len > chunk + 16 {
            return Err(format_error("年度包分块长度无效"));
        }
        if data.len() - pos < 5 {
            return Err(eof_error());
        }
        let flag = data[pos + 4];
        assert(flag == rest[4]);
        if flag > 1 {
            return Err(format_error("年度包结束标记无效"));
        }
        let l = len as usize;
        if data.len() - pos - 5 < l {
            return Err(eof_error());
        }
        let fin = flag == 1;
        let nonce = stream_nonce(&prefix, idx);
        let aad = stream_aad(context, idx, fin);
        let ct = &data[pos + 5..pos + 5 + l];
        assert(ct@ =~= rest.subrange(5, 5 + l as int));
        match aead_decrypt(key, &nonce, aad.as_slice(), ct) {
            None => {
                return Err(crypto_error("年度包认证失败或已损坏"));
            },
            Some(p) => {
                let ghost before = out@;
                append_bytes(&mut out, p.as_slice());
                if fin {
                    if data.len() > pos + 5 + l {
                        return Err(format_error("年度包结束后存在多余数据"));
                    }
                    assert(out@ =~= before + p@);
                    return Ok(out);
                }
                proof {
                    assert(rest.skip(5 + l as int) =~= data@.skip(pos + 5 + l));
                    let tail = parse_frames(key@, context@, prefix@, cs, data@.skip(pos + 5 + l), idx as nat + 1);
                    assert(prepend(before, prepend(p@, tail)) =~= prepend(out@, tail)) by {
                        match tail {
                            Ok(x) => {
                                assert(before + (p@ + x) =~= out@ + x);
                            },
                            Err(e) => {},
                        }
                    }
                }
                pos = pos + 5 + l;
                idx = idx + 1;
            },
        }
    }
}

fn prefix_from(v: &[u8]) -> (r: [u8; 16])
    requires
        v@.len() == 16,
    ensures
        r@ == v@,
{
    let mut r = [0u8; 16];
    let mut i: usize = 0;
    while i < 16
        invariant
            v@.len() == 16,
            i <= 16,
            forall|j: int| 0 <= j < i ==> r@[j] == v@[j],
        decreases 16 - i,
    {
        r[i] = v[i];
        i = i + 1;
    }
    assert(r@ =~= v@);
    r
}

/// Fills `buffer` from `data` starting at `pos`, as far as `data` goes:
/// returns how many bytes were copied (fewer than the buffer holds only at
/// the end of the data).
pub fn read_chunk(data: &[u8], pos: usize, buffer: &mut [u8]) -> (r: usize)
    requires
        pos <= data@.len(),
    ensures
        r == (if data@.len() - pos < old(buffer)@.len() { data@.len() - pos } else { old(buffer)@.len() as int }),
        final(buffer)@.len() == old(buffer)@.len(),
        final(buffer)@.subrange(0, r as int) == data@.subrange(pos as int, pos + r),
        final(buffer)@.subrange(r as int, final(buffer)@.len() as int) == old(buffer)@.subrange(r as int, old(buffer)@.len() as int),
{
    let len = data.len();
    let n = if len - pos < buffer.len() { len - pos } else { buffer.len() };
    let mut i: usize = 0;
    while i < n
        invariant
            len == data@.len(),
            n <= buffer@.len(),
            pos + n <= data@.len(),
            i <= n,
            buffer@.len() == old(buffer)@.len(),
            forall|k: int| 0 <= k < i ==> #[trigger] buffer@[k] == data@[pos + k],
            forall|k: int| i <= k < buffer@.len() ==> #[trigger] buffer@[k] == old(buffer)@[k],
        decreases n - i,
    {
        assert(pos + i < len);
        buffer[i] = data[pos + i];
        i = i + 1;
    }
    assert(buffer@.subrange(0, n as int) =~= data@.subrange(pos as int, pos + n));
    assert(buffer@.subrange(n as int, buffer@.len() as int) =~= old(buffer)@.subrange(n as int, old(buffer)@.len() as int));
    n
}

} // verus!
