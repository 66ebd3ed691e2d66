//! Text encodings of bytes and numbers: standard base64 (with padding),
//! lowercase hexadecimal, SHA-256 digests and decimal numbers.

use vstd::prelude::*;
use base64::engine::general_purpose::STANDARD;
use base64::Engine;
use sha2::{Digest, Sha256};

verus! {

/// The standard (RFC 4648, padded) base64 text of `data`.
pub uninterp spec fn base64_encoding(data: Seq<u8>) -> Seq<char>;

/// The bytes that the standard base64 text `text` decodes to, if it is valid.
pub uninterp spec fn base64_decoding(text: Seq<char>) -> Option<Seq<u8>>;

/// `STANDARD.encode` of the `base64` crate. Trusted: the text decodes back
/// to `data` (the crate's decoder inverts its encoder); the size computation
/// panics only on inputs near `usize::MAX`, which `requires` leaves out.
#[verifier::external_body]
pub(crate) fn base64_encode(data: &[u8]) -> (r: String)
    requires
        data@.len() <= usize::MAX / 2,
    ensures
        r@ == base64_encoding(data@),
        base64_decoding(r@) == Some(data@),
{
    STANDARD.encode(data)
}

/// `STANDARD.decode` of the `base64` crate, of the text's bytes. Trusted:
/// the result is a function of the text; the text of some bytes decodes to
/// those bytes.
#[verifier::external_body]
pub(crate) fn base64_decode(text: &str) -> (r: Option<Vec<u8>>)
    ensures
        match r {
            Some(v) => base64_decoding(text@) == Some(v@),
            None => base64_decoding(text@) is None,
        },
{
    STANDARD.decode(text).ok()
}

/// The SHA-256 digest of `data`.
pub uninterp spec fn sha256(data: Seq<u8>) -> Seq<u8>;

/// `Sha256::digest` of the `sha2` crate. Trusted: the digest is 32 bytes, a
/// function of the data.
#[verifier::external_body]
fn sha256_digest(data: &[u8]) -> (r: [u8; 32])
    ensures
        r@ == sha256(data@),
{
    Sha256::digest(data).into()
}

/// The lowercase hexadecimal digit of `d` (below 16).
pub open spec fn hex_digit(d: int) -> char {
    if d < 10 {
        (48 + d) as char
    } else {
        (87 + d) as char
    }
}

/// Two lowercase hexadecimal digits per byte, most significant first.
pub open spec fn hex_text(data: Seq<u8>) -> Seq<char>
    decreases data.len(),
{
    if data.len() == 0 {
        Seq::empty()
    } else {
        hex_text(data.drop_last()) + seq![hex_digit(data.last() as int / 16), hex_digit(data.last() as int % 16)]
    }
}

fn hex_char(d: u8) -> (c: char)
    requires
        d < 16,
    ensures
        c == hex_digit(d as int),
{
    if d < 10 {
        (48 + d) as char
    } else {
        (87 + d) as char
    }
}

/// A string made of the given characters (`String::from_iter`).
/// Trusted: the string holds exactly these characters, in order.
#[verifier::external_body]
pub(crate) fn string_from_chars(chars: &[char]) -> (r: String)
    ensures
        r@ == chars@,
{
    chars.iter().collect()
}

/// Lowercase hexadecimal text of the bytes.
pub fn hex_string(data: &[u8]) -> (r: String)
    ensures
        r@ == hex_text(data@),
{
    let mut chars: Vec<char> = Vec::new();
    let mut i: usize = 0;
    while i < data.len()
        invariant
            i <= data.len(),
            chars@ == hex_text(data@.take(i as int)),
        decreases data.len() - i,
    {
        let b = data[i];
        chars.push(hex_char(b / 16));
        chars.push(hex_char(b % 16));
        proof {
            let t = data@.take(i + 1);
            assert(t.drop_last() =~= data@.take(i as int));
            assert(t.last() == b);
        }
        i = i + 1;
    }
    assert(data@.take(i as int) =~= data@);
    string_from_chars(chars.as_slice())
}

/// The lowercase hexadecimal SHA-256 digest of `data` (64 characters), as
/// formatted with `{:x}`.
pub fn sha256_hex(data: &[u8]) -> (r: String)
    ensures
        r@ == hex_text(sha256(data@)),
{
    let d = sha256_digest(data);
    hex_string(&d)
}

/// The decimal digits of `n`, without leading zeros.
pub open spec fn decimal_digits(n: nat) -> Seq<char>
    decreases n,
{
    if n < 10 {
        seq![(48 + n) as char]
    } else {
        decimal_digits(n / 10) + seq![(48 + n % 10) as char]
    }
}

/// The decimal text of an integer: a minus sign for negative numbers, then
/// the digits of its magnitude.
pub open spec fn decimal_text(n: int) -> Seq<char> {
    if n < 0 {
        seq!['-'] + decimal_digits((-n) as nat)
    } else {
        decimal_digits(n as nat)
    }
}

fn digits_of(n: u64) -> (r: Vec<char>)
    ensures
        r@ == decimal_digits(n as nat),
    decreases n,
{
    if n < 10 {
        let mut v: Vec<char> = Vec::new();
        v.push((48 + n as u8) as char);
        assert(v@ =~= decimal_digits(n as nat));
        v
    } else {
        let mut v = digits_of(n / 10);
        v.push((48 + (n % 10) as u8) as char);
        assert(v@ =~= decimal_digits(n as nat));
        v
    }
}

/// The decimal text of `n`, as `to_string` writes it.
pub fn decimal_string(n: i64) -> (r: String)
    ensures
        r@ == decimal_text(n as int),
{
    if n < 0 {
        let m: u64 = if n == i64::MIN {
            9223372036854775808u64
        } else {
            (-n) as u64
        };
        let mut chars: Vec<char> = Vec::new();
        chars.push('-');
        let d = digits_of(m);
        let mut i: usize = 0;
        while i < d.len()
            invariant
                i <= d.len(),
                chars@ == seq!['-'] + d@.take(i as int),
            decreases d.len() - i,
        {
            chars.push(d[i]);
            i = i + 1;
            assert(chars@ =~= seq!['-'] + d@.take(i as int));
        }
        assert(d@.take(i as int) =~= d@);
        string_from_chars(chars.as_slice())
    } else {
        let d = digits_of(n as u64);
        string_from_chars(d.as_slice())
    }
}

} // verus!
