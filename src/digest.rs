//! Content digests written as lowercase hexadecimal text.

use vstd::prelude::*;
use vstd::utf8::encode_utf8;

verus! {

/// Lowercase hex of the SHA-256 digest of the bytes.
pub uninterp spec fn sha256_hex(bytes: Seq<u8>) -> Seq<char>;

/// Lowercase hex of the BLAKE3 digest of the bytes.
pub uninterp spec fn blake3_hex(bytes: Seq<u8>) -> Seq<char>;

/// A lowercase hexadecimal digit.
pub open spec fn is_hex_digit(c: char) -> bool {
    ('0' <= c && c <= '9') || ('a' <= c && c <= 'f')
}

/// Sixty-four lowercase hexadecimal digits: a 32-byte digest.
pub open spec fn hex64(t: Seq<char>) -> bool {
    t.len() == 64 && forall|i: int| 0 <= i < t.len() ==> is_hex_digit(#[trigger] t[i])
}

/// Relies on sha2's `Sha256::digest`, written with `{:x}` as lowercase hex:
/// two digits for each of the 32 bytes.
#[verifier::external_body]
fn sha256_hex_of(bytes: &[u8]) -> (r: String)
    ensures
        r@ == sha256_hex(bytes@),
        hex64(r@),
{
    format!("{:x}", <sha2::Sha256 as sha2::Digest>::digest(bytes))
}

/// Relies on `blake3::hash` and `Hash::to_hex`: lowercase hex of the
/// 32-byte digest, two digits per byte.
#[verifier::external_body]
fn blake3_hex_of(bytes: &[u8]) -> (r: String)
    ensures
        r@ == blake3_hex(bytes@),
        hex64(r@),
{
    blake3::hash(bytes).to_hex().to_string()
}

/// The UTF-8 bytes of a text.
pub open spec fn utf8(t: Seq<char>) -> Seq<u8> {
    encode_utf8(t)
}

/// `sha256:` followed by the hex SHA-256 digest of the text's UTF-8 bytes.
pub open spec fn sha256_label(t: Seq<char>) -> Seq<char> {
    seq!['s', 'h', 'a', '2', '5', '6', ':'] + sha256_hex(utf8(t))
}

/// `blake3:` followed by the hex BLAKE3 digest of the bytes.
pub open spec fn blake3_label(bytes: Seq<u8>) -> Seq<char> {
    seq!['b', 'l', 'a', 'k', 'e', '3', ':'] + blake3_hex(bytes)
}

/// The labelled SHA-256 digest of a text.
pub fn sha256_of_text(t: &str) -> (r: String)
    ensures
        r@ == sha256_label(t@),
        r@.len() == 71,
        hex64(r@.skip(7)),
{
    let mut r = String::new();
    crate::text::push_text(&mut r, "sha256:");
    let hex = sha256_hex_of(t.as_bytes());
    crate::text::push_text(&mut r, hex.as_str());
    proof { reveal_strlit("sha256:"); }
    assert(r@ =~= sha256_label(t@));
    assert(r@.skip(7) =~= hex@);
    r
}

/// The labelled BLAKE3 digest of some bytes.
pub fn blake3_of_bytes(bytes: &[u8]) -> (r: String)
    ensures
        r@ == blake3_label(bytes@),
        r@.len() == 71,
        hex64(r@.skip(7)),
{
    let mut r = String::new();
    crate::text::push_text(&mut r, "blake3:");
    let hex = blake3_hex_of(bytes);
    crate::text::push_text(&mut r, hex.as_str());
    proof { reveal_strlit("blake3:"); }
    assert(r@ =~= blake3_label(bytes@));
    assert(r@.skip(7) =~= hex@);
    r
}

} // verus!
