//! SHA-256 digests in lowercase hexadecimal, for fingerprints and record
//! checksums.
use sha2::Digest;
use vstd::prelude::*;
use crate::text::{hex_digit, hex_lower, string_of};

verus! {

/// The SHA-256 digest of a byte string.
pub uninterp spec fn sha256(data: Seq<u8>) -> Seq<u8>;

/// Calls `sha2::Sha256::digest` on `data` and copies the digest out.
/// The contract claims that the result is the SHA-256 digest of the bytes
/// handed in, named `sha256`, and that it is 32 bytes long (the output size
/// `sha2` declares); nothing is said about its bits.
#[verifier::external_body]
fn sha256_digest(data: &[u8]) -> (d: Vec<u8>)
    ensures
        d@ == sha256(data@),
        d@.len() == 32,
{
    sha2::Sha256::digest(data).to_vec()
}

/// Lowercase hexadecimal text of a byte string, two digits per byte
/// (what `format!("{:x}", ..)` prints for a digest).
pub fn hex_text(bytes: &[u8]) -> (t: Vec<char>)
    ensures
        t@ == hex_lower(bytes@),
        t@.len() == 2 * bytes@.len(),
{
    let mut out: Vec<char> = Vec::new();
    let mut i: usize = 0;
    assert(bytes@.take(0) =~= Seq::<u8>::empty());
    while i < bytes.len()
        invariant
            i <= bytes@.len(),
            out@ == hex_lower(bytes@.take(i as int)),
            out@.len() == 2 * i,
        decreases bytes.len() - i,
    {
        let b = bytes[i];
        let hi = b / 16;
        let lo = b % 16;
        let h = if hi < 10 { (48u8 + hi) as char } else { (97u8 + hi - 10) as char };
        let l = if lo < 10 { (48u8 + lo) as char } else { (97u8 + lo - 10) as char };
        out.push(h);
        out.push(l);
        assert(bytes@.take(i + 1).drop_last() =~= bytes@.take(i as int));
        assert(hex_digit(hi) == h);
        assert(hex_digit(lo) == l);
        i += 1;
    }
    assert(bytes@.take(bytes@.len() as int) =~= bytes@);
    out
}

/// The SHA-256 digest of the UTF-8 encoding of a text, in lowercase
/// hexadecimal.
pub open spec fn sha256_hex_spec(text: Seq<char>) -> Seq<char> {
    hex_lower(sha256(vstd::utf8::encode_utf8(text)))
}

/// The SHA-256 digest of a string's UTF-8 bytes, in lowercase hexadecimal.
pub fn sha256_hex(text: &str) -> (h: Vec<char>)
    ensures
        h@ == sha256_hex_spec(text@),
        h@.len() == 64,
{
    let bytes = text.as_bytes();
    let digest = sha256_digest(bytes);
    hex_text(&digest)
}

/// The same digest as a `String`.
pub fn sha256_hex_string(text: &str) -> (h: String)
    ensures
        h@ == sha256_hex_spec(text@),
        h@.len() == 64,
{
    let v = sha256_hex(text);
    string_of(&v)
}

} // verus!
