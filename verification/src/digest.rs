use vstd::prelude::*;
use sha2::Digest;

verus! {

/// The SHA-256 digest of the UTF-8 bytes of a text, written as lowercase
/// hexadecimal. It depends on the text alone.
pub uninterp spec fn sha256_hex_of(s: Seq<char>) -> Seq<char>;

/// Relies on sha2::Sha256 (the FIPS 180-4 digest, a pure function of the
/// input bytes) and hex::encode (two lowercase hex digits per byte): the
/// 32-byte digest of the UTF-8 bytes of `s` comes back as 64 hex characters.
#[verifier::external_body]
fn sha256_hex(s: &str) -> (r: String)
    ensures
        r@ == sha256_hex_of(s@),
        r@.len() == 64,
{
    hex::encode(sha2::Sha256::digest(s.as_bytes()))
}

/// Digest of a text's content: SHA-256 of its UTF-8 bytes, lowercase hex.
pub fn content_digest(s: &str) -> (r: String)
    ensures
        r@ == sha256_hex_of(s@),
        r@.len() == 64,
{
    sha256_hex(s)
}

} // verus!
