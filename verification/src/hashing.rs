//! SHA-256 digests of texts, in lower-case hexadecimal, through the `sha2`
//! crate.
use vstd::prelude::*;

verus! {

/// The lower-case hexadecimal SHA-256 digest of a text's UTF-8 bytes.
pub uninterp spec fn sha256_hex_spec(text: Seq<char>) -> Seq<char>;

/// A lower-case hexadecimal digit.
pub open spec fn is_lower_hex(c: char) -> bool {
    ('0' <= c && c <= '9') || ('a' <= c && c <= 'f')
}

/// `sha2::Sha256` over a text's bytes, its digest written with `{:x}`.
/// The contract claims that the result is the named digest of the text,
/// that it has 64 characters (two per byte of the 32-byte digest), and that
/// each is a lower-case hexadecimal digit (the `LowerHex` of the digest's
/// byte array writes each byte as two digits from `0123456789abcdef`).
#[verifier::external_body]
pub(crate) fn sha256_hex(text: &str) -> (r: String)
    ensures
        r@ == sha256_hex_spec(text@),
        r@.len() == 64,
        forall|i: int| 0 <= i < r@.len() ==> is_lower_hex(#[trigger] r@[i]),
{
    let mut hasher = <sha2::Sha256 as sha2::Digest>::new();
    sha2::Digest::update(&mut hasher, text.as_bytes());
    format!("{:x}", sha2::Digest::finalize(hasher))
}

} // verus!
