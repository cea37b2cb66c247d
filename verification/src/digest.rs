//! Content digests and the manifest's per-file record.

use vstd::prelude::*;
use sha2::Digest;

verus! {

/// The lowercase hexadecimal SHA-256 digest of a text's UTF-8 bytes.
pub uninterp spec fn sha256_hex(content: Seq<char>) -> Seq<char>;

/// A lowercase hexadecimal digit.
pub open spec fn is_lower_hex(c: char) -> bool {
    ('0' <= c && c <= '9') || ('a' <= c && c <= 'f')
}

/// Hex SHA-256 digest of `content`, through `sha2::Sha256::digest`.
///
/// Trusted: the result is `sha256_hex` of the text, written as 64 lowercase
/// hex digits (two per digest byte, as `{:x}` formats the 32-byte output).
#[verifier::external_body]
pub fn content_sha256(content: &str) -> (r: String)
    ensures
        r@ == sha256_hex(content@),
        r@.len() == 64,
        forall|i: int| 0 <= i < r@.len() ==> is_lower_hex(#[trigger] r@[i]),
{
    format!("{:x}", sha2::Sha256::digest(content.as_bytes()))
}

/// How a deployed file relates to its manifest record and source.
#[derive(Debug, Clone, Copy, PartialEq, Eq, Structural)]
pub enum FileStatus {
    New,
    Unchanged,
    Stale,
    Modified,
}

/// One manifest record: the digest of the deployed content.
#[derive(Debug, Clone)]
pub struct ManifestEntry {
    pub sha256: String,
}

} // verus!
