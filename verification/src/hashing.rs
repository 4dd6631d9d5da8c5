//! Content hashing: SHA-256 digests rendered as lowercase hex.

use vstd::prelude::*;

use sha2::{Digest, Sha256};

verus! {

/// The lowercase-hex SHA-256 digest of the UTF-8 bytes of a string with these
/// characters.
pub uninterp spec fn sha256_hex_spec(s: Seq<char>) -> Seq<char>;

/// `sha2::Sha256` over the UTF-8 bytes of `s`, rendered with `{:x}`; the result
/// is named by `sha256_hex_spec` and depends on the characters of `s` alone.
#[verifier::external_body]
pub fn sha256_hex(s: &str) -> (h: String)
    ensures
        h@ == sha256_hex_spec(s@),
{
    let mut hasher = Sha256::new();
    hasher.update(s.as_bytes());
    format!("{:x}", hasher.finalize())
}

} // verus!
