//! Content hashing: stable document identifiers and file-content hashes are
//! both the SHA-256 hex digest of a byte string.

use sha2::{Digest, Sha256};
use vstd::prelude::*;
use vstd::string::StringSliceAdditionalSpecFns;

verus! {

/// The lowercase hex digest that SHA-256 assigns to a byte string. The
/// digest depends on the bytes alone.
pub uninterp spec fn sha256_hex_of(bytes: Seq<u8>) -> Seq<char>;

/// Relies on `sha2::Sha256` (SHA-256, FIPS 180-4): the 32-byte digest of the
/// input, written as 64 lowercase hex characters.
#[verifier::external_body]
pub fn sha256_hex(bytes: &[u8]) -> (r: String)
    ensures
        r@ == sha256_hex_of(bytes@),
        r@.len() == 64,
{
    format!("{:x}", Sha256::digest(bytes))
}

/// The hash stored for a file's bytes: their SHA-256 hex digest.
pub fn content_hash(bytes: &Vec<u8>) -> (r: String)
    ensures
        r@ == sha256_hex_of(bytes@),
        r@.len() == 64,
{
    sha256_hex(bytes.as_slice())
}

/// The stable identifier of the document stored under a path: the SHA-256
/// hex digest of the path's UTF-8 bytes.
pub open spec fn doc_id_of_path(path: Seq<char>) -> Seq<char> {
    sha256_hex_of(vstd::utf8::encode_utf8(path))
}

/// A document's stable identifier: the SHA-256 hex digest of its relative
/// path's UTF-8 bytes.
pub fn doc_id_for_path(doc_path: &str) -> (r: String)
    ensures
        r@ == doc_id_of_path(doc_path@),
        r@.len() == 64,
{
    let r = sha256_hex(doc_path.as_bytes());
    proof {
        assert(doc_path.spec_bytes() == vstd::utf8::encode_utf8(doc_path@));
    }
    r
}

} // verus!
