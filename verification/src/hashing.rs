//! Content digests: the 256-bit cryptographic digest used for region
//! identity, change detection, and key derivation.

use sha2::Digest;
use vstd::prelude::*;

verus! {

/// The SHA-256 digest of a byte string, a function of the bytes alone.
pub uninterp spec fn sha256_of(data: Seq<u8>) -> Seq<u8>;

/// Compute the SHA-256 digest.
///
/// Relies on `sha2::Sha256`: the digest is a deterministic function of the
/// input bytes alone and is 32 bytes long.
#[verifier::external_body]
pub fn sha256_hash(data: &[u8]) -> (r: [u8; 32])
    ensures
        r@ == sha256_of(data@),
{
    sha2::Sha256::digest(data).into()
}

/// Derive a 256-bit key from a passphrase by hashing its UTF-8 bytes.
///
/// Deterministic key derivation from a fixed passphrase is at-rest
/// obfuscation for local forensic artifacts, not a secrecy boundary.
pub fn key_from_passphrase(pass: &str) -> (key: [u8; 32])
    ensures
        key@ == sha256_of(vstd::utf8::encode_utf8(pass@)),
{
    sha256_hash(pass.as_bytes())
}

} // verus!
