//! Carving: the authenticated-encryption evidence-dump protocol.
//!
//! A carved artifact is `nonce (12 bytes) ‖ ciphertext‖tag`: a fresh random
//! 96-bit nonce per call (nonce reuse under one key would break the
//! authenticated cipher), the buffer sealed with AES-256-GCM under
//! (key, nonce). Writing the artifact to disk happens outside the library.

use aes_gcm::aead::Aead;
use aes_gcm::KeyInit;
use rand::RngCore;
use vstd::prelude::*;

verus! {

/// Errors of the carving service.
#[derive(Debug, Clone)]
pub enum CarveError {
    /// An I/O failure while persisting the artifact, with its message.
    Io(String),
    /// The AEAD cipher refused the operation.
    Encryption,
}

/// The AES-256-GCM ciphertext (message plus tag) for a key, nonce and
/// plaintext: a function of those three alone.
pub uninterp spec fn aes_gcm_seal(key: Seq<u8>, nonce: Seq<u8>, plaintext: Seq<u8>) -> Seq<u8>;

/// The result of AES-256-GCM decryption for a key, nonce and ciphertext:
/// the plaintext where the tag authenticates, nothing otherwise.
pub uninterp spec fn aes_gcm_open(key: Seq<u8>, nonce: Seq<u8>, ciphertext: Seq<u8>) -> Option<
    Seq<u8>,
>;

/// Encrypt under AES-256-GCM.
///
/// Relies on `aes_gcm::Aes256Gcm` (via `aead::Aead::encrypt`): the ciphertext
/// is a deterministic function of key, nonce and plaintext, is the message
/// followed by a 16-byte tag, and decrypting it under the same key and nonce
/// returns the plaintext. With no associated data, encryption refuses only a
/// plaintext longer than 2^36 bytes, the mode's limit.
#[verifier::external_body]
fn aes256_gcm_encrypt(key: &[u8; 32], nonce: &[u8], plaintext: &[u8]) -> (r: Result<
    Vec<u8>,
    CarveError,
>)
    requires
        nonce@.len() == 12,
    ensures
        plaintext@.len() <= 0x10_0000_0000 ==> r is Ok,
        r matches Ok(ct) ==> ct@ == aes_gcm_seal(key@, nonce@, plaintext@) && ct@.len()
            == plaintext@.len() + 16 && aes_gcm_open(key@, nonce@, ct@) == Some(plaintext@),
        r is Err ==> r matches Err(CarveError::Encryption),
{
    let cipher = aes_gcm::Aes256Gcm::new(key.into());
    match cipher.encrypt(aes_gcm::Nonce::from_slice(nonce), plaintext) {
        Ok(ct) => Ok(ct),
        Err(_) => Err(CarveError::Encryption),
    }
}

/// Decrypt under AES-256-GCM.
///
/// Relies on `aes_gcm::Aes256Gcm` (via `aead::Aead::decrypt`): returns the
/// plaintext exactly when the tag authenticates the ciphertext under the key
/// and nonce.
#[verifier::external_body]
fn aes256_gcm_decrypt(key: &[u8; 32], nonce: &[u8], ciphertext: &[u8]) -> (r: Option<Vec<u8>>)
    requires
        nonce@.len() == 12,
    ensures
        match r {
            Some(pt) => aes_gcm_open(key@, nonce@, ciphertext@) == Some(pt@),
            None => aes_gcm_open(key@, nonce@, ciphertext@) is None,
        },
{
    let cipher = aes_gcm::Aes256Gcm::new(key.into());
    match cipher.decrypt(aes_gcm::Nonce::from_slice(nonce), ciphertext) {
        Ok(pt) => Some(pt),
        Err(_) => None,
    }
}

/// Draw a fresh 96-bit nonce.
///
/// Relies on `rand::rngs::ThreadRng::fill_bytes`: fills the buffer in place,
/// leaving its length unchanged. Nothing is promised about the value.
#[verifier::external_body]
fn generate_nonce() -> (r: Vec<u8>)
    ensures
        r@.len() == 12,
{
    let mut nonce = vec![0u8; 12];
    rand::thread_rng().fill_bytes(&mut nonce);
    nonce
}

/// A well-formed carved artifact for `key` and `data`: some 12-byte nonce,
/// followed by the AEAD ciphertext of `data` under (key, nonce), which
/// authenticates back to `data`.
pub open spec fn sealed_artifact(key: Seq<u8>, data: Seq<u8>, art: Seq<u8>) -> bool {
    exists|nonce: Seq<u8>|
        nonce.len() == 12 && art == nonce + aes_gcm_seal(key, nonce, data) && #[trigger] aes_gcm_open(
            key,
            nonce,
            art.skip(12),
        ) == Some(data)
}

/// Seal a buffer into a carved artifact: fresh nonce, AEAD ciphertext,
/// framed as `nonce ‖ ciphertext‖tag`. Fails only if the cipher refuses the
/// encryption, which it never does below the mode's 2^36-byte limit.
pub fn seal_region(data: &[u8], key: &[u8; 32]) -> (r: Result<Vec<u8>, CarveError>)
    ensures
        data@.len() <= 0x10_0000_0000 ==> r is Ok,
        r matches Ok(art) ==> sealed_artifact(key@, data@, art@) && art@.len() == data@.len() + 28,
        r is Err ==> r matches Err(CarveError::Encryption),
{
    let mut nonce = generate_nonce();
    let mut ciphertext = match aes256_gcm_encrypt(key, nonce.as_slice(), data) {
        Ok(ct) => ct,
        Err(e) => {
            return Err(e);
        },
    };
    let ghost nonce_view = nonce@;
    let ghost ct_view = ciphertext@;
    let mut art = nonce;
    art.append(&mut ciphertext);
    proof {
        assert(art@ == nonce_view + ct_view);
        assert(art@.skip(12) =~= ct_view);
        assert(nonce_view.len() == 12 && art@ == nonce_view + aes_gcm_seal(key@, nonce_view, data@)
            && aes_gcm_open(key@, nonce_view, art@.skip(12)) == Some(data@));
    }
    Ok(art)
}

/// Open a carved artifact: split the 12-byte nonce from the AEAD remainder
/// and authenticate-decrypt it. Anything shorter than a nonce fails.
pub fn unseal_artifact(artifact: &[u8], key: &[u8; 32]) -> (r: Option<Vec<u8>>)
    ensures
        artifact@.len() < 12 ==> r is None,
        artifact@.len() >= 12 ==> match r {
            Some(pt) => aes_gcm_open(key@, artifact@.take(12), artifact@.skip(12)) == Some(pt@),
            None => aes_gcm_open(key@, artifact@.take(12), artifact@.skip(12)) is None,
        },
{
    if artifact.len() < 12 {
        return None;
    }
    let nonce = vstd::slice::slice_subrange(artifact, 0, 12);
    let ciphertext = vstd::slice::slice_subrange(artifact, 12, artifact.len());
    proof {
        assert(nonce@ =~= artifact@.take(12));
        assert(ciphertext@ =~= artifact@.skip(12));
    }
    aes256_gcm_decrypt(key, nonce, ciphertext)
}

/// Round trip: a well-formed carved artifact opens, under the key it was
/// sealed with and the nonce it carries, to exactly the sealed bytes.
pub proof fn lemma_carve_round_trip(key: Seq<u8>, data: Seq<u8>, art: Seq<u8>)
    requires
        sealed_artifact(key, data, art),
    ensures
        art.len() >= 12,
        aes_gcm_open(key, art.take(12), art.skip(12)) == Some(data),
{
    let nonce = choose|nonce: Seq<u8>|
        nonce.len() == 12 && art == nonce + aes_gcm_seal(key, nonce, data) && #[trigger] aes_gcm_open(
            key,
            nonce,
            art.skip(12),
        ) == Some(data);
    assert(art.take(12) =~= nonce);
}

} // verus!
