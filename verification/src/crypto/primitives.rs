//! The cryptographic primitives the library calls: random bytes, AES-256-GCM
//! (from `aes-gcm`), ChaCha20-Poly1305 (from `ring`), SHA3-256, BLAKE3 and
//! Argon2. Each is a
//! function of its arguments except the random ones; the deterministic
//! results are named, and the facts stated beside them are the ones the
//! crates document: digests are 32 bytes, sealing appends a 16-byte tag,
//! opening gives back what sealing was given, and a password verifies
//! against the hash made of it.

use vstd::prelude::*;
use aes_gcm::aead::{Aead, KeyInit};
use argon2::password_hash::{PasswordHash, PasswordHasher, PasswordVerifier, SaltString};
use ring::aead::{Aad, LessSafeKey, Nonce, UnboundKey, CHACHA20_POLY1305};

verus! {

/// `ring::rand::SystemRandom::fill`: `n` bytes from the operating system's
/// generator, or the text of its error, `ring::error::Unspecified`, which
/// displays as "ring::error::Unspecified". Nothing is claimed of the bytes
/// but their number, nor of when the generator fails.
#[verifier::external_body]
pub(crate) fn random_bytes(n: usize) -> (r: Result<Vec<u8>, String>)
    ensures
        r matches Ok(v) ==> v@.len() == n,
        r matches Err(t) ==> t@ == "ring::error::Unspecified"@,
{
    let mut buf = vec![0u8; n];
    match ring::rand::SecureRandom::fill(&ring::rand::SystemRandom::new(), &mut buf) {
        Ok(()) => Ok(buf),
        Err(e) => Err(e.to_string()),
    }
}

/// What AES-256-GCM sealing (with no associated data) gives for a key,
/// nonce and plaintext: the ciphertext with its tag appended, or nothing
/// when it refuses.
pub uninterp spec fn aes_gcm_seal(key: Seq<u8>, nonce: Seq<u8>, plaintext: Seq<u8>) -> Option<Seq<u8>>;

/// What AES-256-GCM opening gives for a key, nonce and sealed bytes: the
/// plaintext, or nothing when authentication fails.
pub uninterp spec fn aes_gcm_open(key: Seq<u8>, nonce: Seq<u8>, sealed: Seq<u8>) -> Option<Seq<u8>>;

/// Why an AEAD call failed.
pub enum AeadFailure {
    /// The key does not have the cipher's length; the text of the error.
    InvalidKey(String),
    /// Sealing or opening failed; the text of the error.
    Failed(String),
}

/// `Aes256Gcm::new_from_slice` and `Aead::encrypt` of `aes-gcm`: a key of
/// another length than 32 bytes is refused with `InvalidLength` ("Invalid
/// Length"); otherwise the result is the ciphertext with the 16-byte tag
/// appended, as named by `aes_gcm_seal`, or `aead::Error`.
#[verifier::external_body]
pub(crate) fn aes256_gcm_seal(key: &[u8], nonce: &[u8], plaintext: &[u8]) -> (r: Result<Vec<u8>, AeadFailure>)
    requires
        nonce@.len() == 12,
    ensures
        key@.len() != 32 <==> r matches Err(AeadFailure::InvalidKey(_)),
        r matches Err(AeadFailure::InvalidKey(t)) ==> t@ == "Invalid Length"@,
        r matches Err(AeadFailure::Failed(t)) ==> t@ == "aead::Error"@ && aes_gcm_seal(key@, nonce@, plaintext@) is None,
        r matches Ok(c) ==> aes_gcm_seal(key@, nonce@, plaintext@) == Some(c@) && c@.len() == plaintext@.len() + 16,
{
    let cipher = match aes_gcm::Aes256Gcm::new_from_slice(key) {
        Ok(c) => c,
        Err(e) => return Err(AeadFailure::InvalidKey(e.to_string())),
    };
    match cipher.encrypt(aes_gcm::Nonce::from_slice(nonce), plaintext) {
        Ok(c) => Ok(c),
        Err(e) => Err(AeadFailure::Failed(e.to_string())),
    }
}

/// `Aes256Gcm::new_from_slice` and `Aead::decrypt` of `aes-gcm`: a key of
/// another length than 32 bytes is refused as in sealing; otherwise the
/// plaintext named by `aes_gcm_open`, or `aead::Error` when the tag does
/// not authenticate. Opening what sealing gave, under the same key and
/// nonce, gives back the plaintext that was sealed.
#[verifier::external_body]
pub(crate) fn aes256_gcm_open(key: &[u8], nonce: &[u8], sealed: &[u8]) -> (r: Result<Vec<u8>, AeadFailure>)
    requires
        nonce@.len() == 12,
    ensures
        key@.len() != 32 <==> r matches Err(AeadFailure::InvalidKey(_)),
        r matches Err(AeadFailure::InvalidKey(t)) ==> t@ == "Invalid Length"@,
        r matches Err(AeadFailure::Failed(t)) ==> t@ == "aead::Error"@ && aes_gcm_open(key@, nonce@, sealed@) is None,
        r matches Ok(p) ==> aes_gcm_open(key@, nonce@, sealed@) == Some(p@),
        key@.len() == 32 && (exists|p: Seq<u8>| #[trigger] aes_gcm_seal(key@, nonce@, p) == Some(sealed@)) ==> r is Ok,
        r matches Ok(q) ==> forall|p: Seq<u8>| #[trigger] aes_gcm_seal(key@, nonce@, p) == Some(sealed@) ==> q@ == p,
{
    let cipher = match aes_gcm::Aes256Gcm::new_from_slice(key) {
        Ok(c) => c,
        Err(e) => return Err(AeadFailure::InvalidKey(e.to_string())),
    };
    match cipher.decrypt(aes_gcm::Nonce::from_slice(nonce), sealed) {
        Ok(p) => Ok(p),
        Err(e) => Err(AeadFailure::Failed(e.to_string())),
    }
}

/// What `ring`'s ChaCha20-Poly1305 sealing (no associated data) gives for a key,
/// nonce and plaintext: the ciphertext with its tag appended, or nothing.
pub uninterp spec fn chacha_seal(key: Seq<u8>, nonce: Seq<u8>, plaintext: Seq<u8>) -> Option<Seq<u8>>;

/// What `ring`'s ChaCha20-Poly1305 opening gives for a key, nonce and sealed
/// bytes: the plaintext, or nothing.
pub uninterp spec fn chacha_open(key: Seq<u8>, nonce: Seq<u8>, sealed: Seq<u8>) -> Option<Seq<u8>>;

/// `ring::aead::UnboundKey::new(&CHACHA20_POLY1305, ..)`, `LessSafeKey` and
/// `seal_in_place_append_tag` with empty associated data: a key of another
/// length than 32 bytes is refused; otherwise the ciphertext with the
/// 16-byte tag appended, as named by `chacha_seal`. Errors are
/// `ring::error::Unspecified`.
#[verifier::external_body]
pub(crate) fn chacha20_seal(key: &[u8], nonce: &[u8], plaintext: &[u8]) -> (r: Result<Vec<u8>, AeadFailure>)
    requires
        nonce@.len() == 12,
    ensures
        key@.len() != 32 <==> r matches Err(AeadFailure::InvalidKey(_)),
        r matches Err(AeadFailure::InvalidKey(t)) ==> t@ == "ring::error::Unspecified"@,
        r matches Err(AeadFailure::Failed(t)) ==> t@ == "ring::error::Unspecified"@ && chacha_seal(
            key@,
            nonce@,
            plaintext@,
        ) is None,
        r matches Ok(c) ==> chacha_seal(key@, nonce@, plaintext@) == Some(c@) && c@.len() == plaintext@.len() + 16,
{
    let unbound = match UnboundKey::new(&CHACHA20_POLY1305, key) {
        Ok(k) => k,
        Err(e) => return Err(AeadFailure::InvalidKey(e.to_string())),
    };
    let nonce: [u8; 12] = nonce.try_into().unwrap();
    let mut buf = plaintext.to_vec();
    match LessSafeKey::new(unbound).seal_in_place_append_tag(Nonce::assume_unique_for_key(nonce), Aad::empty(), &mut buf) {
        Ok(()) => Ok(buf),
        Err(e) => Err(AeadFailure::Failed(e.to_string())),
    }
}

/// `ring::aead::UnboundKey::new(&CHACHA20_POLY1305, ..)`, `LessSafeKey` and
/// `open_in_place` with empty associated data: a key of another length
/// than 32 bytes is refused; otherwise the plaintext named by
/// `chacha_open`, or `Unspecified` when the tag does not authenticate.
/// Opening what sealing gave, under the same key and nonce, gives back the
/// plaintext that was sealed.
#[verifier::external_body]
pub(crate) fn chacha20_open(key: &[u8], nonce: &[u8], sealed: &[u8]) -> (r: Result<Vec<u8>, AeadFailure>)
    requires
        nonce@.len() == 12,
    ensures
        key@.len() != 32 <==> r matches Err(AeadFailure::InvalidKey(_)),
        r matches Err(AeadFailure::InvalidKey(t)) ==> t@ == "ring::error::Unspecified"@,
        r matches Err(AeadFailure::Failed(t)) ==> t@ == "ring::error::Unspecified"@ && chacha_open(
            key@,
            nonce@,
            sealed@,
        ) is None,
        r matches Ok(p) ==> chacha_open(key@, nonce@, sealed@) == Some(p@),
        key@.len() == 32 && (exists|p: Seq<u8>| #[trigger] chacha_seal(key@, nonce@, p) == Some(sealed@)) ==> r is Ok,
        r matches Ok(q) ==> forall|p: Seq<u8>| #[trigger] chacha_seal(key@, nonce@, p) == Some(sealed@) ==> q@ == p,
{
    let unbound = match UnboundKey::new(&CHACHA20_POLY1305, key) {
        Ok(k) => k,
        Err(e) => return Err(AeadFailure::InvalidKey(e.to_string())),
    };
    let nonce: [u8; 12] = nonce.try_into().unwrap();
    let mut buf = sealed.to_vec();
    match LessSafeKey::new(unbound).open_in_place(Nonce::assume_unique_for_key(nonce), Aad::empty(), &mut buf) {
        Ok(p) => Ok(p.to_vec()),
        Err(e) => Err(AeadFailure::Failed(e.to_string())),
    }
}

/// The SHA3-256 digest of a byte string.
pub uninterp spec fn sha3_256(data: Seq<u8>) -> Seq<u8>;

/// `sha3::Sha3_256::digest`: the digest of `data`, 32 bytes long, named by
/// `sha3_256`.
#[verifier::external_body]
pub(crate) fn sha3_256_digest(data: &[u8]) -> (r: Vec<u8>)
    ensures
        r@ == sha3_256(data@),
        r@.len() == 32,
{
    <sha3::Sha3_256 as sha3::Digest>::digest(data).to_vec()
}

/// The BLAKE3 hash of a byte string.
pub uninterp spec fn blake3_hash(data: Seq<u8>) -> Seq<u8>;

/// `blake3::hash`: the 32-byte hash of `data`, named by `blake3_hash`.
#[verifier::external_body]
pub(crate) fn blake3_digest(data: &[u8]) -> (r: Vec<u8>)
    ensures
        r@ == blake3_hash(data@),
        r@.len() == 32,
{
    blake3::hash(data).as_bytes().to_vec()
}

/// The verdict of Argon2 on a password and a PHC hash string: whether the
/// password matches, or nothing when the string cannot be used.
pub uninterp spec fn argon2_verdict(password: Seq<u8>, phc: Seq<char>) -> Option<bool>;

/// What Argon2 (default parameters) makes of a password and salt bytes: the
/// PHC string, or nothing when it refuses them.
pub uninterp spec fn argon2_phc(password: Seq<u8>, salt: Seq<u8>) -> Option<Seq<char>>;

/// `SaltString::encode_b64` of the salt bytes and
/// `Argon2::default().hash_password`, as a PHC string named by
/// `argon2_phc`, against which the password verifies; the error's text
/// otherwise. A salt of fewer than three bytes is left out: its base64 form
/// is shorter than the four characters a `Salt` needs, and `hash_password`
/// panics on it.
#[verifier::external_body]
pub(crate) fn argon2_hash(password: &[u8], salt: &[u8]) -> (r: Result<String, String>)
    requires
        salt@.len() >= 3,
    ensures
        r matches Ok(h) ==> argon2_phc(password@, salt@) == Some(h@) && argon2_verdict(password@, h@) == Some(true),
        r is Err ==> argon2_phc(password@, salt@) is None,
{
    let salt = match SaltString::encode_b64(salt) {
        Ok(s) => s,
        Err(e) => return Err(e.to_string()),
    };
    match argon2::Argon2::default().hash_password(password, &salt) {
        Ok(h) => Ok(h.to_string()),
        Err(e) => Err(e.to_string()),
    }
}

/// Why a password could not be checked.
pub enum PasswordCheckError {
    /// The stored hash is not a PHC string; the text of the error.
    InvalidHash(String),
    /// Verification failed for another reason; the text of the error.
    Failed(String),
}

/// `PasswordHash::new` and `Argon2::default().verify_password`: whether the
/// password matches the PHC string (a mismatch is the `Password` error),
/// as named by `argon2_verdict`; other errors are passed on.
#[verifier::external_body]
pub(crate) fn argon2_verify(password: &[u8], phc: &str) -> (r: Result<bool, PasswordCheckError>)
    ensures
        r matches Ok(b) ==> argon2_verdict(password@, phc@) == Some(b),
        r is Err ==> argon2_verdict(password@, phc@) is None,
{
    let parsed = match PasswordHash::new(phc) {
        Ok(p) => p,
        Err(e) => return Err(PasswordCheckError::InvalidHash(e.to_string())),
    };
    match argon2::Argon2::default().verify_password(password, &parsed) {
        Ok(()) => Ok(true),
        Err(argon2::password_hash::Error::Password) => Ok(false),
        Err(e) => Err(PasswordCheckError::Failed(e.to_string())),
    }
}

} // verus!
