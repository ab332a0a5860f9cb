//! Symmetric encryption, hashing and password hashing for data at rest.
//!
//! [`CryptoManager`] keeps a set of data keys by id. Encryption is
//! authenticated (AES-256-GCM), so a decryption under the registered key
//! gives back exactly the plaintext that was encrypted, and any change to
//! the nonce, ciphertext or tag is detected. Integrity checksums are
//! lowercase hexadecimal digests; passwords are hashed with Argon2.
//! Times are nanoseconds since the Unix epoch.

pub mod file_encryption;
pub mod primitives;

use vstd::prelude::*;
use vstd::string::{StrSliceExecFns, StringExecFns, StringSliceAdditionalSpecFns};
use crate::clock::now_nanos;
use crate::format::{signed_decimal, signed_decimal_string};
use crate::hyperledger::identity::{hex_encode, hex_of, sha256, sha256_digest};
use crate::strmap::StrMap;
use crate::text::{copy_bytes, owned};
use self::primitives::{
    aes256_gcm_open, aes256_gcm_seal, aes_gcm_open, aes_gcm_seal, argon2_hash, argon2_phc, argon2_verdict, argon2_verify, blake3_digest,
    blake3_hash, random_bytes, chacha20_open, chacha20_seal, chacha_open, chacha_seal, sha3_256, sha3_256_digest,
    AeadFailure, PasswordCheckError,
};

verus! {

/// Security settings the crypto manager is created with.
#[derive(Debug)]
pub struct SecurityConfig {
    /// Whether data encryption is enabled.
    pub encryption_enabled: bool,
    /// Interval between key rotations, in seconds.
    pub key_rotation_interval: u64,
    /// Whether clients must authenticate.
    pub auth_required: bool,
    /// Whether multi-factor authentication is enabled.
    pub mfa_enabled: bool,
}

/// Supported symmetric encryption algorithms.
#[derive(Debug, Clone, Copy, PartialEq, Eq, Structural)]
pub enum EncryptionAlgorithm {
    /// AES-256 in GCM mode.
    AES256GCM,
    /// ChaCha20-Poly1305, served by `ring`.
    ChaCha20Poly1305,
}

/// Supported hash algorithms for integrity checks.
#[derive(Debug, Clone, Copy, PartialEq, Eq, Structural)]
pub enum HashAlgorithm {
    /// SHA-256.
    SHA256,
    /// SHA-3 with a 256-bit digest.
    SHA3_256,
    /// BLAKE3.
    Blake3,
}

/// Lifecycle status of an encryption key.
#[derive(Debug, Clone, Copy, PartialEq, Eq, Structural)]
pub enum KeyStatus {
    /// Valid and in use.
    Active,
    /// Expires within two hours.
    ExpiringSoon,
    /// Past its expiry time.
    Expired,
}

/// An encryption key with its id, material, lifetime and algorithm.
#[derive(Debug)]
pub struct EncryptionKey {
    /// Key identifier, used to find the key when decrypting.
    pub id: String,
    /// Key material (32 bytes for AES-256).
    pub key: Vec<u8>,
    /// Creation time (ns).
    pub created_at: i64,
    /// Expiry time (ns).
    pub expires_at: i64,
    /// Algorithm the key is used with.
    pub algorithm: EncryptionAlgorithm,
}

/// An encryption key as plain values.
pub struct KeyView {
    pub id: Seq<char>,
    pub key: Seq<u8>,
    pub created_at: i64,
    pub expires_at: i64,
    pub algorithm: EncryptionAlgorithm,
}

impl View for EncryptionKey {
    type V = KeyView;

    open spec fn view(&self) -> KeyView {
        KeyView {
            id: self.id@,
            key: self.key@,
            created_at: self.created_at,
            expires_at: self.expires_at,
            algorithm: self.algorithm,
        }
    }
}

impl EncryptionKey {
    /// A copy of the key.
    pub fn copy(&self) -> (r: EncryptionKey)
        ensures
            r@ == self@,
    {
        EncryptionKey {
            id: self.id.clone(),
            key: copy_bytes(&self.key),
            created_at: self.created_at,
            expires_at: self.expires_at,
            algorithm: self.algorithm,
        }
    }
}

/// Authenticated ciphertext.
#[derive(Debug)]
pub struct EncryptedData {
    /// Id of the key that produced it.
    pub key_id: String,
    /// Nonce used to encrypt.
    pub nonce: Vec<u8>,
    /// Encrypted payload, without the tag.
    pub ciphertext: Vec<u8>,
    /// Authentication tag.
    pub tag: Vec<u8>,
    /// Algorithm used.
    pub algorithm: EncryptionAlgorithm,
}

impl Clone for EncryptedData {
    fn clone(&self) -> (r: Self)
        ensures
            r.key_id@ == self.key_id@,
            r.nonce@ == self.nonce@,
            r.ciphertext@ == self.ciphertext@,
            r.tag@ == self.tag@,
            r.algorithm == self.algorithm,
    {
        EncryptedData {
            key_id: self.key_id.clone(),
            nonce: copy_bytes(&self.nonce),
            ciphertext: copy_bytes(&self.ciphertext),
            tag: copy_bytes(&self.tag),
            algorithm: self.algorithm,
        }
    }
}

/// An integrity checksum with the algorithm that made it.
#[derive(Debug)]
pub struct DataIntegrity {
    /// Lowercase hexadecimal checksum of the data.
    pub checksum: String,
    /// Hash algorithm used.
    pub hash_algorithm: HashAlgorithm,
    /// When the checksum was computed (ns).
    pub timestamp: i64,
}

/// One hour in nanoseconds.
pub const HOUR_NANOS: i64 = 3_600_000_000_000;

/// The lifetime of a new data key: twenty-four hours, in nanoseconds.
pub const KEY_LIFETIME_NANOS: i64 = 86_400_000_000_000;

/// `t + d`, or the largest time when that does not fit.
pub open spec fn later(t: i64, d: i64) -> i64 {
    if t + d <= i64::MAX {
        (t + d) as i64
    } else {
        i64::MAX
    }
}

/// `t + d` for a non-negative `d`, or the largest time when that does not
/// fit.
fn later_by(t: i64, d: i64) -> (r: i64)
    requires
        d >= 0,
    ensures
        r == later(t, d),
{
    if t <= i64::MAX - d {
        t + d
    } else {
        i64::MAX
    }
}

/// The id of a key made at time `now`.
pub open spec fn key_id_at(now: i64) -> Seq<char> {
    "key_"@ + signed_decimal(now as int)
}

/// The digest an algorithm gives for `data`.
pub open spec fn digest_of(algorithm: HashAlgorithm, data: Seq<u8>) -> Seq<u8> {
    match algorithm {
        HashAlgorithm::SHA256 => sha256(data),
        HashAlgorithm::SHA3_256 => sha3_256(data),
        HashAlgorithm::Blake3 => blake3_hash(data),
    }
}

/// What sealing under an algorithm gives: the ciphertext with its tag.
pub open spec fn sealed_by(algorithm: EncryptionAlgorithm, key: Seq<u8>, nonce: Seq<u8>, plaintext: Seq<u8>) -> Option<
    Seq<u8>,
> {
    match algorithm {
        EncryptionAlgorithm::AES256GCM => aes_gcm_seal(key, nonce, plaintext),
        EncryptionAlgorithm::ChaCha20Poly1305 => chacha_seal(key, nonce, plaintext),
    }
}

/// Why encryption refuses a key that is not 32 bytes long.
pub open spec fn key_refusal(algorithm: EncryptionAlgorithm) -> Seq<char> {
    match algorithm {
        EncryptionAlgorithm::AES256GCM => "Failed to create cipher: "@ + "Invalid Length"@,
        EncryptionAlgorithm::ChaCha20Poly1305 => "Failed to create unbound key: ring::error::Unspecified"@,
    }
}

/// The error when no nonce could be drawn.
pub open spec fn nonce_refusal(algorithm: EncryptionAlgorithm) -> Seq<char> {
    match algorithm {
        EncryptionAlgorithm::AES256GCM => "Failed to generate nonce"@,
        EncryptionAlgorithm::ChaCha20Poly1305 => "Failed to generate nonce: "@ + "ring::error::Unspecified"@,
    }
}

/// The error when the cipher refuses to seal.
pub open spec fn seal_refusal(algorithm: EncryptionAlgorithm) -> Seq<char> {
    match algorithm {
        EncryptionAlgorithm::AES256GCM => "Encryption failed: "@ + "aead::Error"@,
        EncryptionAlgorithm::ChaCha20Poly1305 => "ChaCha20 encryption failed: "@ + "ring::error::Unspecified"@,
    }
}

/// The status of a key expiring at `expires` seen at `now`: expired when
/// the time has come, expiring soon within two hours, active otherwise.
pub open spec fn key_status_at(expires: i64, now: i64) -> KeyStatus {
    if expires <= now {
        KeyStatus::Expired
    } else if expires - now < 2 * HOUR_NANOS {
        KeyStatus::ExpiringSoon
    } else {
        KeyStatus::Active
    }
}

/// Hexadecimal has two digits per byte.
pub proof fn lemma_hex_len(data: Seq<u8>)
    ensures
        hex_of(data).len() == 2 * data.len(),
    decreases data.len(),
{
    if data.len() > 0 {
        lemma_hex_len(data.drop_last());
    }
}

/// The keys as plain values, by id.
pub open spec fn key_views(m: Map<Seq<char>, EncryptionKey>) -> Map<Seq<char>, KeyView> {
    m.map_values(|k: EncryptionKey| k@)
}

/// The keys with every expiry set to `at`.
pub open spec fn expiring_at(m: Map<Seq<char>, KeyView>, at: i64) -> Map<Seq<char>, KeyView> {
    m.map_values(|k: KeyView| KeyView { expires_at: at, ..k })
}

/// What opening under an algorithm gives: the plaintext, or nothing.
pub open spec fn opened_by(algorithm: EncryptionAlgorithm, key: Seq<u8>, nonce: Seq<u8>, sealed: Seq<u8>) -> Option<
    Seq<u8>,
> {
    match algorithm {
        EncryptionAlgorithm::AES256GCM => aes_gcm_open(key, nonce, sealed),
        EncryptionAlgorithm::ChaCha20Poly1305 => chacha_open(key, nonce, sealed),
    }
}

/// What rotating the keys of `before` at time `now` leaves and returns:
/// every key now expires an hour after `now`; on success a fresh key made at
/// `now` is added and the rotation is counted, on failure (the random
/// generator's) nothing else changes.
pub open spec fn rotated_at(before: CryptoManager, after: CryptoManager, r: Result<(), String>, now: i64) -> bool {
    let marked = expiring_at(key_views(before.active_keys@), later(now, HOUR_NANOS));
    let fresh = key_id_at(now);
    &&& r is Ok ==> {
        &&& after.key_rotation_counter == before.key_rotation_counter + 1
        &&& after.active_keys@.dom() == marked.dom().insert(fresh)
        &&& forall|k: Seq<char>|
            #[trigger] marked.contains_key(k) && k != fresh ==> key_views(after.active_keys@)[k] == marked[k]
        &&& ({
            let nk = after.active_keys@[fresh];
            &&& nk.id@ == fresh
            &&& nk.key@.len() == 32
            &&& nk.created_at == now
            &&& nk.expires_at == later(now, KEY_LIFETIME_NANOS)
            &&& nk.algorithm == EncryptionAlgorithm::AES256GCM
        })
    }
    &&& r matches Err(e) ==> {
        &&& after.key_rotation_counter == before.key_rotation_counter
        &&& key_views(after.active_keys@) == marked
        &&& e@ == "Failed to generate data key: "@ + "ring::error::Unspecified"@
    }
}

/// Manages data keys and performs authenticated encryption.
pub struct CryptoManager {
    /// Number of key rotations performed.
    pub key_rotation_counter: u64,
    /// Keys by id.
    pub active_keys: StrMap<EncryptionKey>,
}

impl CryptoManager {
    /// Whether the key map is well formed.
    pub open spec fn wf(&self) -> bool {
        self.active_keys.wf()
    }

    /// A manager with no keys. Encryption being disabled makes no
    /// difference to the manager itself.
    pub fn new(config: &SecurityConfig) -> (r: Result<Self, String>)
        ensures
            r matches Ok(m) && m.wf() && m.key_rotation_counter == 0 && m.active_keys@ == Map::<
                Seq<char>,
                EncryptionKey,
            >::empty(),
    {
        if !config.encryption_enabled {
            return Ok(CryptoManager { key_rotation_counter: 0, active_keys: StrMap::new() });
        }
        Ok(CryptoManager { key_rotation_counter: 0, active_keys: StrMap::new() })
    }

    /// Makes a fresh 32-byte AES-256-GCM key at time `now`, named
    /// `key_<now>`, expiring twenty-four hours later, and registers it.
    pub fn generate_data_key_at(&mut self, now: i64) -> (r: Result<EncryptionKey, String>)
        requires
            old(self).wf(),
        ensures
            final(self).wf(),
            final(self).key_rotation_counter == old(self).key_rotation_counter,
            r matches Ok(k) ==> {
                &&& k.id@ == key_id_at(now)
                &&& k.key@.len() == 32
                &&& k.created_at == now
                &&& k.expires_at == later(now, KEY_LIFETIME_NANOS)
                &&& k.algorithm == EncryptionAlgorithm::AES256GCM
                &&& key_views(final(self).active_keys@) == key_views(old(self).active_keys@).insert(k.id@, k@)
            },
            r matches Err(e) ==> {
                &&& e@ == "Failed to generate data key: "@ + "ring::error::Unspecified"@
                &&& final(self).active_keys == old(self).active_keys
            },
    {
        let key_bytes = match random_bytes(32) {
            Ok(b) => b,
            Err(e) => {
                let mut msg = owned("Failed to generate data key: ");
                msg.append(e.as_str());
                return Err(msg);
            },
        };
        let mut id = owned("key_");
        let digits = signed_decimal_string(now);
        id.append(digits.as_str());
        let key = EncryptionKey {
            id,
            key: key_bytes,
            created_at: now,
            expires_at: later_by(now, KEY_LIFETIME_NANOS),
            algorithm: EncryptionAlgorithm::AES256GCM,
        };
        let stored = key.copy();
        let ghost m0 = self.active_keys@;
        self.active_keys.insert(key.id.clone(), stored);
        assert(key_views(self.active_keys@) =~= key_views(m0).insert(key.id@, key@));
        Ok(key)
    }

    /// Makes and registers a fresh data key at the current time.
    pub fn generate_data_key(&mut self) -> (r: Result<EncryptionKey, String>)
        requires
            old(self).wf(),
        ensures
            final(self).wf(),
            final(self).key_rotation_counter == old(self).key_rotation_counter,
            r matches Ok(k) ==> {
                &&& k.key@.len() == 32
                &&& k.algorithm == EncryptionAlgorithm::AES256GCM
                &&& k.expires_at == later(k.created_at, KEY_LIFETIME_NANOS)
                &&& k.id@ == key_id_at(k.created_at)
                &&& key_views(final(self).active_keys@) == key_views(old(self).active_keys@).insert(k.id@, k@)
            },
            r is Err ==> final(self).active_keys == old(self).active_keys,
            r matches Err(e) ==> e@ == "Failed to generate data key: "@ + "ring::error::Unspecified"@,
    {
        let now = now_nanos();
        self.generate_data_key_at(now)
    }

    /// Encrypts `plaintext` with `key` under a fresh random nonce: see
    /// [`Self::encrypt_with_nonce`]. A key that is not 32 bytes long is
    /// refused before any nonce is drawn; otherwise it fails only when the
    /// random generator fails, or when the cipher refuses the plaintext
    /// under the nonce drawn.
    pub fn encrypt(&self, plaintext: &[u8], key: &EncryptionKey) -> (r: Result<EncryptedData, String>)
        ensures
            r matches Ok(d) ==> {
                &&& d.key_id@ == key.id@
                &&& d.algorithm == key.algorithm
                &&& d.nonce@.len() == 12
                &&& d.tag@.len() == 16
                &&& d.ciphertext@.len() == plaintext@.len()
                &&& sealed_by(key.algorithm, key.key@, d.nonce@, plaintext@) == Some(d.ciphertext@ + d.tag@)
            },
            key.key@.len() != 32 ==> (r matches Err(e) && e@ == key_refusal(key.algorithm)),
            r matches Err(e) ==> {
                ||| e@ == key_refusal(key.algorithm) && key.key@.len() != 32
                ||| e@ == nonce_refusal(key.algorithm)
                ||| e@ == seal_refusal(key.algorithm) && exists|nonce: Seq<u8>|
                    nonce.len() == 12 && #[trigger] sealed_by(key.algorithm, key.key@, nonce, plaintext@) is None
            },
    {
        if key.key.len() != 32 {
            return match key.algorithm {
                EncryptionAlgorithm::AES256GCM => {
                    let mut m = owned("Failed to create cipher: ");
                    m.append("Invalid Length");
                    Err(m)
                },
                EncryptionAlgorithm::ChaCha20Poly1305 => Err(owned("Failed to create unbound key: ring::error::Unspecified")),
            };
        }
        let nonce = match random_bytes(12) {
            Ok(n) => n,
            Err(e) => {
                return match key.algorithm {
                    EncryptionAlgorithm::AES256GCM => Err(owned("Failed to generate nonce")),
                    EncryptionAlgorithm::ChaCha20Poly1305 => Err(with_detail("Failed to generate nonce: ", &e)),
                };
            },
        };
        let ghost n = nonce@;
        let r = self.encrypt_with_nonce(plaintext, key, nonce);
        proof {
            if r is Err {
                assert(sealed_by(key.algorithm, key.key@, n, plaintext@) is None);
            }
        }
        r
    }

    /// Encrypts `plaintext` with `key` under `nonce`: the ciphertext and the
    /// 16-byte tag are what the key's algorithm seals. A key that is not 32
    /// bytes long is refused; otherwise it fails exactly when the cipher
    /// refuses.
    pub fn encrypt_with_nonce(&self, plaintext: &[u8], key: &EncryptionKey, nonce: Vec<u8>) -> (r: Result<
        EncryptedData,
        String,
    >)
        requires
            nonce@.len() == 12,
        ensures
            r matches Ok(d) ==> {
                &&& d.key_id@ == key.id@
                &&& d.algorithm == key.algorithm
                &&& d.nonce@ == nonce@
                &&& d.tag@.len() == 16
                &&& d.ciphertext@.len() == plaintext@.len()
                &&& sealed_by(key.algorithm, key.key@, nonce@, plaintext@) == Some(d.ciphertext@ + d.tag@)
            },
            key.key@.len() != 32 ==> (r matches Err(e) && e@ == key_refusal(key.algorithm)),
            key.key@.len() == 32 ==> (r is Ok <==> sealed_by(key.algorithm, key.key@, nonce@, plaintext@) is Some),
            key.key@.len() == 32 ==> (r matches Err(e) ==> e@ == seal_refusal(key.algorithm)),
    {
        let pt = slice_to_vec(plaintext);
        match key.algorithm {
            EncryptionAlgorithm::AES256GCM => {
                match aes256_gcm_seal(key.key.as_slice(), nonce.as_slice(), pt.as_slice()) {
                    Ok(sealed) => Ok(split_sealed(key, nonce, sealed, EncryptionAlgorithm::AES256GCM)),
                    Err(AeadFailure::InvalidKey(t)) => Err(with_detail("Failed to create cipher: ", &t)),
                    Err(AeadFailure::Failed(t)) => Err(with_detail("Encryption failed: ", &t)),
                }
            },
            EncryptionAlgorithm::ChaCha20Poly1305 => {
                if key.key.len() != 32 {
                    return Err(owned("Failed to create unbound key: ring::error::Unspecified"));
                }
                match chacha20_seal(key.key.as_slice(), nonce.as_slice(), pt.as_slice()) {
                    Ok(sealed) => Ok(split_sealed(key, nonce, sealed, EncryptionAlgorithm::ChaCha20Poly1305)),
                    Err(AeadFailure::InvalidKey(t)) => Err(with_detail("Failed to create unbound key: ", &t)),
                    Err(AeadFailure::Failed(t)) => Err(with_detail("ChaCha20 encryption failed: ", &t)),
                }
            },
        }
    }

    /// Decrypts data with the registered key of its id. An unknown id is
    /// refused ("Encryption key not found"); otherwise the result is what
    /// opening the ciphertext and tag under that key and the data's nonce
    /// gives. Data that encryption made with that key decrypts to the
    /// plaintext it was made from.
    pub fn decrypt(&self, encrypted_data: &EncryptedData) -> (r: Result<Vec<u8>, String>)
        requires
            self.wf(),
            encrypted_data.algorithm == EncryptionAlgorithm::AES256GCM ==> encrypted_data.nonce@.len() == 12,
        ensures
            !self.active_keys@.contains_key(encrypted_data.key_id@) ==> (r matches Err(e) && e@
                == "Encryption key not found"@),
            forall|p: Seq<u8>|
                self.active_keys@.contains_key(encrypted_data.key_id@) && #[trigger] sealed_by(
                    encrypted_data.algorithm,
                    self.active_keys@[encrypted_data.key_id@].key@,
                    encrypted_data.nonce@,
                    p,
                ) == Some(encrypted_data.ciphertext@ + encrypted_data.tag@) && self.active_keys@[encrypted_data.key_id@].key@.len()
                    == 32 && encrypted_data.nonce@.len() == 12 ==> (r matches Ok(q) && q@ == p),
            r matches Ok(q) ==> self.active_keys@.contains_key(encrypted_data.key_id@) && opened_by(
                encrypted_data.algorithm,
                self.active_keys@[encrypted_data.key_id@].key@,
                encrypted_data.nonce@,
                encrypted_data.ciphertext@ + encrypted_data.tag@,
            ) == Some(q@),
    {
        let key = match self.active_keys.get(&encrypted_data.key_id) {
            Some(k) => k,
            None => {
                return Err(owned("Encryption key not found"));
            },
        };
        let mut sealed = copy_bytes(&encrypted_data.ciphertext);
        let mut i: usize = 0;
        let ghost c = encrypted_data.ciphertext@;
        while i < encrypted_data.tag.len()
            invariant
                i <= encrypted_data.tag@.len(),
                sealed@ == c + encrypted_data.tag@.take(i as int),
            decreases encrypted_data.tag@.len() - i,
        {
            sealed.push(encrypted_data.tag[i]);
            assert(encrypted_data.tag@.take(i + 1) =~= encrypted_data.tag@.take(i as int).push(encrypted_data.tag@[i as int]));
            i = i + 1;
        }
        assert(encrypted_data.tag@.take(encrypted_data.tag@.len() as int) =~= encrypted_data.tag@);
        match encrypted_data.algorithm {
            EncryptionAlgorithm::AES256GCM => {
                match aes256_gcm_open(key.key.as_slice(), encrypted_data.nonce.as_slice(), sealed.as_slice()) {
                    Ok(p) => Ok(p),
                    Err(AeadFailure::InvalidKey(t)) => Err(with_detail("Failed to create cipher: ", &t)),
                    Err(AeadFailure::Failed(t)) => Err(with_detail("Decryption failed: ", &t)),
                }
            },
            EncryptionAlgorithm::ChaCha20Poly1305 => {
                if key.key.len() != 32 {
                    return Err(owned("Failed to create unbound key: ring::error::Unspecified"));
                }
                if encrypted_data.nonce.len() != 12 {
                    return Err(owned("Invalid nonce length"));
                }
                match chacha20_open(key.key.as_slice(), encrypted_data.nonce.as_slice(), sealed.as_slice()) {
                    Ok(p) => Ok(p),
                    Err(AeadFailure::InvalidKey(t)) => Err(with_detail("Failed to create unbound key: ", &t)),
                    Err(AeadFailure::Failed(t)) => Err(with_detail("ChaCha20 decryption failed: ", &t)),
                }
            },
        }
    }

    /// The lowercase hexadecimal digest of `data` by `algorithm`.
    pub fn hash_data(&self, data: &[u8], algorithm: HashAlgorithm) -> (r: Result<String, String>)
        ensures
            r matches Ok(h) && h@ == hex_of(digest_of(algorithm, data@)) && h@.len() == 64,
    {
        let digest = match algorithm {
            HashAlgorithm::SHA256 => sha256_digest(data),
            HashAlgorithm::SHA3_256 => sha3_256_digest(data),
            HashAlgorithm::Blake3 => blake3_digest(data),
        };
        proof {
            lemma_hex_len(digest@);
        }
        Ok(hex_encode(digest.as_slice()))
    }

    /// Whether `data` has the recorded checksum under the recorded
    /// algorithm.
    pub fn verify_data_integrity(&self, data: &[u8], integrity: &DataIntegrity) -> (r: Result<bool, String>)
        ensures
            r matches Ok(b) && b == (hex_of(digest_of(integrity.hash_algorithm, data@)) == integrity.checksum@),
    {
        let computed = match self.hash_data(data, integrity.hash_algorithm) {
            Ok(h) => h,
            Err(e) => {
                return Err(e);
            },
        };
        Ok(computed == integrity.checksum)
    }

    /// A BLAKE3 checksum of `data`, stamped with the current time.
    pub fn create_data_integrity(&self, data: &[u8]) -> (r: Result<DataIntegrity, String>)
        ensures
            r matches Ok(d) && d.checksum@ == hex_of(blake3_hash(data@)) && d.hash_algorithm == HashAlgorithm::Blake3,
    {
        let checksum = match self.hash_data(data, HashAlgorithm::Blake3) {
            Ok(h) => h,
            Err(e) => {
                return Err(e);
            },
        };
        Ok(DataIntegrity { checksum, hash_algorithm: HashAlgorithm::Blake3, timestamp: now_nanos() })
    }

    /// Hashes a password with Argon2 under a random 16-byte salt, as a PHC
    /// string; the password verifies against the string.
    pub fn hash_password(&self, password: &str) -> (r: Result<String, String>)
        ensures
            r matches Ok(h) ==> argon2_verdict(password.spec_bytes(), h@) == Some(true),
            r matches Ok(h) ==> exists|salt: Seq<u8>|
                salt.len() == 16 && #[trigger] argon2_phc(password.spec_bytes(), salt) == Some(h@),
            r matches Err(e) ==> "Password hashing failed: "@.is_prefix_of(e@),
    {
        let bytes = password.as_bytes_vec();
        let salt = match random_bytes(16) {
            Ok(s) => s,
            Err(e) => {
                let m = with_detail("Password hashing failed: ", &e);
                proof {
                    lemma_prefix_of_concat("Password hashing failed: "@, e@);
                }
                return Err(m);
            },
        };
        match argon2_hash(bytes.as_slice(), salt.as_slice()) {
            Ok(h) => Ok(h),
            Err(e) => {
                let m = with_detail("Password hashing failed: ", &e);
                proof {
                    lemma_prefix_of_concat("Password hashing failed: "@, e@);
                }
                Err(m)
            },
        }
    }

    /// Whether `password` matches the Argon2 PHC string `hash`: the verdict
    /// of Argon2, or an error when the string cannot be used.
    pub fn verify_password(&self, password: &str, hash: &str) -> (r: Result<bool, String>)
        ensures
            argon2_verdict(password.spec_bytes(), hash@) matches Some(b) ==> r == Ok::<bool, String>(b),
            argon2_verdict(password.spec_bytes(), hash@) is None ==> r is Err,
    {
        let bytes = password.as_bytes_vec();
        match argon2_verify(bytes.as_slice(), hash) {
            Ok(b) => Ok(b),
            Err(PasswordCheckError::InvalidHash(t)) => Err(with_detail("Invalid password hash: ", &t)),
            Err(PasswordCheckError::Failed(t)) => Err(with_detail("Password verification failed: ", &t)),
        }
    }

    /// Rotates keys at time `now`: every registered key is set to expire an
    /// hour later, a fresh key is made and registered, and the rotation is
    /// counted. When the fresh key cannot be made the rotation is not
    /// counted.
    pub fn rotate_keys_at(&mut self, now: i64) -> (r: Result<(), String>)
        requires
            old(self).wf(),
            old(self).key_rotation_counter < u64::MAX,
        ensures
            final(self).wf(),
            rotated_at(*old(self), *final(self), r, now),
    {
        let ghost m0 = key_views(self.active_keys@);
        let ghost es = self.active_keys.entry_seq();
        let ghost ks = self.active_keys.key_seq();
        let n = self.active_keys.entry_count();
        let new_expiry = later_by(now, HOUR_NANOS);
        let mut i: usize = 0;
        proof {
            self.active_keys.lemma_view();
            assert forall|j: int| 0 <= j < n implies m0.contains_key(#[trigger] ks[j]) && m0[ks[j]] == es[j].1@ by {
                assert(ks[j] == es[j].0@);
                assert(self.active_keys@.contains_key(es[j].0@));
            }
            assert(ks.take(0) =~= Seq::<Seq<char>>::empty());
        }
        while i < n
            invariant
                self.wf(),
                n == es.len(),
                n == ks.len(),
                i <= n,
                ks == es.map_values(|e: (String, EncryptionKey)| e.0@),
                self.active_keys.key_seq() == ks,
                self.active_keys.entry_seq().len() == n,
                self.active_keys@.dom() == m0.dom(),
                self.key_rotation_counter == old(self).key_rotation_counter,
                forall|j: int| i <= j < n ==> #[trigger] self.active_keys.entry_seq()[j] == es[j],
                forall|j: int| 0 <= j < n ==> m0.contains_key(#[trigger] ks[j]) && m0[ks[j]] == es[j].1@,
                forall|k: Seq<char>|
                    #[trigger] self.active_keys@.contains_key(k) ==> key_views(self.active_keys@)[k] == if ks.take(
                        i as int,
                    ).contains(k) {
                        KeyView { expires_at: new_expiry, ..m0[k] }
                    } else {
                        m0[k]
                    },
                new_expiry == later(now, HOUR_NANOS),
            decreases n - i,
        {
            let ghost before = self.active_keys@;
            let mut k = self.active_keys.value_at(i).copy();
            assert(self.active_keys.entry_seq()[i as int] == es[i as int]);
            k.expires_at = new_expiry;
            let ghost kv = k@;
            assert(kv == KeyView { expires_at: new_expiry, ..m0[ks[i as int]] });
            self.active_keys.set_value_at(i, k);
            assert(ks.take(i + 1) =~= ks.take(i as int).push(ks[i as int]));
            assert forall|q: Seq<char>| #[trigger] self.active_keys@.contains_key(q) implies key_views(self.active_keys@)[q]
                == if ks.take(i + 1).contains(q) {
                KeyView { expires_at: new_expiry, ..m0[q] }
            } else {
                m0[q]
            } by {
                if q == ks[i as int] {
                    assert(ks.take(i + 1).contains(q)) by {
                        assert(ks.take(i + 1)[i as int] == q);
                    }
                } else {
                    assert(before.contains_key(q));
                    assert(ks.take(i + 1).contains(q) == ks.take(i as int).contains(q));
                }
            }
            i = i + 1;
        }
        proof {
            assert(ks.take(n as int) =~= ks);
            self.active_keys.lemma_view();
            assert forall|q: Seq<char>| #[trigger] self.active_keys@.contains_key(q) implies ks.contains(q) by {
                assert(self.active_keys@.dom() == ks.to_set());
            }
            assert(key_views(self.active_keys@) =~= expiring_at(m0, later(now, HOUR_NANOS)));
        }
        let ghost marked = key_views(self.active_keys@);
        match self.generate_data_key_at(now) {
            Ok(k) => {
                self.key_rotation_counter = self.key_rotation_counter + 1;
                proof {
                    assert(key_views(self.active_keys@) == marked.insert(k.id@, k@));
                    assert(self.active_keys@.dom() =~= marked.dom().insert(k.id@));
                    assert(self.active_keys@.contains_key(k.id@));
                    assert(key_views(self.active_keys@)[k.id@] == self.active_keys@[k.id@]@);
                    assert(self.active_keys@[k.id@]@ == k@);
                }
                Ok(())
            },
            Err(e) => Err(e),
        }
    }

    /// Rotates keys at the current time: what [`rotated_at`] says holds for
    /// the time the clock gave.
    pub fn rotate_keys(&mut self) -> (r: Result<(), String>)
        requires
            old(self).wf(),
            old(self).key_rotation_counter < u64::MAX,
        ensures
            final(self).wf(),
            r is Ok ==> final(self).key_rotation_counter == old(self).key_rotation_counter + 1,
            r is Err ==> final(self).key_rotation_counter == old(self).key_rotation_counter,
            exists|now: i64| #[trigger] rotated_at(*old(self), *final(self), r, now),
    {
        let now = now_nanos();
        let r = self.rotate_keys_at(now);
        assert(rotated_at(*old(self), *self, r, now));
        r
    }

    /// The status of every registered key at time `now`, by key id.
    pub fn get_key_status_at(&self, now: i64) -> (r: StrMap<KeyStatus>)
        requires
            self.wf(),
        ensures
            r.wf(),
            r@.dom() == self.active_keys@.dom(),
            forall|k: Seq<char>|
                #[trigger] r@.contains_key(k) ==> r@[k] == key_status_at(self.active_keys@[k].expires_at, now),
    {
        let ghost es = self.active_keys.entry_seq();
        let ghost ks = self.active_keys.key_seq();
        let mut r: StrMap<KeyStatus> = StrMap::new();
        let n = self.active_keys.entry_count();
        let mut i: usize = 0;
        proof {
            self.active_keys.lemma_view();
        }
        while i < n
            invariant
                self.wf(),
                r.wf(),
                n == es.len(),
                es == self.active_keys.entry_seq(),
                i <= n,
                self.active_keys.key_seq() == ks,
                forall|k: Seq<char>| #[trigger] r@.contains_key(k) <==> ks.take(i as int).contains(k),
                forall|k: Seq<char>|
                    #[trigger] r@.contains_key(k) ==> self.active_keys@.contains_key(k) && r@[k] == key_status_at(
                        self.active_keys@[k].expires_at,
                        now,
                    ),
            decreases n - i,
        {
            let id = self.active_keys.key_at(i);
            let key = self.active_keys.value_at(i);
            let remaining: i128 = (key.expires_at as i128) - (now as i128);
            let status = if key.expires_at <= now {
                KeyStatus::Expired
            } else if remaining < 2 * (HOUR_NANOS as i128) {
                KeyStatus::ExpiringSoon
            } else {
                KeyStatus::Active
            };
            proof {
                self.active_keys.lemma_view();
                assert(ks[i as int] == id@);
                assert(ks.take(i + 1) =~= ks.take(i as int).push(id@));
                assert(self.active_keys@.contains_key(id@));
            }
            let ghost r0 = r@;
            r.insert(id.clone(), status);
            proof {
                assert forall|k: Seq<char>| #[trigger] r@.contains_key(k) <==> ks.take(i + 1).contains(k) by {
                    if k == id@ {
                        assert(ks.take(i + 1)[i as int] == k);
                    } else {
                        assert(r@.contains_key(k) == r0.contains_key(k));
                        if ks.take(i + 1).contains(k) {
                            let t = ks.take(i + 1);
                            let j = choose|j: int| 0 <= j < t.len() && #[trigger] t[j] == k;
                            assert(j < i);
                            assert(ks.take(i as int)[j] == k);
                        }
                    }
                }
            }
            i = i + 1;
        }
        proof {
            self.active_keys.lemma_view();
            assert(ks.take(n as int) =~= ks);
            assert(r@.dom() =~= self.active_keys@.dom());
        }
        r
    }

    /// The status of every registered key now, by key id.
    pub fn get_key_status(&self) -> (r: StrMap<KeyStatus>)
        requires
            self.wf(),
        ensures
            r.wf(),
            r@.dom() == self.active_keys@.dom(),
    {
        self.get_key_status_at(now_nanos())
    }
}

/// A sequence begins any sequence made by appending to it.
pub proof fn lemma_prefix_of_concat<A>(a: Seq<A>, b: Seq<A>)
    ensures
        a.is_prefix_of(a + b),
{
    assert((a + b).subrange(0, a.len() as int) =~= a);
}

/// `prefix` followed by `detail`.
fn with_detail(prefix: &str, detail: &String) -> (r: String)
    ensures
        r@ == prefix@ + detail@,
{
    let mut m = owned(prefix);
    m.append(detail.as_str());
    m
}

/// The bytes of a slice, as a vector.
fn slice_to_vec(s: &[u8]) -> (v: Vec<u8>)
    ensures
        v@ == s@,
{
    let mut v: Vec<u8> = Vec::new();
    let mut i: usize = 0;
    while i < s.len()
        invariant
            i <= s@.len(),
            v@ == s@.take(i as int),
        decreases s@.len() - i,
    {
        v.push(s[i]);
        assert(s@.take(i + 1) =~= s@.take(i as int).push(s@[i as int]));
        i = i + 1;
    }
    assert(s@.take(s@.len() as int) =~= s@);
    v
}

/// Splits sealed bytes into ciphertext and the 16-byte tag at the end.
fn split_sealed(key: &EncryptionKey, nonce: Vec<u8>, sealed: Vec<u8>, algorithm: EncryptionAlgorithm) -> (d: EncryptedData)
    requires
        sealed@.len() >= 16,
    ensures
        d.key_id@ == key.id@,
        d.nonce@ == nonce@,
        d.ciphertext@ + d.tag@ == sealed@,
        d.tag@.len() == 16,
        d.ciphertext@.len() == sealed@.len() - 16,
        d.algorithm == algorithm,
{
    let tag_end = sealed.len() - 16;
    let mut ciphertext: Vec<u8> = Vec::new();
    let mut tag: Vec<u8> = Vec::new();
    let mut i: usize = 0;
    while i < sealed.len()
        invariant
            tag_end == sealed@.len() - 16,
            i <= sealed@.len(),
            i <= tag_end ==> ciphertext@ == sealed@.take(i as int) && tag@.len() == 0,
            i > tag_end ==> ciphertext@ == sealed@.take(tag_end as int) && tag@ == sealed@.subrange(
                tag_end as int,
                i as int,
            ),
        decreases sealed@.len() - i,
    {
        if i < tag_end {
            ciphertext.push(sealed[i]);
            assert(sealed@.take(i + 1) =~= sealed@.take(i as int).push(sealed@[i as int]));
        } else {
            let ghost before = tag@;
            tag.push(sealed[i]);
            if i == tag_end {
                assert(tag@ =~= sealed@.subrange(tag_end as int, i + 1));
            } else {
                assert(tag@ =~= sealed@.subrange(tag_end as int, i + 1));
            }
        }
        i = i + 1;
    }
    assert(ciphertext@ + tag@ =~= sealed@);
    EncryptedData { key_id: key.id.clone(), nonce, ciphertext, tag, algorithm }
}

} // verus!
