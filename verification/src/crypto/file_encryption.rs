//! Encrypted files: AES-256-GCM with a per-file key.
//!
//! Each file's key is the SHA-256 digest of the manager's master key and a
//! random 16-byte salt. A file is a 44-byte header followed by the sealed
//! data (ciphertext, then the 16-byte tag):
//!
//! ```text
//! "PREN" | version u16 LE | flags u16 LE | salt (16) | nonce (12) | checksum (8)
//! ```
//!
//! The flags hold bit 0 for "encrypted" and bit 1 for "compressed"; the
//! checksum is the first eight bytes of the SHA-256 digest of the
//! plaintext. Decryption checks the magic, the version, the tag and the
//! checksum, so a file decrypts to the plaintext it was made from and any
//! change to its sealed part is refused.

use vstd::prelude::*;
use vstd::string::{StrSliceExecFns, StringSliceAdditionalSpecFns};
use crate::crypto::primitives::{aes256_gcm_open, aes256_gcm_seal, aes_gcm_open, aes_gcm_seal, random_bytes, AeadFailure};
use crate::format::{decimal, decimal_string};
use crate::hyperledger::identity::{sha256, sha256_digest};
use crate::text::owned;

verus! {

/// Current encryption file format version.
pub const FILE_VERSION: u16 = 1;

/// Total header size in bytes (magic, version, flags, salt, nonce,
/// checksum).
pub const HEADER_SIZE: usize = 44;

/// Size of the GCM nonce in bytes.
pub const NONCE_SIZE: usize = 12;

/// Size of the per-file key derivation salt in bytes.
pub const SALT_SIZE: usize = 16;

/// Size of the GCM authentication tag in bytes.
pub const TAG_SIZE: usize = 16;

/// The magic bytes that begin an encrypted file: `"PREN"`.
pub open spec fn file_magic() -> Seq<u8> {
    seq![80u8, 82u8, 69u8, 78u8]
}

/// The magic bytes that begin an encrypted file: `"PREN"`.
pub fn magic_bytes() -> (m: Vec<u8>)
    ensures
        m@ == file_magic(),
{
    let mut m: Vec<u8> = Vec::new();
    m.push(80);
    m.push(82);
    m.push(69);
    m.push(78);
    assert(m@ =~= file_magic());
    m
}

/// Flags describing how a file was stored.
#[derive(Debug, Clone, Copy, PartialEq, Eq, Structural)]
pub struct FileEncryptionFlags {
    /// Whether the payload is encrypted.
    pub encrypted: bool,
    /// Whether the payload is compressed.
    pub compressed: bool,
}

impl Default for FileEncryptionFlags {
    fn default() -> (f: Self)
        ensures
            f.encrypted,
            !f.compressed,
    {
        FileEncryptionFlags { encrypted: true, compressed: false }
    }
}

/// The flags as stored: bit 0 for encrypted, bit 1 for compressed.
pub open spec fn flag_value(f: FileEncryptionFlags) -> u16 {
    ((if f.compressed {
        2u16
    } else {
        0u16
    }) + (if f.encrypted {
        1u16
    } else {
        0u16
    })) as u16
}

/// The flags as stored.
fn flag_bits(f: FileEncryptionFlags) -> (v: u16)
    ensures
        v == flag_value(f),
{
    let c: u16 = if f.compressed {
        2
    } else {
        0
    };
    let e: u16 = if f.encrypted {
        1
    } else {
        0
    };
    c + e
}

/// The header at the start of an encrypted file.
pub struct EncryptedFileHeader {
    /// Magic bytes identifying the format.
    pub magic: [u8; 4],
    /// Encryption format version.
    pub version: u16,
    /// Encryption and compression flags.
    pub flags: FileEncryptionFlags,
    /// Salt of the per-file key.
    pub key_salt: [u8; 16],
    /// Nonce used to encrypt.
    pub nonce: [u8; 12],
    /// First eight bytes of the plaintext's SHA-256 digest.
    pub data_checksum: [u8; 8],
}

/// A 16-bit value as two little-endian bytes.
pub open spec fn le16(v: u16) -> Seq<u8> {
    seq![(v % 256) as u8, (v / 256) as u8]
}

/// The 16-bit value of two little-endian bytes.
pub open spec fn from_le16(lo: u8, hi: u8) -> nat {
    (lo + 256 * hi) as nat
}

/// The per-file key: the SHA-256 digest of the master key and the salt.
pub open spec fn file_key(master: Seq<u8>, salt: Seq<u8>) -> Seq<u8> {
    sha256(master + salt)
}

/// The plaintext checksum: the first eight bytes of its SHA-256 digest.
pub open spec fn plaintext_checksum(plaintext: Seq<u8>) -> Seq<u8> {
    Seq::new(8, |i: int| sha256(plaintext)[i])
}

/// The header bytes of a file encrypted with `salt` and `nonce`.
pub open spec fn header_bytes(salt: Seq<u8>, nonce: Seq<u8>, checksum: Seq<u8>) -> Seq<u8> {
    file_magic() + le16(FILE_VERSION) + le16(flag_value(FileEncryptionFlags { encrypted: true, compressed: false }))
        + salt + nonce + checksum
}

/// The file that encrypting `plaintext` under `master` with `salt` and
/// `nonce` gives: the header, then the sealed data (the ciphertext and its
/// 16-byte tag).
pub open spec fn encrypted_file(master: Seq<u8>, salt: Seq<u8>, nonce: Seq<u8>, plaintext: Seq<u8>) -> Option<Seq<u8>> {
    match aes_gcm_seal(file_key(master, salt), nonce, plaintext) {
        Some(sealed) => if sealed.len() == plaintext.len() + TAG_SIZE {
            Some(header_bytes(salt, nonce, plaintext_checksum(plaintext)) + sealed)
        } else {
            None
        },
        None => None,
    }
}

/// What decrypting the bytes of a file under `master` gives: the plaintext,
/// the bytes themselves when the file is not marked encrypted, or the
/// error.
pub open spec fn decrypted_file(master: Seq<u8>, file: Seq<u8>) -> Result<Seq<u8>, Seq<char>> {
    if file.len() < HEADER_SIZE + TAG_SIZE {
        Err("Encrypted file too short"@)
    } else if file.take(4) != file_magic() {
        Err("Invalid file format"@)
    } else if from_le16(file[4], file[5]) != FILE_VERSION {
        Err("Unsupported encryption version: "@ + decimal(from_le16(file[4], file[5])))
    } else if from_le16(file[6], file[7]) % 2 == 0 {
        Ok(file)
    } else {
        let salt = file.subrange(8, 24);
        let nonce = file.subrange(24, 36);
        let stored = file.subrange(36, 44);
        match aes_gcm_open(file_key(master, salt), nonce, file.skip(44)) {
            None => Err("Decryption failed: "@ + "aead::Error"@),
            Some(p) => if plaintext_checksum(p) != stored {
                Err("Data integrity check failed - file may be tampered"@)
            } else {
                Ok(p)
            },
        }
    }
}

/// Whether bytes begin with the magic of an encrypted file.
pub open spec fn has_magic(bytes: Seq<u8>) -> bool {
    bytes.len() >= 4 && bytes.take(4) == file_magic()
}

/// Whether `bytes` begin with the magic of an encrypted file.
pub fn starts_with_magic(bytes: &[u8]) -> (b: bool)
    ensures
        b == has_magic(bytes@),
{
    if bytes.len() < 4 {
        return false;
    }
    let b = bytes[0] == 80 && bytes[1] == 82 && bytes[2] == 69 && bytes[3] == 78;
    assert(b == (bytes@.take(4) =~= file_magic()));
    b
}

/// Appends the bytes of `src` to `dst`.
fn append_bytes(dst: &mut Vec<u8>, src: &[u8])
    ensures
        final(dst)@ == old(dst)@ + src@,
{
    let mut i: usize = 0;
    let ghost d0 = dst@;
    while i < src.len()
        invariant
            i <= src@.len(),
            dst@ == d0 + src@.take(i as int),
        decreases src@.len() - i,
    {
        dst.push(src[i]);
        assert(src@.take(i + 1) =~= src@.take(i as int).push(src@[i as int]));
        i = i + 1;
    }
    assert(src@.take(src@.len() as int) =~= src@);
}

/// The bytes of `s` from `from` to `to`.
fn slice_range(s: &[u8], from: usize, to: usize) -> (r: Vec<u8>)
    requires
        from <= to <= s@.len(),
    ensures
        r@ == s@.subrange(from as int, to as int),
{
    let mut r: Vec<u8> = Vec::new();
    let mut i: usize = from;
    while i < to
        invariant
            from <= i <= to,
            to <= s@.len(),
            r@ == s@.subrange(from as int, i as int),
        decreases to - i,
    {
        r.push(s[i]);
        assert(s@.subrange(from as int, i + 1) =~= s@.subrange(from as int, i as int).push(s@[i as int]));
        i = i + 1;
    }
    r
}

/// Encrypts and decrypts files with per-file keys derived from a master
/// key.
pub struct FileEncryptionManager {
    /// The 32-byte master key.
    pub master_key: Vec<u8>,
}

impl FileEncryptionManager {
    /// Whether the master key has 32 bytes.
    pub open spec fn wf(&self) -> bool {
        self.master_key@.len() == 32
    }

    /// A manager with a random master key (all zeros if the generator
    /// fails).
    pub fn new() -> (m: Self)
        ensures
            m.wf(),
    {
        let master_key = match random_bytes(32) {
            Ok(k) => k,
            Err(_) => {
                let mut z: Vec<u8> = Vec::new();
                let mut i: usize = 0;
                while i < 32
                    invariant
                        i <= 32,
                        z@.len() == i,
                    decreases 32 - i,
                {
                    z.push(0);
                    i = i + 1;
                }
                z
            },
        };
        FileEncryptionManager { master_key }
    }

    /// A manager whose master key is the SHA-256 digest of the password
    /// followed by `primusdb_file_key_v1`, so every node that knows the
    /// password reads the same files.
    pub fn from_password(password: &str) -> (m: Self)
        ensures
            m.wf(),
            m.master_key@ == sha256(password.spec_bytes() + "primusdb_file_key_v1".spec_bytes()),
    {
        let mut data = password.as_bytes_vec();
        let label = "primusdb_file_key_v1".as_bytes_vec();
        append_bytes(&mut data, label.as_slice());
        FileEncryptionManager { master_key: sha256_digest(data.as_slice()) }
    }

    /// The per-file key for `salt`.
    fn derive_file_key(&self, salt: &[u8]) -> (k: Vec<u8>)
        ensures
            k@ == file_key(self.master_key@, salt@),
            k@.len() == 32,
    {
        let mut data: Vec<u8> = Vec::new();
        append_bytes(&mut data, self.master_key.as_slice());
        append_bytes(&mut data, salt);
        sha256_digest(data.as_slice())
    }

    /// Encrypts a plaintext into the file format with a fresh random salt
    /// and nonce: see [`Self::seal_file`]. It fails only when the random
    /// generator fails, or when the cipher refuses the plaintext under the
    /// salt and nonce drawn.
    pub fn encrypt_file(&self, plaintext: &[u8]) -> (r: Result<Vec<u8>, String>)
        ensures
            r matches Ok(f) ==> exists|salt: Seq<u8>, nonce: Seq<u8>|
                salt.len() == 16 && nonce.len() == 12 && #[trigger] encrypted_file(
                    self.master_key@,
                    salt,
                    nonce,
                    plaintext@,
                ) == Some(f@),
            r matches Err(e) ==> {
                ||| e@ == "Failed to generate salt: "@ + "ring::error::Unspecified"@
                ||| e@ == "Failed to generate nonce: "@ + "ring::error::Unspecified"@
                ||| e@ == "Encryption failed: "@ + "aead::Error"@ && exists|salt: Seq<u8>, nonce: Seq<u8>|
                    salt.len() == 16 && nonce.len() == 12 && #[trigger] encrypted_file(
                        self.master_key@,
                        salt,
                        nonce,
                        plaintext@,
                    ) is None
            },
    {
        let salt = match random_bytes(16) {
            Ok(s) => s,
            Err(e) => {
                let mut m = owned("Failed to generate salt: ");
                m.append(e.as_str());
                return Err(m);
            },
        };
        let nonce = match random_bytes(12) {
            Ok(n) => n,
            Err(e) => {
                let mut m = owned("Failed to generate nonce: ");
                m.append(e.as_str());
                return Err(m);
            },
        };
        let r = self.seal_file(salt.as_slice(), nonce.as_slice(), plaintext);
        proof {
            if r is Ok {
                assert(encrypted_file(self.master_key@, salt@, nonce@, plaintext@) is Some);
            } else {
                assert(encrypted_file(self.master_key@, salt@, nonce@, plaintext@) is None);
            }
        }
        r
    }

    /// Encrypts a plaintext into the file format under the given salt and
    /// nonce: the header, then the sealed plaintext. It fails exactly when
    /// the cipher refuses.
    pub fn seal_file(&self, salt: &[u8], nonce: &[u8], plaintext: &[u8]) -> (r: Result<Vec<u8>, String>)
        requires
            salt@.len() == 16,
            nonce@.len() == 12,
        ensures
            r matches Ok(f) ==> encrypted_file(self.master_key@, salt@, nonce@, plaintext@) == Some(f@),
            r matches Err(e) ==> encrypted_file(self.master_key@, salt@, nonce@, plaintext@) is None && e@
                == "Encryption failed: "@ + "aead::Error"@,
    {
        let key = self.derive_file_key(salt);
        let sealed = match aes256_gcm_seal(key.as_slice(), nonce, plaintext) {
            Ok(c) => c,
            Err(AeadFailure::InvalidKey(t)) => {
                let mut m = owned("Failed to create cipher: ");
                m.append(t.as_str());
                return Err(m);
            },
            Err(AeadFailure::Failed(t)) => {
                let mut m = owned("Encryption failed: ");
                m.append(t.as_str());
                return Err(m);
            },
        };
        let digest = sha256_digest(plaintext);
        let checksum = slice_range(digest.as_slice(), 0, 8);
        let flags = flag_bits(FileEncryptionFlags::default());
        let mut out = magic_bytes();
        out.push((FILE_VERSION % 256) as u8);
        out.push((FILE_VERSION / 256) as u8);
        out.push((flags % 256) as u8);
        out.push((flags / 256) as u8);
        append_bytes(&mut out, salt);
        append_bytes(&mut out, nonce);
        append_bytes(&mut out, checksum.as_slice());
        append_bytes(&mut out, sealed.as_slice());
        proof {
            assert(checksum@ =~= plaintext_checksum(plaintext@));
            assert(out@ =~= header_bytes(salt@, nonce@, checksum@) + sealed@);
            assert(encrypted_file(self.master_key@, salt@, nonce@, plaintext@) == Some(out@));
        }
        Ok(out)
    }

    /// Decrypts the bytes of an encrypted file: see [`decrypted_file`]. A
    /// file that encryption made under this manager's master key decrypts
    /// to the plaintext it was made from.
    pub fn decrypt_file(&self, encrypted: &[u8]) -> (r: Result<Vec<u8>, String>)
        requires
            self.wf(),
        ensures
            r matches Ok(p) ==> decrypted_file(self.master_key@, encrypted@) == Ok::<Seq<u8>, Seq<char>>(p@),
            r matches Err(e) ==> decrypted_file(self.master_key@, encrypted@) == Err::<Seq<u8>, Seq<char>>(e@),
            forall|salt: Seq<u8>, nonce: Seq<u8>, p: Seq<u8>|
                salt.len() == 16 && nonce.len() == 12 && #[trigger] encrypted_file(self.master_key@, salt, nonce, p)
                    == Some(encrypted@) ==> (r matches Ok(q) && q@ == p),
    {
        proof {
            self.lemma_encrypted_shapes();
        }
        let n = encrypted.len();
        if n < HEADER_SIZE + TAG_SIZE {
            return Err(owned("Encrypted file too short"));
        }
        if !(encrypted[0] == 80 && encrypted[1] == 82 && encrypted[2] == 69 && encrypted[3] == 78) {
            proof {
                assert(encrypted@.take(4) != file_magic()) by {
                    if encrypted@.take(4) == file_magic() {
                        assert(encrypted@.take(4)[0] == encrypted@[0]);
                        assert(encrypted@.take(4)[1] == encrypted@[1]);
                        assert(encrypted@.take(4)[2] == encrypted@[2]);
                        assert(encrypted@.take(4)[3] == encrypted@[3]);
                    }
                }
            }
            return Err(owned("Invalid file format"));
        }
        assert(encrypted@.take(4) =~= file_magic());
        let version: u16 = (encrypted[4] as u16) + 256 * (encrypted[5] as u16);
        if version != FILE_VERSION {
            assert(version as nat == from_le16(encrypted@[4], encrypted@[5]));
            let mut m = owned("Unsupported encryption version: ");
            let digits = decimal_string(version as u64);
            m.append(digits.as_str());
            return Err(m);
        }
        let flags: u16 = (encrypted[6] as u16) + 256 * (encrypted[7] as u16);
        if flags % 2 == 0 {
            let whole = slice_range(encrypted, 0, n);
            assert(whole@ =~= encrypted@);
            return Ok(whole);
        }
        let salt = slice_range(encrypted, 8, 24);
        let nonce = slice_range(encrypted, 24, 36);
        let stored = slice_range(encrypted, 36, 44);
        let sealed = slice_range(encrypted, 44, n);
        assert(sealed@ =~= encrypted@.skip(44));
        let key = self.derive_file_key(salt.as_slice());
        let opened = aes256_gcm_open(key.as_slice(), nonce.as_slice(), sealed.as_slice());
        let plaintext = match opened {
            Ok(p) => p,
            Err(AeadFailure::InvalidKey(t)) => {
                let mut m = owned("Failed to create cipher: ");
                m.append(t.as_str());
                return Err(m);
            },
            Err(AeadFailure::Failed(t)) => {
                proof {
                    assert forall|s1: Seq<u8>, n1: Seq<u8>, p: Seq<u8>|
                        s1.len() == 16 && n1.len() == 12 && #[trigger] encrypted_file(self.master_key@, s1, n1, p)
                            == Some(encrypted@) implies false by {
                        assert(aes_gcm_seal(key@, nonce@, p) == Some(sealed@));
                    }
                }
                let mut m = owned("Decryption failed: ");
                m.append(t.as_str());
                return Err(m);
            },
        };
        let digest = sha256_digest(plaintext.as_slice());
        let computed = slice_range(digest.as_slice(), 0, 8);
        assert(computed@ =~= plaintext_checksum(plaintext@));
        proof {
            assert forall|s1: Seq<u8>, n1: Seq<u8>, p: Seq<u8>|
                s1.len() == 16 && n1.len() == 12 && #[trigger] encrypted_file(self.master_key@, s1, n1, p)
                    == Some(encrypted@) implies plaintext@ == p && plaintext_checksum(p) == stored@ by {
                assert(aes_gcm_seal(key@, nonce@, p) == Some(sealed@));
            }
        }
        let mut same = true;
        let mut i: usize = 0;
        while i < 8
            invariant
                i <= 8,
                computed@.len() == 8,
                stored@.len() == 8,
                same <==> (forall|j: int| 0 <= j < i ==> computed@[j] == stored@[j]),
            decreases 8 - i,
        {
            if computed[i] != stored[i] {
                same = false;
            }
            i = i + 1;
        }
        if !same {
            assert(computed@ != stored@) by {
                let j = choose|j: int| 0 <= j < 8 && computed@[j] != stored@[j];
            }
            return Err(owned("Data integrity check failed - file may be tampered"));
        }
        assert(computed@ =~= stored@);
        Ok(plaintext)
    }

    /// The shape of every file that encryption makes under this manager's
    /// master key: its header, then the sealed data.
    proof fn lemma_encrypted_shapes(&self)
        ensures
            forall|salt: Seq<u8>, nonce: Seq<u8>, p: Seq<u8>|
                salt.len() == 16 && nonce.len() == 12 && (#[trigger] encrypted_file(self.master_key@, salt, nonce, p)) is Some
                    ==> {
                    let f = encrypted_file(self.master_key@, salt, nonce, p)->0;
                    &&& f.len() >= HEADER_SIZE + TAG_SIZE
                    &&& f.take(4) == file_magic()
                    &&& from_le16(f[4], f[5]) == FILE_VERSION
                    &&& from_le16(f[6], f[7]) == 1
                    &&& f.subrange(8, 24) == salt
                    &&& f.subrange(24, 36) == nonce
                    &&& f.subrange(36, 44) == plaintext_checksum(p)
                    &&& aes_gcm_seal(file_key(self.master_key@, salt), nonce, p) == Some(f.skip(44))
                },
    {
        assert forall|salt: Seq<u8>, nonce: Seq<u8>, p: Seq<u8>|
            salt.len() == 16 && nonce.len() == 12 && (#[trigger] encrypted_file(self.master_key@, salt, nonce, p)) is Some
                implies {
                let f = encrypted_file(self.master_key@, salt, nonce, p)->0;
                &&& f.len() >= HEADER_SIZE + TAG_SIZE
                &&& f.take(4) == file_magic()
                &&& from_le16(f[4], f[5]) == FILE_VERSION
                &&& from_le16(f[6], f[7]) == 1
                &&& f.subrange(8, 24) == salt
                &&& f.subrange(24, 36) == nonce
                &&& f.subrange(36, 44) == plaintext_checksum(p)
                &&& aes_gcm_seal(file_key(self.master_key@, salt), nonce, p) == Some(f.skip(44))
            } by {
            let f = encrypted_file(self.master_key@, salt, nonce, p)->0;
            let sealed = aes_gcm_seal(file_key(self.master_key@, salt), nonce, p)->0;
            let h = header_bytes(salt, nonce, plaintext_checksum(p));
            assert(h.len() == 44);
            assert(f == h + sealed);
            assert(f.take(4) =~= file_magic());
            assert(f[4] == 1 && f[5] == 0 && f[6] == 1 && f[7] == 0);
            assert(f.subrange(8, 24) =~= salt);
            assert(f.subrange(24, 36) =~= nonce);
            assert(f.subrange(36, 44) =~= plaintext_checksum(p));
            assert(f.skip(44) =~= sealed);
        }
    }
}

} // verus!
