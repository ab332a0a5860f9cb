use primusdb::crypto::file_encryption::{FileEncryptionManager, HEADER_SIZE};
use primusdb::crypto::{
    CryptoManager, EncryptedData, EncryptionAlgorithm, HashAlgorithm, KeyStatus, SecurityConfig,
};

fn test_config() -> SecurityConfig {
    SecurityConfig {
        encryption_enabled: true,
        key_rotation_interval: 86400,
        auth_required: false,
        mfa_enabled: false,
    }
}

fn disabled_config() -> SecurityConfig {
    SecurityConfig {
        encryption_enabled: false,
        key_rotation_interval: 86400,
        auth_required: false,
        mfa_enabled: false,
    }
}

#[test]
fn test_crypto_manager_creation_enabled() {
    let _cm = CryptoManager::new(&test_config()).unwrap();
}

#[test]
fn test_crypto_manager_creation_disabled() {
    let _cm = CryptoManager::new(&disabled_config()).unwrap();
}

#[test]
fn test_generate_data_key() {
    let mut cm = CryptoManager::new(&test_config()).unwrap();
    let key = cm.generate_data_key().unwrap();
    assert_eq!(key.key.len(), 32);
    assert!(!key.id.is_empty());
    assert_eq!(key.algorithm, EncryptionAlgorithm::AES256GCM);
    let plaintext = b"test";
    let encrypted = cm.encrypt(plaintext, &key).unwrap();
    assert_eq!(encrypted.key_id, key.id);
}

#[test]
fn test_generate_multiple_keys() {
    let mut cm = CryptoManager::new(&test_config()).unwrap();
    let k1 = cm.generate_data_key().unwrap();
    let k2 = cm.generate_data_key().unwrap();
    assert_ne!(k1.id, k2.id);
    let e1 = cm.encrypt(b"data1", &k1).unwrap();
    let e2 = cm.encrypt(b"data2", &k2).unwrap();
    assert_eq!(cm.decrypt(&e1).unwrap(), b"data1");
    assert_eq!(cm.decrypt(&e2).unwrap(), b"data2");
}

#[test]
fn test_encrypt_decrypt_aes256gcm_roundtrip() {
    let mut cm = CryptoManager::new(&test_config()).unwrap();
    let key = cm.generate_data_key().unwrap();
    let plaintext = b"Hello, PrimusDB AES-256-GCM!";
    let encrypted = cm.encrypt(plaintext, &key).unwrap();
    assert_eq!(encrypted.algorithm, EncryptionAlgorithm::AES256GCM);
    assert!(!encrypted.ciphertext.is_empty());
    assert_eq!(encrypted.nonce.len(), 12);
    assert_eq!(encrypted.tag.len(), 16);
    assert_eq!(encrypted.key_id, key.id);
    assert_ne!(encrypted.ciphertext, plaintext);

    let decrypted = cm.decrypt(&encrypted).unwrap();
    assert_eq!(decrypted, plaintext);
}

#[test]
fn test_encrypt_decrypt_empty_data() {
    let mut cm = CryptoManager::new(&test_config()).unwrap();
    let key = cm.generate_data_key().unwrap();
    let plaintext = b"";
    let encrypted = cm.encrypt(plaintext, &key).unwrap();
    let decrypted = cm.decrypt(&encrypted).unwrap();
    assert_eq!(decrypted, plaintext);
}

#[test]
fn test_encrypt_decrypt_large_data() {
    let mut cm = CryptoManager::new(&test_config()).unwrap();
    let key = cm.generate_data_key().unwrap();
    let plaintext = vec![0xAB; 100_000];
    let encrypted = cm.encrypt(&plaintext, &key).unwrap();
    let decrypted = cm.decrypt(&encrypted).unwrap();
    assert_eq!(decrypted, plaintext);
}

#[test]
fn test_encrypt_decrypt_binary_data() {
    let mut cm = CryptoManager::new(&test_config()).unwrap();
    let key = cm.generate_data_key().unwrap();
    let plaintext = vec![0x00, 0xFF, 0xAA, 0x55, 0x01, 0xFE];
    let encrypted = cm.encrypt(&plaintext, &key).unwrap();
    let decrypted = cm.decrypt(&encrypted).unwrap();
    assert_eq!(decrypted, plaintext);
}

#[test]
fn test_decrypt_wrong_key() {
    let mut cm = CryptoManager::new(&test_config()).unwrap();
    let key1 = cm.generate_data_key().unwrap();
    let plaintext = b"secret data";
    let encrypted = cm.encrypt(plaintext, &key1).unwrap();

    let key2 = cm.generate_data_key().unwrap();
    let mut tampered = encrypted.clone();
    tampered.key_id = key2.id.clone();
    let result = cm.decrypt(&tampered);
    assert!(result.is_err());
}

#[test]
fn test_decrypt_with_no_key() {
    let cm = CryptoManager::new(&test_config()).unwrap();
    let encrypted = EncryptedData {
        key_id: "nonexistent-key".to_string(),
        nonce: vec![0u8; 12],
        ciphertext: vec![1, 2, 3],
        tag: vec![0u8; 16],
        algorithm: EncryptionAlgorithm::AES256GCM,
    };
    let result = cm.decrypt(&encrypted);
    assert!(result.is_err());
}

#[test]
fn test_tampered_ciphertext() {
    let mut cm = CryptoManager::new(&test_config()).unwrap();
    let key = cm.generate_data_key().unwrap();
    let plaintext = b"important data";
    let mut encrypted = cm.encrypt(plaintext, &key).unwrap();
    if !encrypted.ciphertext.is_empty() {
        encrypted.ciphertext[0] ^= 0xFF;
    }
    let result = cm.decrypt(&encrypted);
    assert!(result.is_err());
}

#[test]
fn test_tampered_tag() {
    let mut cm = CryptoManager::new(&test_config()).unwrap();
    let key = cm.generate_data_key().unwrap();
    let plaintext = b"data with tag";
    let mut encrypted = cm.encrypt(plaintext, &key).unwrap();
    if !encrypted.tag.is_empty() {
        encrypted.tag[0] ^= 0xFF;
    }
    let result = cm.decrypt(&encrypted);
    assert!(result.is_err());
}

#[test]
fn test_tampered_nonce() {
    let mut cm = CryptoManager::new(&test_config()).unwrap();
    let key = cm.generate_data_key().unwrap();
    let plaintext = b"data with nonce";
    let mut encrypted = cm.encrypt(plaintext, &key).unwrap();
    if !encrypted.nonce.is_empty() {
        encrypted.nonce[0] ^= 0x01;
    }
    let result = cm.decrypt(&encrypted);
    assert!(result.is_err());
}

#[test]
fn test_truncated_ciphertext() {
    let mut cm = CryptoManager::new(&test_config()).unwrap();
    let key = cm.generate_data_key().unwrap();
    let plaintext = b"truncate me";
    let mut encrypted = cm.encrypt(plaintext, &key).unwrap();
    if !encrypted.ciphertext.is_empty() {
        encrypted
            .ciphertext
            .truncate(encrypted.ciphertext.len() / 2);
    }
    let result = cm.decrypt(&encrypted);
    assert!(result.is_err());
}

#[test]
fn test_hash_data_sha256() {
    let cm = CryptoManager::new(&test_config()).unwrap();
    let hash = cm.hash_data(b"test data", HashAlgorithm::SHA256).unwrap();
    assert_eq!(hash.len(), 64);
}

#[test]
fn test_hash_deterministic() {
    let cm = CryptoManager::new(&test_config()).unwrap();
    let h1 = cm.hash_data(b"same data", HashAlgorithm::SHA256).unwrap();
    let h2 = cm.hash_data(b"same data", HashAlgorithm::SHA256).unwrap();
    assert_eq!(h1, h2);
}

#[test]
fn test_hash_different_data() {
    let cm = CryptoManager::new(&test_config()).unwrap();
    let h1 = cm.hash_data(b"data a", HashAlgorithm::SHA256).unwrap();
    let h2 = cm.hash_data(b"data b", HashAlgorithm::SHA256).unwrap();
    assert_ne!(h1, h2);
}

#[test]
fn test_create_and_verify_integrity() {
    let cm = CryptoManager::new(&test_config()).unwrap();
    let data = b"data to check";
    let integrity = cm.create_data_integrity(data).unwrap();
    assert!(cm.verify_data_integrity(data, &integrity).unwrap());
}

#[test]
fn test_verify_integrity_tampered_data() {
    let cm = CryptoManager::new(&test_config()).unwrap();
    let data = b"original data";
    let integrity = cm.create_data_integrity(data).unwrap();
    let tampered = b"tampered data";
    assert!(!cm.verify_data_integrity(tampered, &integrity).unwrap());
}

#[test]
fn test_hash_sha3() {
    let cm = CryptoManager::new(&test_config()).unwrap();
    let hash = cm.hash_data(b"sha3 test", HashAlgorithm::SHA3_256).unwrap();
    assert_eq!(hash.len(), 64);
}

#[test]
fn test_hash_blake3() {
    let cm = CryptoManager::new(&test_config()).unwrap();
    let hash = cm.hash_data(b"blake3 test", HashAlgorithm::Blake3).unwrap();
    assert_eq!(hash.len(), 64);
}

#[test]
fn test_hash_and_verify_password() {
    let cm = CryptoManager::new(&test_config()).unwrap();
    let password = "my_secure_password!";
    let hash = cm.hash_password(password).unwrap();
    assert!(hash.starts_with("$argon2"));
    assert!(cm.verify_password(password, &hash).unwrap());
}

#[test]
fn test_verify_wrong_password() {
    let cm = CryptoManager::new(&test_config()).unwrap();
    let hash = cm.hash_password("correct_password").unwrap();
    assert!(!cm.verify_password("wrong_password", &hash).unwrap());
}

#[test]
fn test_key_rotation() {
    let mut cm = CryptoManager::new(&test_config()).unwrap();
    let k1 = cm.generate_data_key().unwrap();
    let k2 = cm.generate_data_key().unwrap();

    assert_eq!(cm.decrypt(&cm.encrypt(b"a", &k1).unwrap()).unwrap(), b"a");
    assert_eq!(cm.decrypt(&cm.encrypt(b"b", &k2).unwrap()).unwrap(), b"b");

    cm.rotate_keys().unwrap();

    assert_eq!(cm.decrypt(&cm.encrypt(b"a", &k1).unwrap()).unwrap(), b"a");
    assert_eq!(cm.decrypt(&cm.encrypt(b"b", &k2).unwrap()).unwrap(), b"b");
}

#[test]
fn test_key_status_active() {
    let mut cm = CryptoManager::new(&test_config()).unwrap();
    let key = cm.generate_data_key().unwrap();
    let status = cm.get_key_status();
    assert!(matches!(status.get(&key.id), Some(KeyStatus::Active)));
}

#[test]
fn test_encrypt_decrypt() {
    let manager = FileEncryptionManager::new();
    let plaintext = b"Hello, PrimusDB encrypted world!";

    let encrypted = manager.encrypt_file(plaintext).unwrap();
    assert_ne!(encrypted, plaintext);

    let decrypted = manager.decrypt_file(&encrypted).unwrap();
    assert_eq!(decrypted, plaintext);
}

#[test]
fn test_tamper_detection() {
    let manager = FileEncryptionManager::new();
    let plaintext = b"Important data";

    let encrypted = manager.encrypt_file(plaintext).unwrap();

    let mut tampered = encrypted.clone();
    tampered[HEADER_SIZE + 10] ^= 0xFF;

    let result = manager.decrypt_file(&tampered);
    assert!(result.is_err());
}

#[test]
fn digests_have_known_values() {
    let cm = CryptoManager::new(&test_config()).unwrap();
    assert_eq!(
        cm.hash_data(b"abc", HashAlgorithm::SHA256).unwrap(),
        "ba7816bf8f01cfea414140de5dae2223b00361a396177a9cb410ff61f20015ad"
    );
    assert_eq!(
        cm.hash_data(b"", HashAlgorithm::SHA3_256).unwrap(),
        "a7ffc6f8bf1ed76651c14756a061d662f580ff4de43b49fa82d80a4b80f8434a"
    );
    assert_eq!(
        cm.hash_data(b"", HashAlgorithm::Blake3).unwrap(),
        "af1349b9f5f9a1a6a0404dea36dcc9499bcb25c9adc112b7cc9a93cae41f3262"
    );
}

#[test]
fn integrity_records_use_blake3() {
    let cm = CryptoManager::new(&test_config()).unwrap();
    let integrity = cm.create_data_integrity(b"").unwrap();
    assert_eq!(integrity.hash_algorithm, HashAlgorithm::Blake3);
    assert_eq!(integrity.checksum, "af1349b9f5f9a1a6a0404dea36dcc9499bcb25c9adc112b7cc9a93cae41f3262");
}

#[test]
fn key_ids_and_lifetimes() {
    let mut cm = CryptoManager::new(&test_config()).unwrap();
    let k = cm.generate_data_key_at(1_000).unwrap();
    assert_eq!(k.id, "key_1000");
    assert_eq!(k.created_at, 1_000);
    assert_eq!(k.expires_at, 1_000 + 86_400_000_000_000);
    let late = cm.generate_data_key_at(i64::MAX - 5).unwrap();
    assert_eq!(late.expires_at, i64::MAX);
    let early = cm.generate_data_key_at(-7).unwrap();
    assert_eq!(early.id, "key_-7");
}

#[test]
fn key_status_follows_expiry() {
    let mut cm = CryptoManager::new(&test_config()).unwrap();
    let k = cm.generate_data_key_at(0).unwrap();
    let day = 86_400_000_000_000i64;
    let hour = 3_600_000_000_000i64;
    assert!(matches!(cm.get_key_status_at(0).get(&k.id), Some(KeyStatus::Active)));
    assert!(matches!(cm.get_key_status_at(day - 2 * hour).get(&k.id), Some(KeyStatus::Active)));
    assert!(matches!(cm.get_key_status_at(day - 2 * hour + 1).get(&k.id), Some(KeyStatus::ExpiringSoon)));
    assert!(matches!(cm.get_key_status_at(day).get(&k.id), Some(KeyStatus::Expired)));
}

#[test]
fn rotation_shortens_old_keys() {
    let mut cm = CryptoManager::new(&test_config()).unwrap();
    let k = cm.generate_data_key_at(0).unwrap();
    cm.rotate_keys_at(10).unwrap();
    assert_eq!(cm.key_rotation_counter, 1);
    let status = cm.get_key_status_at(10);
    assert!(matches!(status.get(&k.id), Some(KeyStatus::ExpiringSoon)));
    assert!(matches!(status.get(&"key_10".to_string()), Some(KeyStatus::Active)));
    assert_eq!(cm.active_keys.len(), 2);
}

#[test]
fn second_suite_roundtrip_and_tamper() {
    let mut cm = CryptoManager::new(&test_config()).unwrap();
    let mut key = cm.generate_data_key().unwrap();
    key.algorithm = EncryptionAlgorithm::ChaCha20Poly1305;
    let mut other = cm.generate_data_key_at(5).unwrap();
    other.algorithm = EncryptionAlgorithm::ChaCha20Poly1305;
    let enc = cm.encrypt(b"suite two", &key).unwrap();
    assert_eq!(enc.algorithm, EncryptionAlgorithm::ChaCha20Poly1305);
    assert_eq!(enc.tag.len(), 16);
    assert_eq!(cm.decrypt(&enc).unwrap(), b"suite two");
    let mut bad = enc.clone();
    bad.nonce = vec![0u8; 5];
    assert_eq!(cm.decrypt(&bad).unwrap_err(), "Invalid nonce length");
    let mut bad = enc.clone();
    bad.tag[3] ^= 1;
    assert_eq!(cm.decrypt(&bad).unwrap_err(), "ChaCha20 decryption failed: ring::error::Unspecified");
}

#[test]
fn bad_keys_and_hashes_are_refused() {
    let cm = CryptoManager::new(&test_config()).unwrap();
    let short = primusdb::crypto::EncryptionKey {
        id: "k".to_string(),
        key: vec![1, 2, 3],
        created_at: 0,
        expires_at: 0,
        algorithm: EncryptionAlgorithm::AES256GCM,
    };
    assert_eq!(cm.encrypt(b"x", &short).unwrap_err(), "Failed to create cipher: Invalid Length");
    let err = cm.verify_password("pw", "not a phc string").unwrap_err();
    assert!(err.starts_with("Invalid password hash: "));
    let missing = EncryptedData {
        key_id: "nonexistent-key".to_string(),
        nonce: vec![0u8; 12],
        ciphertext: vec![],
        tag: vec![0u8; 16],
        algorithm: EncryptionAlgorithm::AES256GCM,
    };
    assert_eq!(cm.decrypt(&missing).unwrap_err(), "Encryption key not found");
}

#[test]
fn file_format_is_checked() {
    let manager = FileEncryptionManager::from_password("secret");
    let same = FileEncryptionManager::from_password("secret");
    let encrypted = manager.encrypt_file(b"payload").unwrap();
    assert_eq!(encrypted.len(), HEADER_SIZE + 7 + 16);
    assert_eq!(&encrypted[0..4], b"PREN");
    assert_eq!(&encrypted[4..8], &[1, 0, 1, 0]);
    assert!(primusdb::crypto::file_encryption::starts_with_magic(&encrypted));
    assert_eq!(same.decrypt_file(&encrypted).unwrap(), b"payload");
    assert!(FileEncryptionManager::from_password("other").decrypt_file(&encrypted).is_err());

    assert_eq!(manager.decrypt_file(&encrypted[..59]).unwrap_err(), "Encrypted file too short");
    let mut bad = encrypted.clone();
    bad[0] = b'X';
    assert_eq!(manager.decrypt_file(&bad).unwrap_err(), "Invalid file format");
    let mut bad = encrypted.clone();
    bad[4] = 2;
    assert_eq!(manager.decrypt_file(&bad).unwrap_err(), "Unsupported encryption version: 2");
    let mut plain = encrypted.clone();
    plain[6] = 0;
    assert_eq!(manager.decrypt_file(&plain).unwrap(), plain);
    let mut bad = encrypted.clone();
    let last = bad.len() - 1;
    bad[last] ^= 1;
    assert_eq!(manager.decrypt_file(&bad).unwrap_err(), "Decryption failed: aead::Error");
    let mut bad = encrypted.clone();
    bad[40] ^= 1;
    assert_eq!(
        manager.decrypt_file(&bad).unwrap_err(),
        "Data integrity check failed - file may be tampered"
    );
}

#[test]
fn seal_file_under_chosen_salt_and_nonce_decrypts_back() {
    let manager = FileEncryptionManager::from_password("secret");
    let salt = [7u8; 16];
    let nonce = [9u8; 12];
    let sealed = manager.seal_file(&salt, &nonce, b"payload").unwrap();
    assert_eq!(sealed.len(), HEADER_SIZE + 7 + 16);
    assert_eq!(&sealed[8..24], &salt);
    assert_eq!(&sealed[24..36], &nonce);
    assert_eq!(manager.seal_file(&salt, &nonce, b"payload").unwrap(), sealed);
    assert_eq!(manager.decrypt_file(&sealed).unwrap(), b"payload".to_vec());
}

#[test]
fn encrypt_with_nonce_keeps_the_nonce_and_refuses_short_keys() {
    let mut cm = CryptoManager::new(&test_config()).unwrap();
    let key = cm.generate_data_key().unwrap();
    let nonce = vec![3u8; 12];
    let data = cm.encrypt_with_nonce(b"hello", &key, nonce.clone()).unwrap();
    assert_eq!(data.nonce, nonce);
    assert_eq!(data.ciphertext.len(), 5);
    assert_eq!(data.tag.len(), 16);
    assert_eq!(cm.decrypt(&data).unwrap(), b"hello".to_vec());
    let mut short = key.copy();
    short.key.truncate(31);
    assert_eq!(
        cm.encrypt_with_nonce(b"hello", &short, nonce.clone()).unwrap_err(),
        "Failed to create cipher: Invalid Length"
    );
    assert_eq!(cm.encrypt(b"hello", &short).unwrap_err(), "Failed to create cipher: Invalid Length");
    short.algorithm = EncryptionAlgorithm::ChaCha20Poly1305;
    assert_eq!(
        cm.encrypt(b"hello", &short).unwrap_err(),
        "Failed to create unbound key: ring::error::Unspecified"
    );
}
